use counterbot::json::store_to_json;
use counterbot::store::{
    add_channel, add_command, add_counter, edit_command, edit_counter, find_channel,
    find_command, find_counter, pregen_data, remove_command, remove_counter, Store, StoreError,
};

fn empty_store() -> Store {
    Store { channels: Vec::new() }
}

fn s(x: &str) -> String {
    String::from(x)
}

#[test]
fn add_channel_twice_fails_and_leaves_store_unchanged() {
    let mut store = empty_store();
    assert!(add_channel(&s("chan"), &mut store).is_ok());
    let before = store_to_json(&store);
    let r = add_channel(&s("chan"), &mut store);
    assert_eq!(r, Err(StoreError::ChannelAlreadyExists));
    assert_eq!(store_to_json(&store), before);
    assert_eq!(store.channels.len(), 1);
}

#[test]
fn add_command_twice_fails_and_keeps_first_answer() {
    let mut store = empty_store();
    add_channel(&s("chan"), &mut store).unwrap();
    add_command(&s("chan"), &s("greet"), &s("hello there"), &mut store).unwrap();
    let r = add_command(&s("chan"), &s("greet"), &s("other"), &mut store);
    assert_eq!(r, Err(StoreError::CommandAlreadyExists));
    assert_eq!(store.channels[0].commands.len(), 1);
    assert_eq!(store.channels[0].commands[0].answer, "hello there");
}

#[test]
fn mutations_on_missing_entities_fail_without_change() {
    let mut store = empty_store();
    add_channel(&s("chan"), &mut store).unwrap();
    let before = store_to_json(&store);
    assert_eq!(
        remove_command(&s("chan"), &s("nope"), &mut store),
        Err(StoreError::CommandNotFound)
    );
    assert_eq!(
        remove_counter(&s("chan"), &s("nope"), &mut store),
        Err(StoreError::CounterNotFound)
    );
    assert_eq!(
        edit_command(&s("chan"), &s("nope"), &s("text"), &mut store),
        Err(StoreError::CommandNotFound)
    );
    assert_eq!(
        edit_counter(&s("chan"), &s("nope"), &mut store, 5),
        Err(StoreError::CounterNotFound)
    );
    assert_eq!(
        add_counter(&s("ghost"), &s("x"), &mut store),
        Err(StoreError::ChannelNotFound)
    );
    assert_eq!(
        edit_counter(&s("ghost"), &s("x"), &mut store, 1),
        Err(StoreError::ChannelNotFound)
    );
    assert_eq!(store_to_json(&store), before);
}

#[test]
fn counter_lifecycle() {
    let mut store = empty_store();
    add_channel(&s("chan"), &mut store).unwrap();
    add_counter(&s("chan"), &s("hype"), &mut store).unwrap();
    assert_eq!(store.channels[0].counters[0].count, 0);
    assert_eq!(
        add_counter(&s("chan"), &s("hype"), &mut store),
        Err(StoreError::CounterAlreadyExists)
    );
    edit_counter(&s("chan"), &s("hype"), &mut store, 41).unwrap();
    assert_eq!(store.channels[0].counters[0].count, 41);
    remove_counter(&s("chan"), &s("hype"), &mut store).unwrap();
    assert!(store.channels[0].counters.is_empty());
}

#[test]
fn pregen_is_idempotent_and_order_preserving() {
    let mut store = empty_store();
    add_channel(&s("old"), &mut store).unwrap();
    add_counter(&s("old"), &s("kept"), &mut store).unwrap();
    let names = vec![s("old"), s("new1"), s("new2"), s("new1")];
    pregen_data(&names, &mut store);
    assert_eq!(store.channels.len(), 3);
    assert_eq!(store.channels[0].name, "old");
    assert_eq!(store.channels[1].name, "new1");
    assert_eq!(store.channels[2].name, "new2");
    // the already present channel is untouched
    assert_eq!(store.channels[0].counters[0].name, "kept");
}

#[test]
fn lookups_report_absence_without_error() {
    let mut store = empty_store();
    add_channel(&s("chan"), &mut store).unwrap();
    add_counter(&s("chan"), &s("hype"), &mut store).unwrap();
    add_command(&s("chan"), &s("greet"), &s("hi"), &mut store).unwrap();
    assert!(find_channel(&store, &s("nope")).is_none());
    let ch = find_channel(&store, &s("chan")).unwrap();
    assert!(find_counter(ch, &s("hype")).is_some());
    assert!(find_counter(ch, &s("other")).is_none());
    assert_eq!(find_command(ch, &s("greet")).unwrap().answer, "hi");
    assert!(find_command(ch, &s("hype")).is_none());
}

#[test]
fn error_messages_name_the_entity() {
    assert_eq!(
        StoreError::ChannelNotFound.message(&s("chan"), &s("x")),
        "Couldn't find a channel with the name of chan"
    );
    assert_eq!(
        StoreError::CounterAlreadyExists.message(&s("chan"), &s("hype")),
        "There already is a counter with the name of hype"
    );
    assert_eq!(
        StoreError::CommandNotFound.message(&s("chan"), &s("greet")),
        "Couldn't find a command with the name of greet"
    );
}
