use counterbot::dispatch::{handle, Action, IncomingMessage};
use counterbot::store::{add_channel, add_command, add_counter, Store};

fn s(x: &str) -> String {
    String::from(x)
}

fn msg(channel: &str, sender: &str, badges: Vec<&str>, text: &str) -> IncomingMessage {
    IncomingMessage {
        channel_login: s(channel),
        sender_login: s(sender),
        sender_badges: badges.into_iter().map(String::from).collect(),
        message_text: s(text),
    }
}

fn store_with_channel(name: &str) -> Store {
    let mut store = Store { channels: Vec::new() };
    add_channel(&s(name), &mut store).unwrap();
    store
}

fn run(store: &mut Store, m: &IncomingMessage) -> Vec<Action> {
    handle(store, &s("!"), &s("mybot"), m)
}

#[test]
fn counter_trigger_increments_and_broadcasts() {
    let mut store = store_with_channel("chan");
    add_counter(&s("chan"), &s("hype"), &mut store).unwrap();
    let acts = run(&mut store, &msg("chan", "viewer", vec![], "hype"));
    assert_eq!(
        acts,
        vec![
            Action::Persist,
            Action::Say { channel: s("chan"), text: s("1 hype") },
        ]
    );
    assert_eq!(store.channels[0].counters[0].count, 1);
    // a second hit counts on
    let acts = run(&mut store, &msg("chan", "viewer", vec![], "  hype  "));
    assert_eq!(
        acts,
        vec![
            Action::Persist,
            Action::Say { channel: s("chan"), text: s("2 hype") },
        ]
    );
}

#[test]
fn counter_trigger_needs_the_counter_and_the_channel() {
    let mut store = store_with_channel("chan");
    add_counter(&s("chan"), &s("hype"), &mut store).unwrap();
    assert!(run(&mut store, &msg("chan", "viewer", vec![], "other")).is_empty());
    assert!(run(&mut store, &msg("elsewhere", "viewer", vec![], "hype")).is_empty());
    assert_eq!(store.channels[0].counters[0].count, 0);
}

#[test]
fn say_requires_moderator() {
    let mut store = store_with_channel("chan");
    let acts = run(&mut store, &msg("chan", "viewer", vec![], "!say hi"));
    assert_eq!(
        acts,
        vec![Action::Reply { text: s("Only mods can use this command") }]
    );
}

#[test]
fn say_broadcasts_the_joined_tokens() {
    let mut store = store_with_channel("chan");
    let acts = run(
        &mut store,
        &msg("chan", "m", vec!["moderator"], "!say hello   brave world"),
    );
    assert_eq!(
        acts,
        vec![Action::Say { channel: s("chan"), text: s("hello brave world") }]
    );
    let acts = run(&mut store, &msg("chan", "m", vec!["broadcaster"], "!say"));
    assert_eq!(acts, vec![Action::Reply { text: s("Say what?") }]);
}

#[test]
fn ping_replies_pong_case_insensitively() {
    let mut store = store_with_channel("chan");
    let acts = run(&mut store, &msg("chan", "viewer", vec![], "!PING"));
    assert_eq!(acts, vec![Action::Reply { text: s("Pong!") }]);
}

#[test]
fn own_messages_are_ignored_after_the_trigger() {
    let mut store = store_with_channel("chan");
    let acts = run(&mut store, &msg("chan", "MyBot", vec![], "!ping"));
    assert!(acts.is_empty());
}

#[test]
fn counter_add_creates_then_refuses_duplicates() {
    let mut store = store_with_channel("chan");
    let acts = run(
        &mut store,
        &msg("chan", "m", vec!["moderator"], "!counter add hype"),
    );
    assert_eq!(
        acts,
        vec![
            Action::Persist,
            Action::Reply { text: s("Successfully added hype counter") },
        ]
    );
    assert_eq!(store.channels[0].counters[0].name, "hype");
    assert_eq!(store.channels[0].counters[0].count, 0);
    let acts = run(
        &mut store,
        &msg("chan", "m", vec!["moderator"], "!counter add hype"),
    );
    assert_eq!(
        acts,
        vec![Action::Reply {
            text: s(
                "Couldn't create hype counter. There already is a counter with the name of hype"
            ),
        }]
    );
}

#[test]
fn counter_edit_parses_its_value() {
    let mut store = store_with_channel("chan");
    add_counter(&s("chan"), &s("hype"), &mut store).unwrap();
    let acts = run(
        &mut store,
        &msg("chan", "m", vec!["moderator"], "!counter edit hype 41"),
    );
    assert_eq!(
        acts,
        vec![
            Action::Persist,
            Action::Reply { text: s("Successfully set hype counter to 41") },
        ]
    );
    assert_eq!(store.channels[0].counters[0].count, 41);
    let acts = run(
        &mut store,
        &msg("chan", "m", vec!["moderator"], "!counter edit hype abc"),
    );
    assert_eq!(acts, vec![Action::Reply { text: s("abc is not a number") }]);
    let acts = run(
        &mut store,
        &msg("chan", "m", vec!["moderator"], "!counter edit"),
    );
    assert_eq!(acts, vec![Action::Reply { text: s("2 more arguments needed") }]);
    let acts = run(
        &mut store,
        &msg("chan", "m", vec!["moderator"], "!counter edit hype"),
    );
    assert_eq!(acts, vec![Action::Reply { text: s("1 more arguments needed") }]);
}

#[test]
fn counter_subcommands_are_gated() {
    let mut store = store_with_channel("chan");
    let acts = run(&mut store, &msg("chan", "viewer", vec![], "!counter add hype"));
    assert_eq!(
        acts,
        vec![Action::Reply { text: s("Only mods can use this command") }]
    );
    assert!(store.channels[0].counters.is_empty());
}

#[test]
fn command_add_lowercases_and_fallback_answers() {
    let mut store = store_with_channel("chan");
    let acts = run(
        &mut store,
        &msg("chan", "m", vec!["moderator"], "!command add Greet Hello there"),
    );
    assert_eq!(
        acts,
        vec![
            Action::Persist,
            Action::Reply { text: s("Successfully added greet command") },
        ]
    );
    let acts = run(&mut store, &msg("chan", "viewer", vec![], "!GREET"));
    assert_eq!(
        acts,
        vec![Action::Say { channel: s("chan"), text: s("Hello there") }]
    );
}

#[test]
fn unknown_verb_with_command_broadcasts_its_answer() {
    let mut store = store_with_channel("chan");
    add_command(&s("chan"), &s("unknownverb"), &s("the stored answer"), &mut store).unwrap();
    let acts = run(&mut store, &msg("chan", "viewer", vec![], "!unknownverb"));
    assert_eq!(
        acts,
        vec![Action::Say { channel: s("chan"), text: s("the stored answer") }]
    );
}

#[test]
fn unknown_verb_without_command_is_silent() {
    let mut store = store_with_channel("chan");
    let acts = run(&mut store, &msg("chan", "viewer", vec![], "!unknownverb"));
    assert!(acts.is_empty());
}

#[test]
fn command_list_joins_prefixed_names_in_insertion_order() {
    let mut store = store_with_channel("chan");
    add_command(&s("chan"), &s("hello"), &s("a"), &mut store).unwrap();
    add_command(&s("chan"), &s("bye"), &s("b"), &mut store).unwrap();
    let acts = run(&mut store, &msg("chan", "viewer", vec![], "!command list"));
    assert_eq!(acts, vec![Action::Reply { text: s("!hello | !bye") }]);
}

#[test]
fn command_remove_and_edit() {
    let mut store = store_with_channel("chan");
    add_command(&s("chan"), &s("greet"), &s("old"), &mut store).unwrap();
    let acts = run(
        &mut store,
        &msg("chan", "m", vec!["moderator"], "!command edit greet brand new words"),
    );
    assert_eq!(
        acts,
        vec![
            Action::Persist,
            Action::Reply { text: s("Successfully edited greet command") },
        ]
    );
    assert_eq!(store.channels[0].commands[0].answer, "brand new words");
    let acts = run(
        &mut store,
        &msg("chan", "m", vec!["moderator"], "!command remove greet"),
    );
    assert_eq!(
        acts,
        vec![
            Action::Persist,
            Action::Reply { text: s("Successfully removed greet command") },
        ]
    );
    assert!(store.channels[0].commands.is_empty());
    let acts = run(
        &mut store,
        &msg("chan", "m", vec!["moderator"], "!command remove greet"),
    );
    assert_eq!(
        acts,
        vec![Action::Reply {
            text: s("Couldn't remove greet command. Couldn't find a command with the name of greet"),
        }]
    );
}

#[test]
fn prefixless_messages_only_run_the_trigger() {
    let mut store = store_with_channel("chan");
    let acts = run(&mut store, &msg("chan", "viewer", vec!["moderator"], "say hi"));
    assert!(acts.is_empty());
}

#[test]
fn saturated_counter_is_left_alone() {
    let mut store = store_with_channel("chan");
    add_counter(&s("chan"), &s("hype"), &mut store).unwrap();
    counterbot::store::edit_counter(&s("chan"), &s("hype"), &mut store, i32::MAX).unwrap();
    let acts = run(&mut store, &msg("chan", "viewer", vec![], "hype"));
    assert!(acts.is_empty());
    assert_eq!(store.channels[0].counters[0].count, i32::MAX);
}
