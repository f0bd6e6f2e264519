use counterbot::json::{store_from_json, store_to_json};
use counterbot::store::{add_channel, add_command, add_counter, edit_counter, Channel, Store};

fn s(x: &str) -> String {
    String::from(x)
}

#[test]
fn empty_store_document() {
    let store = Store { channels: Vec::new() };
    assert_eq!(store_to_json(&store), "{\n  \"channels\": []\n}");
}

#[test]
fn one_channel_document_is_pretty_printed() {
    let mut store = Store { channels: Vec::new() };
    add_channel(&s("c"), &mut store).unwrap();
    add_command(&s("c"), &s("n"), &s("a"), &mut store).unwrap();
    add_counter(&s("c"), &s("k"), &mut store).unwrap();
    edit_counter(&s("c"), &s("k"), &mut store, 3).unwrap();
    let expected = "{\n  \"channels\": [\n    {\n      \"name\": \"c\",\n      \"commands\": [\n        {\n          \"name\": \"n\",\n          \"answer\": \"a\"\n        }\n      ],\n      \"counters\": [\n        {\n          \"name\": \"k\",\n          \"count\": 3\n        }\n      ]\n    }\n  ]\n}";
    assert_eq!(store_to_json(&store), expected);
}

#[test]
fn round_trip_preserves_structure_and_order() {
    let mut store = Store { channels: Vec::new() };
    add_channel(&s("alpha"), &mut store).unwrap();
    add_channel(&s("beta"), &mut store).unwrap();
    add_command(&s("alpha"), &s("one"), &s("first answer"), &mut store).unwrap();
    add_command(&s("alpha"), &s("two"), &s("second answer"), &mut store).unwrap();
    add_counter(&s("beta"), &s("hype"), &mut store).unwrap();
    edit_counter(&s("beta"), &s("hype"), &mut store, -17).unwrap();
    let doc = store_to_json(&store);
    let back = store_from_json(doc.as_str()).expect("canonical document parses");
    assert_eq!(store_to_json(&back), doc);
    assert_eq!(back.channels.len(), 2);
    assert_eq!(back.channels[0].name, "alpha");
    assert_eq!(back.channels[0].commands[1].answer, "second answer");
    assert_eq!(back.channels[1].counters[0].count, -17);
}

#[test]
fn round_trip_escapes_quotes_and_backslashes() {
    let mut store = Store { channels: Vec::new() };
    add_channel(&s("c"), &mut store).unwrap();
    add_command(&s("c"), &s("q\"uo\\te"), &s("an\"s\\wer"), &mut store).unwrap();
    let doc = store_to_json(&store);
    let back = store_from_json(doc.as_str()).expect("escaped document parses");
    assert_eq!(back.channels[0].commands[0].name, "q\"uo\\te");
    assert_eq!(back.channels[0].commands[0].answer, "an\"s\\wer");
}

#[test]
fn extreme_counts_survive_the_round_trip() {
    let mut store = Store { channels: Vec::new() };
    add_channel(&s("c"), &mut store).unwrap();
    add_counter(&s("c"), &s("low"), &mut store).unwrap();
    add_counter(&s("c"), &s("high"), &mut store).unwrap();
    edit_counter(&s("c"), &s("low"), &mut store, i32::MIN).unwrap();
    edit_counter(&s("c"), &s("high"), &mut store, i32::MAX).unwrap();
    let doc = store_to_json(&store);
    let back = store_from_json(doc.as_str()).unwrap();
    assert_eq!(back.channels[0].counters[0].count, i32::MIN);
    assert_eq!(back.channels[0].counters[1].count, i32::MAX);
}

#[test]
fn malformed_documents_are_rejected() {
    assert!(store_from_json("").is_none());
    assert!(store_from_json("{}").is_none());
    assert!(store_from_json("{\n  \"channels\": []\n} ").is_none());
    assert!(store_from_json("{\n  \"channels\": [").is_none());
}

#[test]
fn documents_breaking_uniqueness_are_rejected() {
    let dup = Channel { name: s("twice"), commands: Vec::new(), counters: Vec::new() };
    let dup2 = Channel { name: s("twice"), commands: Vec::new(), counters: Vec::new() };
    let store = Store { channels: vec![dup, dup2] };
    let doc = store_to_json(&store);
    assert!(store_from_json(doc.as_str()).is_none());
}

#[test]
fn counts_outside_i32_are_rejected() {
    let mut store = Store { channels: Vec::new() };
    add_channel(&s("c"), &mut store).unwrap();
    add_counter(&s("c"), &s("k"), &mut store).unwrap();
    edit_counter(&s("c"), &s("k"), &mut store, 3).unwrap();
    let doc = store_to_json(&store);
    let too_big = doc.replace("\"count\": 3", "\"count\": 2147483648");
    assert!(store_from_json(too_big.as_str()).is_none());
}
