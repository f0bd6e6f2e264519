//! The dispatcher: one incoming chat message in, store mutations and
//! outbound actions out.
//!
//! For each message the bot first runs the counter auto-trigger (a message
//! whose trimmed text equals a counter's name increments that counter),
//! then, if the message starts with the configured prefix and was not sent
//! by the bot itself, routes the first token as a verb: `ping`, `say`,
//! `counter add|remove|edit`, `command add|remove|edit|list`, and finally
//! a fallback lookup of the verb among the channel's custom commands.
//! Moderator gating applies at the `say`/`counter`/`command` verb level,
//! except for `command list`, which anyone may use.
//!
//! The whole step is given denotationally by [`dispatch_step`]; the
//! executable [`handle`] is proved to produce exactly that outcome. A
//! [`ActionV::Persist`] action stands immediately after every successful
//! mutation: the caller must write the store to stable storage at that
//! point, before sending the replies that follow.

use vstd::prelude::*;

use crate::num::{dec_int, i32_to_string, parse_i32, parse_i32_of};
use crate::store::{
    add_command,
    add_command_s,
    add_counter,
    add_counter_s,
    chan_idx,
    chan_of,
    cmd_of,
    ctr_of,
    edit_command,
    edit_command_s,
    edit_counter,
    edit_counter_s,
    err_text,
    find_channel,
    find_command,
    find_counter,
    has_chan,
    has_cmd,
    has_ctr,
    remove_command,
    remove_command_s,
    remove_counter,
    remove_counter_s,
    wf_channel,
    wf_store,
    CommandV,
    Store,
    StoreV,
};
use crate::text::{
    join_tokens,
    join_with,
    lower_of,
    lowercase,
    str_eq,
    str_starts_with,
    tokenize,
    tokens_of,
    trim,
    trim_of,
};

verus! {

/// One message as the transport hands it over.
pub struct IncomingMessage {
    pub channel_login: String,
    pub sender_login: String,
    pub sender_badges: Vec<String>,
    pub message_text: String,
}

/// Mathematical image of an `IncomingMessage`.
#[verifier::ext_equal]
pub struct MsgV {
    pub channel_login: Seq<char>,
    pub sender_login: Seq<char>,
    pub sender_badges: Seq<Seq<char>>,
    pub message_text: Seq<char>,
}

impl View for IncomingMessage {
    type V = MsgV;

    open spec fn view(&self) -> MsgV {
        MsgV {
            channel_login: self.channel_login@,
            sender_login: self.sender_login@,
            sender_badges: self.sender_badges.deep_view(),
            message_text: self.message_text@,
        }
    }
}

/// One outbound effect of a dispatch step, in order.
#[derive(Debug, PartialEq, Eq)]
pub enum Action {
    /// Broadcast `text` to the channel.
    Say { channel: String, text: String },
    /// Reply to the sender of the message being handled.
    Reply { text: String },
    /// Write the store to stable storage now.
    Persist,
}

/// Mathematical image of an `Action`.
#[verifier::ext_equal]
pub enum ActionV {
    Say { channel: Seq<char>, text: Seq<char> },
    Reply { text: Seq<char> },
    Persist,
}

impl DeepView for Action {
    type V = ActionV;

    open spec fn deep_view(&self) -> ActionV {
        match self {
            Action::Say { channel, text } => ActionV::Say { channel: channel@, text: text@ },
            Action::Reply { text } => ActionV::Reply { text: text@ },
            Action::Persist => ActionV::Persist,
        }
    }
}

/// The result of one dispatch step: the store afterwards and the actions
/// to perform, in order.
#[verifier::ext_equal]
pub struct Outcome {
    pub store: StoreV,
    pub actions: Seq<ActionV>,
}

// ---------- moderator badges ----------

pub open spec fn mod_badge(b: Seq<char>) -> bool {
    b == "moderator"@ || b == "broadcaster"@
}

/// A sender is a moderator when their badge set holds `moderator` or
/// `broadcaster`.
pub open spec fn is_mod(badges: Seq<Seq<char>>) -> bool {
    exists|i: int| 0 <= i < badges.len() && mod_badge(#[trigger] badges[i])
}

pub fn sender_is_moderator(badges: &Vec<String>) -> (r: bool)
    ensures
        r == is_mod(badges.deep_view()),
{
    let n = badges.len();
    let mut i: usize = 0;
    while i < n
        invariant
            n == badges@.len(),
            i <= n,
            forall|j: int| 0 <= j < i ==> !mod_badge(#[trigger] badges.deep_view()[j]),
        decreases n - i,
    {
        if str_eq(badges[i].as_str(), "moderator") || str_eq(badges[i].as_str(), "broadcaster") {
            proof {
                assert(mod_badge(badges.deep_view()[i as int]));
            }
            return true;
        }
        i += 1;
    }
    false
}

// ---------- the step, denotationally ----------

pub open spec fn no_action(s: StoreV) -> Outcome {
    Outcome { store: s, actions: Seq::empty() }
}

pub open spec fn reply_only(s: StoreV, text: Seq<char>) -> Outcome {
    Outcome { store: s, actions: seq![ActionV::Reply { text: text }] }
}

/// Step 1: the counter auto-trigger. If the channel is known and the
/// trimmed message text names one of its counters, that counter goes up by
/// one, the store is persisted, and `"<n+1> <name>"` is broadcast. A
/// counter already at `i32::MAX` is deliberately left alone.
pub open spec fn trigger_step(s: StoreV, chan: Seq<char>, text: Seq<char>) -> Outcome {
    let t = trim_of(text);
    if has_chan(s.channels, chan) && has_ctr(chan_of(s, chan).counters, t) {
        let c = ctr_of(chan_of(s, chan).counters, t);
        if c.count < i32::MAX {
            let s2 = match edit_counter_s(s, chan, t, c.count + 1) {
                Ok(x) => x,
                Err(_) => s,
            };
            Outcome {
                store: s2,
                actions: seq![
                    ActionV::Persist,
                    ActionV::Say { channel: chan, text: dec_int(c.count + 1) + seq![' '] + t },
                ],
            }
        } else {
            no_action(s)
        }
    } else {
        no_action(s)
    }
}

/// The `counter add|remove|edit` sub-grammar; `ws` still holds the verb at
/// index 0.
pub open spec fn counter_route(s: StoreV, chan: Seq<char>, ws: Seq<Seq<char>>) -> Outcome
    recommends
        ws.len() >= 2,
{
    let sub = lower_of(ws[1]);
    if sub == "add"@ {
        if ws.len() < 3 {
            reply_only(s, "1 more argument needed"@)
        } else {
            match add_counter_s(s, chan, ws[2]) {
                Ok(s2) => Outcome {
                    store: s2,
                    actions: seq![
                        ActionV::Persist,
                        ActionV::Reply { text: "Successfully added "@ + ws[2] + " counter"@ },
                    ],
                },
                Err(e) => reply_only(
                    s,
                    "Couldn't create "@ + ws[2] + " counter. "@ + err_text(e, chan, ws[2]),
                ),
            }
        }
    } else if sub == "remove"@ {
        if ws.len() < 3 {
            reply_only(s, "1 more argument needed"@)
        } else {
            match remove_counter_s(s, chan, ws[2]) {
                Ok(s2) => Outcome {
                    store: s2,
                    actions: seq![
                        ActionV::Persist,
                        ActionV::Reply { text: "Successfully removed "@ + ws[2] + " counter"@ },
                    ],
                },
                Err(e) => reply_only(
                    s,
                    "Couldn't remove "@ + ws[2] + " counter. "@ + err_text(e, chan, ws[2]),
                ),
            }
        }
    } else if sub == "edit"@ {
        if ws.len() < 3 {
            reply_only(s, "2 more arguments needed"@)
        } else if ws.len() < 4 {
            reply_only(s, "1 more arguments needed"@)
        } else {
            match parse_i32_of(ws[3]) {
                None => reply_only(s, ws[3] + " is not a number"@),
                Some(v) => match edit_counter_s(s, chan, ws[2], v) {
                    Ok(s2) => Outcome {
                        store: s2,
                        actions: seq![
                            ActionV::Persist,
                            ActionV::Reply {
                                text: "Successfully set "@ + ws[2] + " counter to "@ + dec_int(v),
                            },
                        ],
                    },
                    Err(e) => reply_only(
                        s,
                        "Couldn't edit "@ + ws[2] + " counter. "@ + err_text(e, chan, ws[2]),
                    ),
                },
            }
        }
    } else {
        no_action(s)
    }
}

/// The reply of `command list`: every command name re-prefixed, joined
/// with `" | "`.
pub open spec fn list_text(cmds: Seq<CommandV>, prefix: Seq<char>) -> Seq<char> {
    join_with(cmds.map_values(|c: CommandV| prefix + c.name), " | "@)
}

/// The `command add|remove|edit` sub-grammar (`list` is handled one level
/// up); command names are case-folded at creation and lookup.
pub open spec fn command_route(s: StoreV, chan: Seq<char>, ws: Seq<Seq<char>>) -> Outcome
    recommends
        ws.len() >= 2,
{
    let sub = lower_of(ws[1]);
    if sub == "add"@ {
        if ws.len() < 3 {
            reply_only(s, "2 more arguments needed"@)
        } else if ws.len() < 4 {
            reply_only(s, "1 more argument needed"@)
        } else {
            let name = lower_of(ws[2]);
            match add_command_s(s, chan, name, join_with(ws.skip(3), " "@)) {
                Ok(s2) => Outcome {
                    store: s2,
                    actions: seq![
                        ActionV::Persist,
                        ActionV::Reply { text: "Successfully added "@ + name + " command"@ },
                    ],
                },
                Err(e) => reply_only(
                    s,
                    "Couldn't create "@ + name + " command. "@ + err_text(e, chan, name),
                ),
            }
        }
    } else if sub == "remove"@ {
        if ws.len() < 3 {
            reply_only(s, "1 more argument needed"@)
        } else {
            let name = lower_of(ws[2]);
            match remove_command_s(s, chan, name) {
                Ok(s2) => Outcome {
                    store: s2,
                    actions: seq![
                        ActionV::Persist,
                        ActionV::Reply { text: "Successfully removed "@ + name + " command"@ },
                    ],
                },
                Err(e) => reply_only(
                    s,
                    "Couldn't remove "@ + name + " command. "@ + err_text(e, chan, name),
                ),
            }
        }
    } else if sub == "edit"@ {
        if ws.len() < 3 {
            reply_only(s, "2 more arguments needed"@)
        } else if ws.len() < 4 {
            reply_only(s, "1 more argument needed"@)
        } else {
            let name = lower_of(ws[2]);
            match edit_command_s(s, chan, name, join_with(ws.skip(3), " "@)) {
                Ok(s2) => Outcome {
                    store: s2,
                    actions: seq![
                        ActionV::Persist,
                        ActionV::Reply { text: "Successfully edited "@ + name + " command"@ },
                    ],
                },
                Err(e) => reply_only(
                    s,
                    "Couldn't edit "@ + name + " command. "@ + err_text(e, chan, name),
                ),
            }
        }
    } else {
        no_action(s)
    }
}

/// Steps 3 to 5: the verb routing over the tokens of the message with the
/// prefix removed.
pub open spec fn route_step(
    s: StoreV,
    prefix: Seq<char>,
    chan: Seq<char>,
    ws: Seq<Seq<char>>,
    moder: bool,
) -> Outcome {
    if ws.len() == 0 {
        no_action(s)
    } else {
        let verb = lower_of(ws[0]);
        if verb == "ping"@ {
            reply_only(s, "Pong!"@)
        } else if verb == "say"@ {
            if !moder {
                reply_only(s, "Only mods can use this command"@)
            } else if ws.len() == 1 {
                reply_only(s, "Say what?"@)
            } else {
                Outcome {
                    store: s,
                    actions: seq![
                        ActionV::Say { channel: chan, text: join_with(ws.skip(1), " "@) },
                    ],
                }
            }
        } else if verb == "counter"@ {
            if !moder {
                reply_only(s, "Only mods can use this command"@)
            } else if ws.len() == 1 {
                no_action(s)
            } else {
                counter_route(s, chan, ws)
            }
        } else if verb == "command"@ {
            if ws.len() >= 2 && lower_of(ws[1]) == "list"@ {
                if has_chan(s.channels, chan) {
                    reply_only(s, list_text(chan_of(s, chan).commands, prefix))
                } else {
                    no_action(s)
                }
            } else if !moder {
                reply_only(s, "Only mods can use this command"@)
            } else if ws.len() == 1 {
                no_action(s)
            } else {
                command_route(s, chan, ws)
            }
        } else {
            if has_chan(s.channels, chan) && has_cmd(chan_of(s, chan).commands, verb) {
                Outcome {
                    store: s,
                    actions: seq![
                        ActionV::Say {
                            channel: chan,
                            text: cmd_of(chan_of(s, chan).commands, verb).answer,
                        },
                    ],
                }
            } else {
                no_action(s)
            }
        }
    }
}

/// The whole step for one message: the counter auto-trigger always runs;
/// routing runs only for messages that carry the prefix and do not come
/// from the bot itself.
pub open spec fn dispatch_step(s: StoreV, prefix: Seq<char>, bot: Seq<char>, m: MsgV) -> Outcome {
    let o1 = trigger_step(s, m.channel_login, m.message_text);
    if !prefix.is_prefix_of(m.message_text) {
        o1
    } else if lower_of(m.sender_login) == lower_of(bot) {
        o1
    } else {
        let ws = tokens_of(m.message_text.skip(prefix.len() as int));
        let o2 = route_step(o1.store, prefix, m.channel_login, ws, is_mod(m.sender_badges));
        Outcome { store: o2.store, actions: o1.actions + o2.actions }
    }
}

// ---------- the step, executably ----------

/// Step 1: the counter auto-trigger.
fn handle_trigger(data: &mut Store, channel_login: &String, text: &String) -> (acts: Vec<Action>)
    requires
        wf_store(old(data)@),
    ensures
        wf_store(final(data)@),
        final(data)@ == trigger_step(old(data)@, channel_login@, text@).store,
        acts.deep_view() == trigger_step(old(data)@, channel_login@, text@).actions,
{
    let t = trim(text.as_str());
    let mut acts: Vec<Action> = Vec::new();
    let cur: Option<i32> = match find_channel(data, channel_login) {
        Some(ch) => {
            proof {
                assert(0 <= chan_idx(data@.channels, channel_login@) < data@.channels.len());
                assert(wf_channel(chan_of(data@, channel_login@)));
            }
            match find_counter(ch, &t) {
                Some(c) => Some(c.count),
                None => None,
            }
        },
        None => None,
    };
    match cur {
        Some(count) => {
            if count < i32::MAX {
                let newc = count + 1;
                let r = edit_counter(channel_login, &t, data, newc);
                match r {
                    Ok(()) => {
                        acts.push(Action::Persist);
                        let mut line = i32_to_string(newc);
                        proof {
                            reveal_strlit(" ");
                            assert(" "@ =~= seq![' ']);
                        }
                        line.append(" ");
                        line.append(t.as_str());
                        acts.push(Action::Say { channel: channel_login.clone(), text: line });
                        proof {
                            assert(acts.deep_view() =~= trigger_step(
                                old(data)@,
                                channel_login@,
                                text@,
                            ).actions);
                        }
                    },
                    Err(_) => {
                        proof {
                            assert(false);
                        }
                    },
                }
            } else {
                proof {
                    assert(acts.deep_view() =~= Seq::<ActionV>::empty());
                }
            }
        },
        None => {
            proof {
                assert(acts.deep_view() =~= Seq::<ActionV>::empty());
            }
        },
    }
    acts
}

/// The `counter` verb, once the moderator gate has passed.
fn route_counter(data: &mut Store, channel_login: &String, words: &Vec<String>) -> (acts: Vec<
    Action,
>)
    requires
        wf_store(old(data)@),
        words.deep_view().len() >= 2,
    ensures
        wf_store(final(data)@),
        final(data)@ == counter_route(old(data)@, channel_login@, words.deep_view()).store,
        acts.deep_view() == counter_route(old(data)@, channel_login@, words.deep_view()).actions,
{
    let mut acts: Vec<Action> = Vec::new();
    let sub = lowercase(words[1].as_str());
    if str_eq(sub.as_str(), "add") {
        if words.len() < 3 {
            acts.push(Action::Reply { text: String::from_str("1 more argument needed") });
            proof {
                assert(acts.deep_view() =~= seq![
                    ActionV::Reply { text: "1 more argument needed"@ },
                ]);
            }
        } else {
            let name = &words[2];
            match add_counter(channel_login, name, data) {
                Ok(()) => {
                    acts.push(Action::Persist);
                    let mut line = String::from_str("Successfully added ");
                    line.append(name.as_str());
                    line.append(" counter");
                    acts.push(Action::Reply { text: line });
                    proof {
                        assert(acts.deep_view() =~= counter_route(
                            old(data)@,
                            channel_login@,
                            words.deep_view(),
                        ).actions);
                    }
                },
                Err(e) => {
                    let mut line = String::from_str("Couldn't create ");
                    line.append(name.as_str());
                    line.append(" counter. ");
                    let m = e.message(channel_login, name);
                    line.append(m.as_str());
                    acts.push(Action::Reply { text: line });
                    proof {
                        assert(acts.deep_view() =~= counter_route(
                            old(data)@,
                            channel_login@,
                            words.deep_view(),
                        ).actions);
                    }
                },
            }
        }
    } else if str_eq(sub.as_str(), "remove") {
        if words.len() < 3 {
            acts.push(Action::Reply { text: String::from_str("1 more argument needed") });
            proof {
                assert(acts.deep_view() =~= seq![
                    ActionV::Reply { text: "1 more argument needed"@ },
                ]);
            }
        } else {
            let name = &words[2];
            match remove_counter(channel_login, name, data) {
                Ok(()) => {
                    acts.push(Action::Persist);
                    let mut line = String::from_str("Successfully removed ");
                    line.append(name.as_str());
                    line.append(" counter");
                    acts.push(Action::Reply { text: line });
                    proof {
                        assert(acts.deep_view() =~= counter_route(
                            old(data)@,
                            channel_login@,
                            words.deep_view(),
                        ).actions);
                    }
                },
                Err(e) => {
                    let mut line = String::from_str("Couldn't remove ");
                    line.append(name.as_str());
                    line.append(" counter. ");
                    let m = e.message(channel_login, name);
                    line.append(m.as_str());
                    acts.push(Action::Reply { text: line });
                    proof {
                        assert(acts.deep_view() =~= counter_route(
                            old(data)@,
                            channel_login@,
                            words.deep_view(),
                        ).actions);
                    }
                },
            }
        }
    } else if str_eq(sub.as_str(), "edit") {
        if words.len() < 3 {
            acts.push(Action::Reply { text: String::from_str("2 more arguments needed") });
            proof {
                assert(acts.deep_view() =~= seq![
                    ActionV::Reply { text: "2 more arguments needed"@ },
                ]);
            }
        } else if words.len() < 4 {
            acts.push(Action::Reply { text: String::from_str("1 more arguments needed") });
            proof {
                assert(acts.deep_view() =~= seq![
                    ActionV::Reply { text: "1 more arguments needed"@ },
                ]);
            }
        } else {
            let name = &words[2];
            match parse_i32(words[3].as_str()) {
                None => {
                    let mut line = words[3].clone();
                    line.append(" is not a number");
                    acts.push(Action::Reply { text: line });
                    proof {
                        assert(acts.deep_view() =~= seq![
                            ActionV::Reply {
                                text: words.deep_view()[3] + " is not a number"@,
                            },
                        ]);
                    }
                },
                Some(v) => {
                    match edit_counter(channel_login, name, data, v) {
                        Ok(()) => {
                            acts.push(Action::Persist);
                            let mut line = String::from_str("Successfully set ");
                            line.append(name.as_str());
                            line.append(" counter to ");
                            let rendered = i32_to_string(v);
                            line.append(rendered.as_str());
                            acts.push(Action::Reply { text: line });
                            proof {
                                assert(acts.deep_view() =~= counter_route(
                                    old(data)@,
                                    channel_login@,
                                    words.deep_view(),
                                ).actions);
                            }
                        },
                        Err(e) => {
                            let mut line = String::from_str("Couldn't edit ");
                            line.append(name.as_str());
                            line.append(" counter. ");
                            let m = e.message(channel_login, name);
                            line.append(m.as_str());
                            acts.push(Action::Reply { text: line });
                            proof {
                                assert(acts.deep_view() =~= counter_route(
                                    old(data)@,
                                    channel_login@,
                                    words.deep_view(),
                                ).actions);
                            }
                        },
                    }
                },
            }
        }
    }
    acts
}

/// The `command` verb, once `list` and the moderator gate are out of the
/// way.
fn route_command(data: &mut Store, channel_login: &String, words: &Vec<String>) -> (acts: Vec<
    Action,
>)
    requires
        wf_store(old(data)@),
        words.deep_view().len() >= 2,
    ensures
        wf_store(final(data)@),
        final(data)@ == command_route(old(data)@, channel_login@, words.deep_view()).store,
        acts.deep_view() == command_route(old(data)@, channel_login@, words.deep_view()).actions,
{
    let mut acts: Vec<Action> = Vec::new();
    let sub = lowercase(words[1].as_str());
    if str_eq(sub.as_str(), "add") {
        if words.len() < 3 {
            acts.push(Action::Reply { text: String::from_str("2 more arguments needed") });
            proof {
                assert(acts.deep_view() =~= seq![
                    ActionV::Reply { text: "2 more arguments needed"@ },
                ]);
            }
        } else if words.len() < 4 {
            acts.push(Action::Reply { text: String::from_str("1 more argument needed") });
            proof {
                assert(acts.deep_view() =~= seq![
                    ActionV::Reply { text: "1 more argument needed"@ },
                ]);
            }
        } else {
            let name = lowercase(words[2].as_str());
            let answer = join_tokens(words, 3, " ");
            match add_command(channel_login, &name, &answer, data) {
                Ok(()) => {
                    acts.push(Action::Persist);
                    let mut line = String::from_str("Successfully added ");
                    line.append(name.as_str());
                    line.append(" command");
                    acts.push(Action::Reply { text: line });
                    proof {
                        assert(acts.deep_view() =~= command_route(
                            old(data)@,
                            channel_login@,
                            words.deep_view(),
                        ).actions);
                    }
                },
                Err(e) => {
                    let mut line = String::from_str("Couldn't create ");
                    line.append(name.as_str());
                    line.append(" command. ");
                    let m = e.message(channel_login, &name);
                    line.append(m.as_str());
                    acts.push(Action::Reply { text: line });
                    proof {
                        assert(acts.deep_view() =~= command_route(
                            old(data)@,
                            channel_login@,
                            words.deep_view(),
                        ).actions);
                    }
                },
            }
        }
    } else if str_eq(sub.as_str(), "remove") {
        if words.len() < 3 {
            acts.push(Action::Reply { text: String::from_str("1 more argument needed") });
            proof {
                assert(acts.deep_view() =~= seq![
                    ActionV::Reply { text: "1 more argument needed"@ },
                ]);
            }
        } else {
            let name = lowercase(words[2].as_str());
            match remove_command(channel_login, &name, data) {
                Ok(()) => {
                    acts.push(Action::Persist);
                    let mut line = String::from_str("Successfully removed ");
                    line.append(name.as_str());
                    line.append(" command");
                    acts.push(Action::Reply { text: line });
                    proof {
                        assert(acts.deep_view() =~= command_route(
                            old(data)@,
                            channel_login@,
                            words.deep_view(),
                        ).actions);
                    }
                },
                Err(e) => {
                    let mut line = String::from_str("Couldn't remove ");
                    line.append(name.as_str());
                    line.append(" command. ");
                    let m = e.message(channel_login, &name);
                    line.append(m.as_str());
                    acts.push(Action::Reply { text: line });
                    proof {
                        assert(acts.deep_view() =~= command_route(
                            old(data)@,
                            channel_login@,
                            words.deep_view(),
                        ).actions);
                    }
                },
            }
        }
    } else if str_eq(sub.as_str(), "edit") {
        if words.len() < 3 {
            acts.push(Action::Reply { text: String::from_str("2 more arguments needed") });
            proof {
                assert(acts.deep_view() =~= seq![
                    ActionV::Reply { text: "2 more arguments needed"@ },
                ]);
            }
        } else if words.len() < 4 {
            acts.push(Action::Reply { text: String::from_str("1 more argument needed") });
            proof {
                assert(acts.deep_view() =~= seq![
                    ActionV::Reply { text: "1 more argument needed"@ },
                ]);
            }
        } else {
            let name = lowercase(words[2].as_str());
            let answer = join_tokens(words, 3, " ");
            match edit_command(channel_login, &name, &answer, data) {
                Ok(()) => {
                    acts.push(Action::Persist);
                    let mut line = String::from_str("Successfully edited ");
                    line.append(name.as_str());
                    line.append(" command");
                    acts.push(Action::Reply { text: line });
                    proof {
                        assert(acts.deep_view() =~= command_route(
                            old(data)@,
                            channel_login@,
                            words.deep_view(),
                        ).actions);
                    }
                },
                Err(e) => {
                    let mut line = String::from_str("Couldn't edit ");
                    line.append(name.as_str());
                    line.append(" command. ");
                    let m = e.message(channel_login, &name);
                    line.append(m.as_str());
                    acts.push(Action::Reply { text: line });
                    proof {
                        assert(acts.deep_view() =~= command_route(
                            old(data)@,
                            channel_login@,
                            words.deep_view(),
                        ).actions);
                    }
                },
            }
        }
    }
    acts
}

/// The reply of `command list` for a known channel.
fn build_list_text(channel: &crate::store::Channel, prefix: &String) -> (r: String)
    ensures
        r@ == list_text(channel@.commands, prefix@),
{
    let n = channel.commands.len();
    let mut pieces: Vec<String> = Vec::new();
    let mut i: usize = 0;
    while i < n
        invariant
            n == channel.commands@.len(),
            i <= n,
            pieces.deep_view() =~= channel@.commands.take(i as int).map_values(
                |c: CommandV| prefix@ + c.name,
            ),
        decreases n - i,
    {
        let ghost pre = pieces.deep_view();
        let mut p = prefix.clone();
        p.append(channel.commands[i].name.as_str());
        pieces.push(p);
        proof {
            assert(pieces.deep_view() =~= pre.push(prefix@ + channel@.commands[i as int].name));
            assert(pieces.deep_view() =~= channel@.commands.take(i + 1).map_values(
                |c: CommandV| prefix@ + c.name,
            ));
        }
        i += 1;
    }
    proof {
        assert(channel@.commands.take(n as int) =~= channel@.commands);
        assert(pieces.deep_view().skip(0) =~= pieces.deep_view());
    }
    join_tokens(&pieces, 0, " | ")
}

/// Steps 3 to 5: the verb routing.
fn route(
    data: &mut Store,
    prefix: &String,
    channel_login: &String,
    words: &Vec<String>,
    moder: bool,
) -> (acts: Vec<Action>)
    requires
        wf_store(old(data)@),
    ensures
        wf_store(final(data)@),
        final(data)@ == route_step(
            old(data)@,
            prefix@,
            channel_login@,
            words.deep_view(),
            moder,
        ).store,
        acts.deep_view() == route_step(
            old(data)@,
            prefix@,
            channel_login@,
            words.deep_view(),
            moder,
        ).actions,
{
    let mut acts: Vec<Action> = Vec::new();
    if words.len() == 0 {
        proof {
            assert(acts.deep_view() =~= Seq::<ActionV>::empty());
        }
        return acts;
    }
    let verb = lowercase(words[0].as_str());
    if str_eq(verb.as_str(), "ping") {
        acts.push(Action::Reply { text: String::from_str("Pong!") });
        proof {
            assert(acts.deep_view() =~= seq![ActionV::Reply { text: "Pong!"@ }]);
        }
        acts
    } else if str_eq(verb.as_str(), "say") {
        if !moder {
            acts.push(
                Action::Reply { text: String::from_str("Only mods can use this command") },
            );
            proof {
                assert(acts.deep_view() =~= seq![
                    ActionV::Reply { text: "Only mods can use this command"@ },
                ]);
            }
        } else if words.len() == 1 {
            acts.push(Action::Reply { text: String::from_str("Say what?") });
            proof {
                assert(acts.deep_view() =~= seq![ActionV::Reply { text: "Say what?"@ }]);
            }
        } else {
            let line = join_tokens(words, 1, " ");
            acts.push(Action::Say { channel: channel_login.clone(), text: line });
            proof {
                assert(acts.deep_view() =~= seq![
                    ActionV::Say {
                        channel: channel_login@,
                        text: join_with(words.deep_view().skip(1), " "@),
                    },
                ]);
            }
        }
        acts
    } else if str_eq(verb.as_str(), "counter") {
        if !moder {
            acts.push(
                Action::Reply { text: String::from_str("Only mods can use this command") },
            );
            proof {
                assert(acts.deep_view() =~= seq![
                    ActionV::Reply { text: "Only mods can use this command"@ },
                ]);
            }
            acts
        } else if words.len() == 1 {
            proof {
                assert(acts.deep_view() =~= Seq::<ActionV>::empty());
            }
            acts
        } else {
            route_counter(data, channel_login, words)
        }
    } else if str_eq(verb.as_str(), "command") {
        let sub_is_list = if words.len() >= 2 {
            let sub = lowercase(words[1].as_str());
            str_eq(sub.as_str(), "list")
        } else {
            false
        };
        if sub_is_list {
            match find_channel(data, channel_login) {
                Some(ch) => {
                    let line = build_list_text(ch, prefix);
                    acts.push(Action::Reply { text: line });
                    proof {
                        assert(acts.deep_view() =~= seq![
                            ActionV::Reply {
                                text: list_text(
                                    chan_of(old(data)@, channel_login@).commands,
                                    prefix@,
                                ),
                            },
                        ]);
                    }
                },
                None => {
                    proof {
                        assert(acts.deep_view() =~= Seq::<ActionV>::empty());
                    }
                },
            }
            acts
        } else if !moder {
            acts.push(
                Action::Reply { text: String::from_str("Only mods can use this command") },
            );
            proof {
                assert(acts.deep_view() =~= seq![
                    ActionV::Reply { text: "Only mods can use this command"@ },
                ]);
            }
            acts
        } else if words.len() == 1 {
            proof {
                assert(acts.deep_view() =~= Seq::<ActionV>::empty());
            }
            acts
        } else {
            route_command(data, channel_login, words)
        }
    } else {
        match find_channel(data, channel_login) {
            Some(ch) => {
                proof {
                    assert(0 <= chan_idx(data@.channels, channel_login@) < data@.channels.len());
                    assert(wf_channel(chan_of(data@, channel_login@)));
                }
                match find_command(ch, &verb) {
                    Some(c) => {
                        acts.push(
                            Action::Say { channel: channel_login.clone(), text: c.answer.clone() },
                        );
                        proof {
                            assert(acts.deep_view() =~= seq![
                                ActionV::Say {
                                    channel: channel_login@,
                                    text: cmd_of(
                                        chan_of(old(data)@, channel_login@).commands,
                                        lower_of(words.deep_view()[0]),
                                    ).answer,
                                },
                            ]);
                        }
                    },
                    None => {
                        proof {
                            assert(acts.deep_view() =~= Seq::<ActionV>::empty());
                        }
                    },
                }
            },
            None => {
                proof {
                    assert(acts.deep_view() =~= Seq::<ActionV>::empty());
                }
            },
        }
        acts
    }
}

/// Handle one incoming message: run the counter auto-trigger, then route
/// the message as a command if it carries the prefix and does not come
/// from the bot itself. The returned actions are to be performed in
/// order.
pub fn handle(data: &mut Store, prefix: &String, bot_login: &String, msg: &IncomingMessage) -> (acts:
    Vec<Action>)
    requires
        wf_store(old(data)@),
    ensures
        wf_store(final(data)@),
        final(data)@ == dispatch_step(old(data)@, prefix@, bot_login@, msg@).store,
        acts.deep_view() == dispatch_step(old(data)@, prefix@, bot_login@, msg@).actions,
{
    let mut acts = handle_trigger(data, &msg.channel_login, &msg.message_text);
    if !str_starts_with(msg.message_text.as_str(), prefix.as_str()) {
        return acts;
    }
    let lsender = lowercase(msg.sender_login.as_str());
    let lbot = lowercase(bot_login.as_str());
    if str_eq(lsender.as_str(), lbot.as_str()) {
        return acts;
    }
    let plen = prefix.as_str().unicode_len();
    let mlen = msg.message_text.as_str().unicode_len();
    let rest = String::from_str(msg.message_text.as_str().substring_char(plen, mlen));
    proof {
        assert(msg.message_text@.subrange(plen as int, mlen as int) =~= msg.message_text@.skip(
            plen as int,
        ));
    }
    let words = tokenize(rest.as_str());
    let moder = sender_is_moderator(&msg.sender_badges);
    let ghost o1 = trigger_step(old(data)@, msg@.channel_login, msg@.message_text);
    let mut acts2 = route(data, prefix, &msg.channel_login, &words, moder);
    let ghost o2 = route_step(
        o1.store,
        prefix@,
        msg@.channel_login,
        words.deep_view(),
        moder,
    );
    acts.append(&mut acts2);
    proof {
        assert(acts.deep_view() =~= o1.actions + o2.actions);
    }
    acts
}

} // verus!
