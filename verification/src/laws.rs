//! The library's laws: properties of the store transitions and of the
//! dispatcher, stated over the same spec functions the executable
//! contracts use, and proved once and for all.
//!
//! A failed transition returns `Err` and, by the contracts in
//! [`crate::store`], the executable operations leave the store bit for bit
//! unchanged in that case; likewise the dispatcher emits
//! [`crate::dispatch::ActionV::Persist`] only right after a successful
//! mutation, so a failed operation never touches storage.

use vstd::prelude::*;

use crate::dispatch::{dispatch_step, ActionV, MsgV};
use crate::store::{
    add_channel_s,
    add_command_s,
    chan_idx,
    chan_of,
    cmd_idx,
    cmd_of,
    ctr_of,
    edit_command_s,
    edit_counter_s,
    lemma_wf_store_update,
    has_chan,
    has_cmd,
    has_ctr,
    remove_command_s,
    remove_counter_s,
    wf_channel,
    wf_store,
    ChannelV,
    CommandV,
    StoreError,
    StoreV,
};
use crate::text::{lower_of, tokens_of, trim_of};
use crate::num::dec_int;

verus! {

/// Adding a channel a second time fails with `ChannelAlreadyExists`; by
/// the operation contracts, the store is unchanged after the failed call.
pub proof fn lemma_add_channel_twice(s: StoreV, name: Seq<char>)
    ensures
        (match add_channel_s(s, name) {
            Ok(s2) => add_channel_s(s2, name) == Err::<StoreV, StoreError>(
                StoreError::ChannelAlreadyExists,
            ),
            Err(e) => e == StoreError::ChannelAlreadyExists,
        }),
{
    if add_channel_s(s, name) is Ok {
        let s2 = add_channel_s(s, name)->Ok_0;
        assert(s2.channels[s.channels.len() as int].name == name);
        assert(has_chan(s2.channels, name));
    }
}

/// Adding a command under a name already taken in the channel fails with
/// `CommandAlreadyExists`, and the answer stored by the first addition is
/// still in place.
pub proof fn lemma_add_command_twice(
    s: StoreV,
    chan: Seq<char>,
    name: Seq<char>,
    a1: Seq<char>,
    a2: Seq<char>,
)
    requires
        wf_store(s),
    ensures
        (match add_command_s(s, chan, name, a1) {
            Ok(s2) => add_command_s(s2, chan, name, a2) == Err::<StoreV, StoreError>(
                StoreError::CommandAlreadyExists,
            ) && has_chan(s2.channels, chan) && has_cmd(chan_of(s2, chan).commands, name)
                && cmd_of(chan_of(s2, chan).commands, name).answer == a1,
            Err(_) => true,
        }),
{
    if add_command_s(s, chan, name, a1) is Ok {
        let s2 = add_command_s(s, chan, name, a1)->Ok_0;
        let k = chan_idx(s.channels, chan);
        let ch = s.channels[k];
        let ch2 = ChannelV {
            name: ch.name,
            commands: ch.commands.push(CommandV { name: name, answer: a1 }),
            counters: ch.counters,
        };
        assert(s2.channels == s.channels.update(k, ch2));
        assert(s2.channels[k].name == chan);
        assert(has_chan(s2.channels, chan));
        assert(wf_channel(ch));
        assert forall|i: int, j: int| 0 <= i < j < ch2.commands.len() implies (
        #[trigger] ch2.commands[i]).name != (#[trigger] ch2.commands[j]).name by {
            if j < ch.commands.len() {
                assert(ch2.commands[i] == ch.commands[i]);
                assert(ch2.commands[j] == ch.commands[j]);
            } else {
                assert(ch2.commands[i] == ch.commands[i]);
                assert(ch2.commands[j].name == name);
            }
        }
        assert(wf_channel(ch2));
        lemma_wf_store_update(s, k, ch2);
        let k2 = chan_idx(s2.channels, chan);
        assert(0 <= k2 < s2.channels.len() && s2.channels[k2].name == chan);
        assert(k2 == k);
        let n = ch.commands.len() as int;
        assert(ch2.commands[n].name == name);
        assert(has_cmd(ch2.commands, name));
        let ci = cmd_idx(ch2.commands, name);
        assert(0 <= ci < ch2.commands.len() && ch2.commands[ci].name == name);
        if ci != n {
            assert(ch.commands[ci].name == name);
            assert(has_cmd(ch.commands, name));
        }
        assert(cmd_of(ch2.commands, name).answer == a1);
    }
}

/// Removing or editing a command or a counter that is not there fails with
/// the matching `NotFound` error; by the operation contracts such a call
/// leaves the store unchanged, and the dispatcher persists nothing for it.
pub proof fn lemma_missing_entity_fails(
    s: StoreV,
    chan: Seq<char>,
    name: Seq<char>,
    v: int,
    a: Seq<char>,
)
    ensures
        !has_chan(s.channels, chan) ==> {
            &&& remove_command_s(s, chan, name) == Err::<StoreV, StoreError>(
                StoreError::ChannelNotFound,
            )
            &&& remove_counter_s(s, chan, name) == Err::<StoreV, StoreError>(
                StoreError::ChannelNotFound,
            )
            &&& edit_command_s(s, chan, name, a) == Err::<StoreV, StoreError>(
                StoreError::ChannelNotFound,
            )
            &&& edit_counter_s(s, chan, name, v) == Err::<StoreV, StoreError>(
                StoreError::ChannelNotFound,
            )
        },
        has_chan(s.channels, chan) && !has_cmd(chan_of(s, chan).commands, name) ==> {
            &&& remove_command_s(s, chan, name) == Err::<StoreV, StoreError>(
                StoreError::CommandNotFound,
            )
            &&& edit_command_s(s, chan, name, a) == Err::<StoreV, StoreError>(
                StoreError::CommandNotFound,
            )
        },
        has_chan(s.channels, chan) && !has_ctr(chan_of(s, chan).counters, name) ==> {
            &&& remove_counter_s(s, chan, name) == Err::<StoreV, StoreError>(
                StoreError::CounterNotFound,
            )
            &&& edit_counter_s(s, chan, name, v) == Err::<StoreV, StoreError>(
                StoreError::CounterNotFound,
            )
        },
{
}


/// Round trip: printing a store and parsing the document back gives a
/// structurally equal store, field for field and order-preserving.
pub proof fn lemma_json_round_trip(s: StoreV)
    requires
        wf_store(s),
    ensures
        crate::json::parse_store_s(crate::json::ser_store(s)) == Some(s),
{
    crate::json::lemma_store_rt(s);
}

/// A message whose trimmed text names a counter of a known channel, and
/// which does not carry the command prefix, increments exactly that
/// counter by one and broadcasts `"<n+1> <name>"` right after persisting.
pub proof fn lemma_counter_trigger(s: StoreV, prefix: Seq<char>, bot: Seq<char>, m: MsgV)
    requires
        wf_store(s),
        !prefix.is_prefix_of(m.message_text),
        has_chan(s.channels, m.channel_login),
        has_ctr(chan_of(s, m.channel_login).counters, trim_of(m.message_text)),
        ctr_of(chan_of(s, m.channel_login).counters, trim_of(m.message_text)).count < i32::MAX,
    ensures
        ({
            let t = trim_of(m.message_text);
            let n0 = ctr_of(chan_of(s, m.channel_login).counters, t).count;
            let o = dispatch_step(s, prefix, bot, m);
            &&& o.actions =~= seq![
                ActionV::Persist,
                ActionV::Say { channel: m.channel_login, text: dec_int(n0 + 1) + seq![' '] + t },
            ]
            &&& has_chan(o.store.channels, m.channel_login)
            &&& has_ctr(chan_of(o.store, m.channel_login).counters, t)
            &&& ctr_of(chan_of(o.store, m.channel_login).counters, t).count == n0 + 1
        }),
{
    let t = trim_of(m.message_text);
    let chan = m.channel_login;
    let k = chan_idx(s.channels, chan);
    let ch = s.channels[k];
    let ci = crate::store::ctr_idx(ch.counters, t);
    let n0 = ch.counters[ci].count;
    let c2 = crate::store::CounterV { name: ch.counters[ci].name, count: n0 + 1 };
    let ch2 = ChannelV {
        name: ch.name,
        commands: ch.commands,
        counters: ch.counters.update(ci, c2),
    };
    let s2 = edit_counter_s(s, chan, t, n0 + 1)->Ok_0;
    assert(s2.channels == s.channels.update(k, ch2));
    assert(s2.channels[k].name == chan);
    assert(has_chan(s2.channels, chan));
    assert forall|i: int, j: int| 0 <= i < j < ch2.counters.len() implies (
    #[trigger] ch2.counters[i]).name != (#[trigger] ch2.counters[j]).name by {
        assert(ch2.counters[i].name == ch.counters[i].name);
        assert(ch2.counters[j].name == ch.counters[j].name);
    }
    assert forall|i: int| 0 <= i < ch2.counters.len() implies i32::MIN <= (
    #[trigger] ch2.counters[i]).count <= i32::MAX by {
        if i != ci {
            assert(ch2.counters[i] == ch.counters[i]);
        }
    }
    assert(wf_channel(ch2));
    lemma_wf_store_update(s, k, ch2);
    let k2 = chan_idx(s2.channels, chan);
    assert(0 <= k2 < s2.channels.len() && s2.channels[k2].name == chan);
    assert(k2 == k);
    assert(ch2.counters[ci].name == t);
    assert(has_ctr(ch2.counters, t));
    let ci2 = crate::store::ctr_idx(ch2.counters, t);
    assert(0 <= ci2 < ch2.counters.len() && ch2.counters[ci2].name == t);
    if ci2 != ci {
        assert(ch2.counters[ci2].name == ch.counters[ci2].name);
    }
    assert(ci2 == ci);
}

/// A message that is not a counter trigger and does not carry the prefix
/// does nothing at all.
pub proof fn lemma_counter_trigger_absent(s: StoreV, prefix: Seq<char>, bot: Seq<char>, m: MsgV)
    requires
        !prefix.is_prefix_of(m.message_text),
        !(has_chan(s.channels, m.channel_login) && has_ctr(
            chan_of(s, m.channel_login).counters,
            trim_of(m.message_text),
        )),
    ensures
        dispatch_step(s, prefix, bot, m).store == s,
        dispatch_step(s, prefix, bot, m).actions == Seq::<ActionV>::empty(),
{
}

/// The fallback: a prefixed message whose single token is no built-in verb
/// is looked up among the channel's commands; a hit broadcasts the stored
/// answer verbatim, a miss does nothing — and the store never changes.
pub proof fn lemma_fallback(s: StoreV, prefix: Seq<char>, bot: Seq<char>, m: MsgV, v: Seq<char>)
    requires
        wf_store(s),
        prefix.is_prefix_of(m.message_text),
        lower_of(m.sender_login) != lower_of(bot),
        tokens_of(m.message_text.skip(prefix.len() as int)) == seq![v],
        lower_of(v) != "ping"@,
        lower_of(v) != "say"@,
        lower_of(v) != "counter"@,
        lower_of(v) != "command"@,
        !(has_chan(s.channels, m.channel_login) && has_ctr(
            chan_of(s, m.channel_login).counters,
            trim_of(m.message_text),
        )),
    ensures
        dispatch_step(s, prefix, bot, m).store == s,
        has_chan(s.channels, m.channel_login) && has_cmd(
            chan_of(s, m.channel_login).commands,
            lower_of(v),
        ) ==> dispatch_step(s, prefix, bot, m).actions =~= seq![
            ActionV::Say {
                channel: m.channel_login,
                text: cmd_of(chan_of(s, m.channel_login).commands, lower_of(v)).answer,
            },
        ],
        !(has_chan(s.channels, m.channel_login) && has_cmd(
            chan_of(s, m.channel_login).commands,
            lower_of(v),
        )) ==> dispatch_step(s, prefix, bot, m).actions == Seq::<ActionV>::empty(),
{
    let ws = tokens_of(m.message_text.skip(prefix.len() as int));
    assert(ws.len() == 1);
    assert(ws[0] == v);
    let o = dispatch_step(s, prefix, bot, m);
    assert(o.actions =~= Seq::<ActionV>::empty() + crate::dispatch::route_step(
        s,
        prefix,
        m.channel_login,
        ws,
        crate::dispatch::is_mod(m.sender_badges),
    ).actions);
}

} // verus!
