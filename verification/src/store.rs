//! The durable model of the bot: channels, their custom text commands and
//! their numeric counters, together with every mutation the bot performs.
//!
//! Channel names are unique in a store; command names and counter names are
//! unique within their channel (commands and counters are independent
//! namespaces). Every mutation either succeeds and is described exactly by
//! its spec-level transition, or fails with a typed error and leaves the
//! store untouched.

use vstd::prelude::*;

verus! {

/// A named integer persisted per channel.
pub struct Counter {
    pub name: String,
    pub count: i32,
}

/// A named, stored text template echoed verbatim when invoked.
pub struct Command {
    pub name: String,
    pub answer: String,
}

/// A chat room the bot has joined: the unit of isolation for commands and
/// counters.
pub struct Channel {
    pub name: String,
    pub commands: Vec<Command>,
    pub counters: Vec<Counter>,
}

/// The whole persisted tree: an ordered sequence of channels.
pub struct Store {
    pub channels: Vec<Channel>,
}

/// Mathematical image of a `Counter`.
#[verifier::ext_equal]
pub struct CounterV {
    pub name: Seq<char>,
    pub count: int,
}

/// Mathematical image of a `Command`.
#[verifier::ext_equal]
pub struct CommandV {
    pub name: Seq<char>,
    pub answer: Seq<char>,
}

/// Mathematical image of a `Channel`.
#[verifier::ext_equal]
pub struct ChannelV {
    pub name: Seq<char>,
    pub commands: Seq<CommandV>,
    pub counters: Seq<CounterV>,
}

/// Mathematical image of a `Store`.
#[verifier::ext_equal]
pub struct StoreV {
    pub channels: Seq<ChannelV>,
}

impl View for Counter {
    type V = CounterV;

    open spec fn view(&self) -> CounterV {
        CounterV { name: self.name@, count: self.count as int }
    }
}

impl DeepView for Counter {
    type V = CounterV;

    open spec fn deep_view(&self) -> CounterV {
        self@
    }
}

impl View for Command {
    type V = CommandV;

    open spec fn view(&self) -> CommandV {
        CommandV { name: self.name@, answer: self.answer@ }
    }
}

impl DeepView for Command {
    type V = CommandV;

    open spec fn deep_view(&self) -> CommandV {
        self@
    }
}

impl View for Channel {
    type V = ChannelV;

    open spec fn view(&self) -> ChannelV {
        ChannelV {
            name: self.name@,
            commands: self.commands.deep_view(),
            counters: self.counters.deep_view(),
        }
    }
}

impl DeepView for Channel {
    type V = ChannelV;

    open spec fn deep_view(&self) -> ChannelV {
        self@
    }
}

impl View for Store {
    type V = StoreV;

    open spec fn view(&self) -> StoreV {
        StoreV { channels: self.channels.deep_view() }
    }
}

impl DeepView for Store {
    type V = StoreV;

    open spec fn deep_view(&self) -> StoreV {
        self@
    }
}

// ---------- lookups over the model ----------

pub open spec fn has_chan(chs: Seq<ChannelV>, name: Seq<char>) -> bool {
    exists|i: int| 0 <= i < chs.len() && chs[i].name == name
}

/// The index of the channel called `name`; meaningful under uniqueness.
pub open spec fn chan_idx(chs: Seq<ChannelV>, name: Seq<char>) -> int {
    choose|i: int| 0 <= i < chs.len() && chs[i].name == name
}

pub open spec fn chan_of(s: StoreV, name: Seq<char>) -> ChannelV {
    s.channels[chan_idx(s.channels, name)]
}

pub open spec fn has_cmd(cmds: Seq<CommandV>, name: Seq<char>) -> bool {
    exists|i: int| 0 <= i < cmds.len() && cmds[i].name == name
}

pub open spec fn cmd_idx(cmds: Seq<CommandV>, name: Seq<char>) -> int {
    choose|i: int| 0 <= i < cmds.len() && cmds[i].name == name
}

pub open spec fn cmd_of(cmds: Seq<CommandV>, name: Seq<char>) -> CommandV {
    cmds[cmd_idx(cmds, name)]
}

pub open spec fn has_ctr(ctrs: Seq<CounterV>, name: Seq<char>) -> bool {
    exists|i: int| 0 <= i < ctrs.len() && ctrs[i].name == name
}

pub open spec fn ctr_idx(ctrs: Seq<CounterV>, name: Seq<char>) -> int {
    choose|i: int| 0 <= i < ctrs.len() && ctrs[i].name == name
}

pub open spec fn ctr_of(ctrs: Seq<CounterV>, name: Seq<char>) -> CounterV {
    ctrs[ctr_idx(ctrs, name)]
}

// ---------- well-formedness ----------

pub open spec fn uniq_channel_names(chs: Seq<ChannelV>) -> bool {
    forall|i: int, j: int| 0 <= i < j < chs.len() ==> (#[trigger] chs[i]).name != (
    #[trigger] chs[j]).name
}

pub open spec fn uniq_cmd_names(cmds: Seq<CommandV>) -> bool {
    forall|i: int, j: int| 0 <= i < j < cmds.len() ==> (#[trigger] cmds[i]).name != (
    #[trigger] cmds[j]).name
}

pub open spec fn uniq_ctr_names(ctrs: Seq<CounterV>) -> bool {
    forall|i: int, j: int| 0 <= i < j < ctrs.len() ==> (#[trigger] ctrs[i]).name != (
    #[trigger] ctrs[j]).name
}

pub open spec fn ctrs_in_range(ctrs: Seq<CounterV>) -> bool {
    forall|i: int| 0 <= i < ctrs.len() ==> i32::MIN <= (#[trigger] ctrs[i]).count <= i32::MAX
}

pub open spec fn wf_channel(ch: ChannelV) -> bool {
    &&& uniq_cmd_names(ch.commands)
    &&& uniq_ctr_names(ch.counters)
    &&& ctrs_in_range(ch.counters)
}

/// The store's invariant: channel names unique, and each channel
/// well-formed.
pub open spec fn wf_store(s: StoreV) -> bool {
    &&& uniq_channel_names(s.channels)
    &&& forall|i: int| 0 <= i < s.channels.len() ==> wf_channel(#[trigger] s.channels[i])
}

// ---------- errors ----------

/// Everything a store mutation can fail with.
#[derive(Clone, Copy, Debug, PartialEq, Eq, Structural)]
pub enum StoreError {
    ChannelNotFound,
    ChannelAlreadyExists,
    CommandNotFound,
    CommandAlreadyExists,
    CounterNotFound,
    CounterAlreadyExists,
}

/// The human-readable failure text, over the channel name and the name of
/// the command or counter the operation was about.
pub open spec fn err_text(e: StoreError, channel: Seq<char>, entity: Seq<char>) -> Seq<char> {
    match e {
        StoreError::ChannelNotFound => "Couldn't find a channel with the name of "@ + channel,
        StoreError::ChannelAlreadyExists => "There already is a channel with the name of "@
            + channel,
        StoreError::CommandNotFound => "Couldn't find a command with the name of "@ + entity,
        StoreError::CommandAlreadyExists => "There already is a command with the name of "@
            + entity,
        StoreError::CounterNotFound => "Couldn't find a counter with the name of "@ + entity,
        StoreError::CounterAlreadyExists => "There already is a counter with the name of "@
            + entity,
    }
}

impl StoreError {
    /// Render the failure as the reply text the bot sends.
    pub fn message(&self, channel_name: &String, entity_name: &String) -> (r: String)
        ensures
            r@ == err_text(*self, channel_name@, entity_name@),
    {
        let mut s: String;
        match self {
            StoreError::ChannelNotFound => {
                s = String::from_str("Couldn't find a channel with the name of ");
                s.append(channel_name.as_str());
            },
            StoreError::ChannelAlreadyExists => {
                s = String::from_str("There already is a channel with the name of ");
                s.append(channel_name.as_str());
            },
            StoreError::CommandNotFound => {
                s = String::from_str("Couldn't find a command with the name of ");
                s.append(entity_name.as_str());
            },
            StoreError::CommandAlreadyExists => {
                s = String::from_str("There already is a command with the name of ");
                s.append(entity_name.as_str());
            },
            StoreError::CounterNotFound => {
                s = String::from_str("Couldn't find a counter with the name of ");
                s.append(entity_name.as_str());
            },
            StoreError::CounterAlreadyExists => {
                s = String::from_str("There already is a counter with the name of ");
                s.append(entity_name.as_str());
            },
        }
        s
    }
}

// ---------- spec-level transitions ----------

pub open spec fn add_channel_s(s: StoreV, name: Seq<char>) -> Result<StoreV, StoreError> {
    if has_chan(s.channels, name) {
        Err(StoreError::ChannelAlreadyExists)
    } else {
        Ok(
            StoreV {
                channels: s.channels.push(
                    ChannelV { name: name, commands: Seq::empty(), counters: Seq::empty() },
                ),
            },
        )
    }
}

pub open spec fn add_counter_s(s: StoreV, chan: Seq<char>, name: Seq<char>) -> Result<
    StoreV,
    StoreError,
> {
    if !has_chan(s.channels, chan) {
        Err(StoreError::ChannelNotFound)
    } else {
        let k = chan_idx(s.channels, chan);
        let ch = s.channels[k];
        if has_ctr(ch.counters, name) {
            Err(StoreError::CounterAlreadyExists)
        } else {
            Ok(
                StoreV {
                    channels: s.channels.update(
                        k,
                        ChannelV {
                            name: ch.name,
                            commands: ch.commands,
                            counters: ch.counters.push(CounterV { name: name, count: 0 }),
                        },
                    ),
                },
            )
        }
    }
}

pub open spec fn remove_counter_s(s: StoreV, chan: Seq<char>, name: Seq<char>) -> Result<
    StoreV,
    StoreError,
> {
    if !has_chan(s.channels, chan) {
        Err(StoreError::ChannelNotFound)
    } else {
        let k = chan_idx(s.channels, chan);
        let ch = s.channels[k];
        if !has_ctr(ch.counters, name) {
            Err(StoreError::CounterNotFound)
        } else {
            Ok(
                StoreV {
                    channels: s.channels.update(
                        k,
                        ChannelV {
                            name: ch.name,
                            commands: ch.commands,
                            counters: ch.counters.remove(ctr_idx(ch.counters, name)),
                        },
                    ),
                },
            )
        }
    }
}

pub open spec fn edit_counter_s(s: StoreV, chan: Seq<char>, name: Seq<char>, v: int) -> Result<
    StoreV,
    StoreError,
> {
    if !has_chan(s.channels, chan) {
        Err(StoreError::ChannelNotFound)
    } else {
        let k = chan_idx(s.channels, chan);
        let ch = s.channels[k];
        if !has_ctr(ch.counters, name) {
            Err(StoreError::CounterNotFound)
        } else {
            let ci = ctr_idx(ch.counters, name);
            Ok(
                StoreV {
                    channels: s.channels.update(
                        k,
                        ChannelV {
                            name: ch.name,
                            commands: ch.commands,
                            counters: ch.counters.update(
                                ci,
                                CounterV { name: ch.counters[ci].name, count: v },
                            ),
                        },
                    ),
                },
            )
        }
    }
}

pub open spec fn add_command_s(
    s: StoreV,
    chan: Seq<char>,
    name: Seq<char>,
    answer: Seq<char>,
) -> Result<StoreV, StoreError> {
    if !has_chan(s.channels, chan) {
        Err(StoreError::ChannelNotFound)
    } else {
        let k = chan_idx(s.channels, chan);
        let ch = s.channels[k];
        if has_cmd(ch.commands, name) {
            Err(StoreError::CommandAlreadyExists)
        } else {
            Ok(
                StoreV {
                    channels: s.channels.update(
                        k,
                        ChannelV {
                            name: ch.name,
                            commands: ch.commands.push(CommandV { name: name, answer: answer }),
                            counters: ch.counters,
                        },
                    ),
                },
            )
        }
    }
}

pub open spec fn remove_command_s(s: StoreV, chan: Seq<char>, name: Seq<char>) -> Result<
    StoreV,
    StoreError,
> {
    if !has_chan(s.channels, chan) {
        Err(StoreError::ChannelNotFound)
    } else {
        let k = chan_idx(s.channels, chan);
        let ch = s.channels[k];
        if !has_cmd(ch.commands, name) {
            Err(StoreError::CommandNotFound)
        } else {
            Ok(
                StoreV {
                    channels: s.channels.update(
                        k,
                        ChannelV {
                            name: ch.name,
                            commands: ch.commands.remove(cmd_idx(ch.commands, name)),
                            counters: ch.counters,
                        },
                    ),
                },
            )
        }
    }
}

pub open spec fn edit_command_s(
    s: StoreV,
    chan: Seq<char>,
    name: Seq<char>,
    answer: Seq<char>,
) -> Result<StoreV, StoreError> {
    if !has_chan(s.channels, chan) {
        Err(StoreError::ChannelNotFound)
    } else {
        let k = chan_idx(s.channels, chan);
        let ch = s.channels[k];
        if !has_cmd(ch.commands, name) {
            Err(StoreError::CommandNotFound)
        } else {
            let ci = cmd_idx(ch.commands, name);
            Ok(
                StoreV {
                    channels: s.channels.update(
                        k,
                        ChannelV {
                            name: ch.name,
                            commands: ch.commands.update(
                                ci,
                                CommandV { name: ch.commands[ci].name, answer: answer },
                            ),
                            counters: ch.counters,
                        },
                    ),
                },
            )
        }
    }
}

/// Ensuring a list of configured channels is present, in order; an already
/// present channel is deliberately left as it is.
pub open spec fn pregen_s(s: StoreV, names: Seq<Seq<char>>) -> StoreV
    decreases names.len(),
{
    if names.len() == 0 {
        s
    } else {
        let s2 = match add_channel_s(s, names[0]) {
            Ok(t) => t,
            Err(_) => s,
        };
        pregen_s(s2, names.drop_first())
    }
}

// ---------- executable lookups ----------

fn find_channel_idx(chs: &Vec<Channel>, name: &str) -> (r: Option<usize>)
    requires
        uniq_channel_names(chs.deep_view()),
    ensures
        (match r {
            Some(i) => i < chs@.len() && has_chan(chs.deep_view(), name@) && i == chan_idx(
                chs.deep_view(),
                name@,
            ),
            None => !has_chan(chs.deep_view(), name@),
        }),
{
    let n = chs.len();
    let mut i: usize = 0;
    while i < n
        invariant
            n == chs@.len(),
            i <= n,
            uniq_channel_names(chs.deep_view()),
            forall|j: int| 0 <= j < i ==> (#[trigger] chs.deep_view()[j]).name != name@,
        decreases n - i,
    {
        if crate::text::str_eq(chs[i].name.as_str(), name) {
            proof {
                assert(chs.deep_view()[i as int].name == name@);
                let j = chan_idx(chs.deep_view(), name@);
                assert(0 <= j < chs.deep_view().len() && chs.deep_view()[j].name == name@);
                assert(j == i);
            }
            return Some(i);
        }
        i += 1;
    }
    proof {
        assert(!has_chan(chs.deep_view(), name@));
    }
    None
}

fn find_command_idx(cmds: &Vec<Command>, name: &str) -> (r: Option<usize>)
    requires
        uniq_cmd_names(cmds.deep_view()),
    ensures
        (match r {
            Some(i) => i < cmds@.len() && has_cmd(cmds.deep_view(), name@) && i
                == cmd_idx(cmds.deep_view(), name@),
            None => !has_cmd(cmds.deep_view(), name@),
        }),
{
    let n = cmds.len();
    let mut i: usize = 0;
    while i < n
        invariant
            n == cmds@.len(),
            i <= n,
            uniq_cmd_names(cmds.deep_view()),
            forall|j: int| 0 <= j < i ==> (#[trigger] cmds.deep_view()[j]).name != name@,
        decreases n - i,
    {
        if crate::text::str_eq(cmds[i].name.as_str(), name) {
            proof {
                assert(cmds.deep_view()[i as int].name == name@);
                let j = cmd_idx(cmds.deep_view(), name@);
                assert(0 <= j < cmds.deep_view().len() && cmds.deep_view()[j].name == name@);
                assert(j == i);
            }
            return Some(i);
        }
        i += 1;
    }
    None
}

fn find_counter_idx(ctrs: &Vec<Counter>, name: &str) -> (r: Option<usize>)
    requires
        uniq_ctr_names(ctrs.deep_view()),
    ensures
        (match r {
            Some(i) => i < ctrs@.len() && has_ctr(ctrs.deep_view(), name@) && i
                == ctr_idx(ctrs.deep_view(), name@),
            None => !has_ctr(ctrs.deep_view(), name@),
        }),
{
    let n = ctrs.len();
    let mut i: usize = 0;
    while i < n
        invariant
            n == ctrs@.len(),
            i <= n,
            uniq_ctr_names(ctrs.deep_view()),
            forall|j: int| 0 <= j < i ==> (#[trigger] ctrs.deep_view()[j]).name != name@,
        decreases n - i,
    {
        if crate::text::str_eq(ctrs[i].name.as_str(), name) {
            proof {
                assert(ctrs.deep_view()[i as int].name == name@);
                let j = ctr_idx(ctrs.deep_view(), name@);
                assert(0 <= j < ctrs.deep_view().len() && ctrs.deep_view()[j].name == name@);
                assert(j == i);
            }
            return Some(i);
        }
        i += 1;
    }
    None
}


// ---------- well-formedness preservation helpers ----------

pub(crate) proof fn lemma_wf_store_update(s: StoreV, k: int, ch2: ChannelV)
    requires
        wf_store(s),
        0 <= k < s.channels.len(),
        ch2.name == s.channels[k].name,
        wf_channel(ch2),
    ensures
        wf_store(StoreV { channels: s.channels.update(k, ch2) }),
{
    let t = s.channels.update(k, ch2);
    assert forall|i: int, j: int| 0 <= i < j < t.len() implies (#[trigger] t[i]).name != (
    #[trigger] t[j]).name by {
        assert(t[i].name == s.channels[i].name);
        assert(t[j].name == s.channels[j].name);
    }
    assert forall|i: int| 0 <= i < t.len() implies wf_channel(#[trigger] t[i]) by {
        if i != k {
            assert(t[i] == s.channels[i]);
        }
    }
}

// ---------- executable operations ----------

/// Add a channel with no commands and no counters.
pub fn add_channel(channel_name: &String, data: &mut Store) -> (r: Result<(), StoreError>)
    requires
        wf_store(old(data)@),
    ensures
        wf_store(final(data)@),
        (match r {
            Ok(()) => add_channel_s(old(data)@, channel_name@) == Ok::<StoreV, StoreError>(final(data)@),
            Err(e) => final(data)@ == old(data)@ && add_channel_s(old(data)@, channel_name@) == Err::<
                StoreV,
                StoreError,
            >(e),
        }),
{
    let ghost s0 = data@;
    if find_channel_idx(&data.channels, channel_name.as_str()).is_some() {
        return Err(StoreError::ChannelAlreadyExists);
    }
    data.channels.push(
        Channel { name: channel_name.clone(), commands: Vec::new(), counters: Vec::new() },
    );
    proof {
        let ch2 = ChannelV {
            name: channel_name@,
            commands: Seq::empty(),
            counters: Seq::empty(),
        };
        assert(data@.channels =~~= s0.channels.push(ch2));
        assert forall|i: int, j: int| 0 <= i < j < data@.channels.len() implies (
        #[trigger] data@.channels[i]).name != (#[trigger] data@.channels[j]).name by {
            if j < s0.channels.len() {
                assert(data@.channels[i] == s0.channels[i]);
                assert(data@.channels[j] == s0.channels[j]);
            } else {
                assert(data@.channels[i] == s0.channels[i]);
                assert(data@.channels[j] == ch2);
            }
        }
        assert forall|i: int| 0 <= i < data@.channels.len() implies wf_channel(
            #[trigger] data@.channels[i],
        ) by {
            if i < s0.channels.len() {
                assert(data@.channels[i] == s0.channels[i]);
            }
        }
    }
    Ok(())
}

/// Add a counter, starting at zero, to an existing channel.
pub fn add_counter(channel_name: &String, counter_name: &String, data: &mut Store) -> (r: Result<
    (),
    StoreError,
>)
    requires
        wf_store(old(data)@),
    ensures
        wf_store(final(data)@),
        (match r {
            Ok(()) => add_counter_s(old(data)@, channel_name@, counter_name@) == Ok::<
                StoreV,
                StoreError,
            >(final(data)@),
            Err(e) => final(data)@ == old(data)@ && add_counter_s(old(data)@, channel_name@, counter_name@)
                == Err::<StoreV, StoreError>(e),
        }),
{
    let ghost s0 = data@;
    let idx = match find_channel_idx(&data.channels, channel_name.as_str()) {
        Some(i) => i,
        None => {
            return Err(StoreError::ChannelNotFound);
        },
    };
    if find_counter_idx(&data.channels[idx].counters, counter_name.as_str()).is_some() {
        return Err(StoreError::CounterAlreadyExists);
    }
    let ghost chv0 = s0.channels[idx as int];
    let ch = &mut data.channels[idx];
    ch.counters.push(Counter { name: counter_name.clone(), count: 0 });
    proof {
        let c2 = CounterV { name: counter_name@, count: 0 };
        let ch2 = ChannelV {
            name: chv0.name,
            commands: chv0.commands,
            counters: chv0.counters.push(c2),
        };
        assert(data@.channels =~~= s0.channels.update(idx as int, ch2));
        assert forall|i: int, j: int| 0 <= i < j < ch2.counters.len() implies (
        #[trigger] ch2.counters[i]).name != (#[trigger] ch2.counters[j]).name by {
            if j < chv0.counters.len() {
                assert(ch2.counters[i] == chv0.counters[i]);
                assert(ch2.counters[j] == chv0.counters[j]);
            } else {
                assert(ch2.counters[i] == chv0.counters[i]);
                assert(ch2.counters[j] == c2);
            }
        }
        assert(wf_channel(ch2));
        lemma_wf_store_update(s0, idx as int, ch2);
    }
    Ok(())
}

/// Remove a counter from a channel.
pub fn remove_counter(channel_name: &String, counter_name: &String, data: &mut Store) -> (r:
    Result<(), StoreError>)
    requires
        wf_store(old(data)@),
    ensures
        wf_store(final(data)@),
        (match r {
            Ok(()) => remove_counter_s(old(data)@, channel_name@, counter_name@) == Ok::<
                StoreV,
                StoreError,
            >(final(data)@),
            Err(e) => final(data)@ == old(data)@ && remove_counter_s(
                old(data)@,
                channel_name@,
                counter_name@,
            ) == Err::<StoreV, StoreError>(e),
        }),
{
    let ghost s0 = data@;
    let idx = match find_channel_idx(&data.channels, channel_name.as_str()) {
        Some(i) => i,
        None => {
            return Err(StoreError::ChannelNotFound);
        },
    };
    let ci = match find_counter_idx(&data.channels[idx].counters, counter_name.as_str()) {
        Some(i) => i,
        None => {
            return Err(StoreError::CounterNotFound);
        },
    };
    let ghost chv0 = s0.channels[idx as int];
    let ch = &mut data.channels[idx];
    ch.counters.remove(ci);
    proof {
        let ch2 = ChannelV {
            name: chv0.name,
            commands: chv0.commands,
            counters: chv0.counters.remove(ci as int),
        };
        assert(data@.channels =~~= s0.channels.update(idx as int, ch2));
        assert forall|i: int, j: int| 0 <= i < j < ch2.counters.len() implies (
        #[trigger] ch2.counters[i]).name != (#[trigger] ch2.counters[j]).name by {
            let i0 = if i < ci { i } else { i + 1 };
            let j0 = if j < ci { j } else { j + 1 };
            assert(ch2.counters[i] == chv0.counters[i0]);
            assert(ch2.counters[j] == chv0.counters[j0]);
        }
        assert forall|i: int| 0 <= i < ch2.counters.len() implies i32::MIN <= (
        #[trigger] ch2.counters[i]).count <= i32::MAX by {
            let i0 = if i < ci { i } else { i + 1 };
            assert(ch2.counters[i] == chv0.counters[i0]);
        }
        assert(wf_channel(ch2));
        lemma_wf_store_update(s0, idx as int, ch2);
    }
    Ok(())
}

/// Set a counter of a channel to a given value.
pub fn edit_counter(
    channel_name: &String,
    counter_name: &String,
    data: &mut Store,
    new_count: i32,
) -> (r: Result<(), StoreError>)
    requires
        wf_store(old(data)@),
    ensures
        wf_store(final(data)@),
        (match r {
            Ok(()) => edit_counter_s(old(data)@, channel_name@, counter_name@, new_count as int)
                == Ok::<StoreV, StoreError>(final(data)@),
            Err(e) => final(data)@ == old(data)@ && edit_counter_s(
                old(data)@,
                channel_name@,
                counter_name@,
                new_count as int,
            ) == Err::<StoreV, StoreError>(e),
        }),
{
    let ghost s0 = data@;
    let idx = match find_channel_idx(&data.channels, channel_name.as_str()) {
        Some(i) => i,
        None => {
            return Err(StoreError::ChannelNotFound);
        },
    };
    let ci = match find_counter_idx(&data.channels[idx].counters, counter_name.as_str()) {
        Some(i) => i,
        None => {
            return Err(StoreError::CounterNotFound);
        },
    };
    let ghost chv0 = s0.channels[idx as int];
    let ch = &mut data.channels[idx];
    let ctr = &mut ch.counters[ci];
    ctr.count = new_count;
    proof {
        let c2 = CounterV { name: chv0.counters[ci as int].name, count: new_count as int };
        let ch2 = ChannelV {
            name: chv0.name,
            commands: chv0.commands,
            counters: chv0.counters.update(ci as int, c2),
        };
        assert(data@.channels =~~= s0.channels.update(idx as int, ch2));
        assert forall|i: int, j: int| 0 <= i < j < ch2.counters.len() implies (
        #[trigger] ch2.counters[i]).name != (#[trigger] ch2.counters[j]).name by {
            assert(ch2.counters[i].name == chv0.counters[i].name);
            assert(ch2.counters[j].name == chv0.counters[j].name);
        }
        assert forall|i: int| 0 <= i < ch2.counters.len() implies i32::MIN <= (
        #[trigger] ch2.counters[i]).count <= i32::MAX by {
            if i != ci {
                assert(ch2.counters[i] == chv0.counters[i]);
            }
        }
        assert(wf_channel(ch2));
        lemma_wf_store_update(s0, idx as int, ch2);
    }
    Ok(())
}

/// Add a command with its answer text to an existing channel.
pub fn add_command(
    channel_name: &String,
    command_name: &String,
    answer: &String,
    data: &mut Store,
) -> (r: Result<(), StoreError>)
    requires
        wf_store(old(data)@),
    ensures
        wf_store(final(data)@),
        (match r {
            Ok(()) => add_command_s(old(data)@, channel_name@, command_name@, answer@) == Ok::<
                StoreV,
                StoreError,
            >(final(data)@),
            Err(e) => final(data)@ == old(data)@ && add_command_s(
                old(data)@,
                channel_name@,
                command_name@,
                answer@,
            ) == Err::<StoreV, StoreError>(e),
        }),
{
    let ghost s0 = data@;
    let idx = match find_channel_idx(&data.channels, channel_name.as_str()) {
        Some(i) => i,
        None => {
            return Err(StoreError::ChannelNotFound);
        },
    };
    if find_command_idx(&data.channels[idx].commands, command_name.as_str()).is_some() {
        return Err(StoreError::CommandAlreadyExists);
    }
    let ghost chv0 = s0.channels[idx as int];
    let ch = &mut data.channels[idx];
    ch.commands.push(Command { name: command_name.clone(), answer: answer.clone() });
    proof {
        let c2 = CommandV { name: command_name@, answer: answer@ };
        let ch2 = ChannelV {
            name: chv0.name,
            commands: chv0.commands.push(c2),
            counters: chv0.counters,
        };
        assert(data@.channels =~~= s0.channels.update(idx as int, ch2));
        assert forall|i: int, j: int| 0 <= i < j < ch2.commands.len() implies (
        #[trigger] ch2.commands[i]).name != (#[trigger] ch2.commands[j]).name by {
            if j < chv0.commands.len() {
                assert(ch2.commands[i] == chv0.commands[i]);
                assert(ch2.commands[j] == chv0.commands[j]);
            } else {
                assert(ch2.commands[i] == chv0.commands[i]);
                assert(ch2.commands[j] == c2);
            }
        }
        assert(wf_channel(ch2));
        lemma_wf_store_update(s0, idx as int, ch2);
    }
    Ok(())
}

/// Remove a command from a channel.
pub fn remove_command(channel_name: &String, command_name: &String, data: &mut Store) -> (r:
    Result<(), StoreError>)
    requires
        wf_store(old(data)@),
    ensures
        wf_store(final(data)@),
        (match r {
            Ok(()) => remove_command_s(old(data)@, channel_name@, command_name@) == Ok::<
                StoreV,
                StoreError,
            >(final(data)@),
            Err(e) => final(data)@ == old(data)@ && remove_command_s(
                old(data)@,
                channel_name@,
                command_name@,
            ) == Err::<StoreV, StoreError>(e),
        }),
{
    let ghost s0 = data@;
    let idx = match find_channel_idx(&data.channels, channel_name.as_str()) {
        Some(i) => i,
        None => {
            return Err(StoreError::ChannelNotFound);
        },
    };
    let ci = match find_command_idx(&data.channels[idx].commands, command_name.as_str()) {
        Some(i) => i,
        None => {
            return Err(StoreError::CommandNotFound);
        },
    };
    let ghost chv0 = s0.channels[idx as int];
    let ch = &mut data.channels[idx];
    ch.commands.remove(ci);
    proof {
        let ch2 = ChannelV {
            name: chv0.name,
            commands: chv0.commands.remove(ci as int),
            counters: chv0.counters,
        };
        assert(data@.channels =~~= s0.channels.update(idx as int, ch2));
        assert forall|i: int, j: int| 0 <= i < j < ch2.commands.len() implies (
        #[trigger] ch2.commands[i]).name != (#[trigger] ch2.commands[j]).name by {
            let i0 = if i < ci { i } else { i + 1 };
            let j0 = if j < ci { j } else { j + 1 };
            assert(ch2.commands[i] == chv0.commands[i0]);
            assert(ch2.commands[j] == chv0.commands[j0]);
        }
        assert(wf_channel(ch2));
        lemma_wf_store_update(s0, idx as int, ch2);
    }
    Ok(())
}

/// Replace the answer text of an existing command.
pub fn edit_command(
    channel_name: &String,
    command_name: &String,
    new_answer: &String,
    data: &mut Store,
) -> (r: Result<(), StoreError>)
    requires
        wf_store(old(data)@),
    ensures
        wf_store(final(data)@),
        (match r {
            Ok(()) => edit_command_s(old(data)@, channel_name@, command_name@, new_answer@) == Ok::<
                StoreV,
                StoreError,
            >(final(data)@),
            Err(e) => final(data)@ == old(data)@ && edit_command_s(
                old(data)@,
                channel_name@,
                command_name@,
                new_answer@,
            ) == Err::<StoreV, StoreError>(e),
        }),
{
    let ghost s0 = data@;
    let idx = match find_channel_idx(&data.channels, channel_name.as_str()) {
        Some(i) => i,
        None => {
            return Err(StoreError::ChannelNotFound);
        },
    };
    let ci = match find_command_idx(&data.channels[idx].commands, command_name.as_str()) {
        Some(i) => i,
        None => {
            return Err(StoreError::CommandNotFound);
        },
    };
    let ghost chv0 = s0.channels[idx as int];
    let ch = &mut data.channels[idx];
    let cmd = &mut ch.commands[ci];
    cmd.answer = new_answer.clone();
    proof {
        let c2 = CommandV { name: chv0.commands[ci as int].name, answer: new_answer@ };
        let ch2 = ChannelV {
            name: chv0.name,
            commands: chv0.commands.update(ci as int, c2),
            counters: chv0.counters,
        };
        assert(data@.channels =~~= s0.channels.update(idx as int, ch2));
        assert forall|i: int, j: int| 0 <= i < j < ch2.commands.len() implies (
        #[trigger] ch2.commands[i]).name != (#[trigger] ch2.commands[j]).name by {
            assert(ch2.commands[i].name == chv0.commands[i].name);
            assert(ch2.commands[j].name == chv0.commands[j].name);
        }
        assert(wf_channel(ch2));
        lemma_wf_store_update(s0, idx as int, ch2);
    }
    Ok(())
}

/// Make sure every configured channel is present; already present ones are
/// untouched, and nothing else changes.
pub fn pregen_data(channels: &Vec<String>, data: &mut Store)
    requires
        wf_store(old(data)@),
    ensures
        wf_store(final(data)@),
        final(data)@ == pregen_s(old(data)@, channels.deep_view()),
{
    let n = channels.len();
    proof {
        assert(channels.deep_view().skip(0) =~= channels.deep_view());
    }
    let mut i: usize = 0;
    while i < n
        invariant
            n == channels@.len(),
            i <= n,
            wf_store(data@),
            pregen_s(old(data)@, channels.deep_view()) == pregen_s(
                data@,
                channels.deep_view().skip(i as int),
            ),
        decreases n - i,
    {
        let ghost names = channels.deep_view();
        let _ = add_channel(&channels[i], data);
        proof {
            assert(names.skip(i as int).drop_first() =~= names.skip(i + 1));
            assert(names.skip(i as int)[0] == names[i as int]);
        }
        i += 1;
    }
    proof {
        assert(channels.deep_view().skip(n as int) =~= Seq::<Seq<char>>::empty());
    }
}

/// Look a channel up by name.
pub fn find_channel<'a>(data: &'a Store, name: &String) -> (r: Option<&'a Channel>)
    requires
        wf_store(data@),
    ensures
        (match r {
            Some(ch) => has_chan(data@.channels, name@) && ch@ == chan_of(data@, name@),
            None => !has_chan(data@.channels, name@),
        }),
{
    match find_channel_idx(&data.channels, name.as_str()) {
        Some(i) => Some(&data.channels[i]),
        None => None,
    }
}

/// Look a command up by name within a channel.
pub fn find_command<'a>(channel: &'a Channel, name: &String) -> (r: Option<&'a Command>)
    requires
        wf_channel(channel@),
    ensures
        (match r {
            Some(c) => has_cmd(channel@.commands, name@) && c@ == cmd_of(channel@.commands, name@),
            None => !has_cmd(channel@.commands, name@),
        }),
{
    match find_command_idx(&channel.commands, name.as_str()) {
        Some(i) => Some(&channel.commands[i]),
        None => None,
    }
}

/// Look a counter up by name within a channel.
pub fn find_counter<'a>(channel: &'a Channel, name: &String) -> (r: Option<&'a Counter>)
    requires
        wf_channel(channel@),
    ensures
        (match r {
            Some(c) => has_ctr(channel@.counters, name@) && c@ == ctr_of(channel@.counters, name@),
            None => !has_ctr(channel@.counters, name@),
        }),
{
    match find_counter_idx(&channel.counters, name.as_str()) {
        Some(i) => Some(&channel.counters[i]),
        None => None,
    }
}

} // verus!
