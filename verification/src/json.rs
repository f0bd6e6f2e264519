//! The persisted form of the store: one pretty-printed JSON document,
//! `{ "channels": [ { name, commands: [...], counters: [...] } ] }`,
//! written as a whole on every mutation and read back once at startup.
//!
//! The printer [`store_to_json`] emits a canonical document, and the
//! parser [`store_from_json`] accepts exactly that canonical form; the
//! round trip is proved exact in [`crate::laws`]: parsing what was
//! printed gives back the very store, field for field and in order.

use vstd::prelude::*;

use crate::num::{
    all_digits,
    dec_int,
    dec_nat,
    digits_val,
    is_digit,
    lemma_digits_val_monotone,
    lemma_digits_val_nonneg,
};
use crate::store::{ChannelV, CommandV, CounterV, StoreV};

verus! {

// ---------- the canonical text, in the spec ----------

/// A string escaped for a JSON string literal: quote and backslash get a
/// backslash; everything else stands as it is.
pub open spec fn esc(s: Seq<char>) -> Seq<char>
    decreases s.len(),
{
    if s.len() == 0 {
        Seq::empty()
    } else {
        (if s[0] == '"' || s[0] == '\\' {
            seq!['\\', s[0]]
        } else {
            seq![s[0]]
        }) + esc(s.drop_first())
    }
}

/// A list of already rendered items, joined with `",\n"`.
pub open spec fn ser_list<T>(f: spec_fn(T) -> Seq<char>, cs: Seq<T>) -> Seq<char>
    decreases cs.len(),
{
    if cs.len() == 0 {
        Seq::empty()
    } else if cs.len() == 1 {
        f(cs[0])
    } else {
        f(cs[0]) + ",\n"@ + ser_list(f, cs.drop_first())
    }
}

pub open spec fn ser_cmd(c: CommandV) -> Seq<char> {
    "        {\n          \"name\": \""@ + esc(c.name) + seq!['"']
        + ",\n          \"answer\": \""@ + esc(c.answer) + seq!['"'] + "\n        }"@
}

pub open spec fn ser_ctr(c: CounterV) -> Seq<char> {
    "        {\n          \"name\": \""@ + esc(c.name) + seq!['"'] + ",\n          \"count\": "@
        + dec_int(c.count) + "\n        }"@
}

pub open spec fn ser_cmds(cs: Seq<CommandV>) -> Seq<char> {
    "["@ + (if cs.len() == 0 {
        "]"@
    } else {
        "\n"@ + ser_list(|c: CommandV| ser_cmd(c), cs) + "\n      ]"@
    })
}

pub open spec fn ser_ctrs(cs: Seq<CounterV>) -> Seq<char> {
    "["@ + (if cs.len() == 0 {
        "]"@
    } else {
        "\n"@ + ser_list(|c: CounterV| ser_ctr(c), cs) + "\n      ]"@
    })
}

pub open spec fn ser_chan(ch: ChannelV) -> Seq<char> {
    "    {\n      \"name\": \""@ + esc(ch.name) + seq!['"'] + ",\n      \"commands\": "@
        + ser_cmds(ch.commands) + ",\n      \"counters\": "@ + ser_ctrs(ch.counters) + "\n    }"@
}

/// The whole document.
pub open spec fn ser_store(s: StoreV) -> Seq<char> {
    "{\n  \"channels\": ["@ + (if s.channels.len() == 0 {
        "]\n}"@
    } else {
        "\n"@ + ser_list(|ch: ChannelV| ser_chan(ch), s.channels) + "\n  ]\n}"@
    })
}

// ---------- the parser, in the spec ----------

pub open spec fn parse_lit_s(t: Seq<char>, lit: Seq<char>) -> Option<Seq<char>> {
    if lit.is_prefix_of(t) {
        Some(t.skip(lit.len() as int))
    } else {
        None
    }
}

/// The body of a JSON string after the opening quote, up to and including
/// the closing quote.
pub open spec fn parse_strbody_s(t: Seq<char>) -> Option<(Seq<char>, Seq<char>)>
    decreases t.len(),
{
    if t.len() == 0 {
        None
    } else if t[0] == '"' {
        Some((Seq::empty(), t.skip(1)))
    } else if t[0] == '\\' {
        if t.len() < 2 {
            None
        } else {
            match parse_strbody_s(t.skip(2)) {
                Some((w, r)) => Some((seq![t[1]] + w, r)),
                None => None,
            }
        }
    } else {
        match parse_strbody_s(t.skip(1)) {
            Some((w, r)) => Some((seq![t[0]] + w, r)),
            None => None,
        }
    }
}

/// The longest run of decimal digits at the head of `t`.
pub open spec fn take_digits(t: Seq<char>) -> Seq<char>
    decreases t.len(),
{
    if t.len() > 0 && is_digit(t[0]) {
        seq![t[0]] + take_digits(t.drop_first())
    } else {
        Seq::empty()
    }
}

/// An optionally signed decimal integer that fits an `i32`.
pub open spec fn parse_int_s(t: Seq<char>) -> Option<(int, Seq<char>)> {
    if t.len() > 0 && t[0] == '-' {
        let d = take_digits(t.skip(1));
        if d.len() > 0 && -digits_val(d) >= i32::MIN {
            Some((-digits_val(d), t.skip(1 + d.len() as int)))
        } else {
            None
        }
    } else {
        let d = take_digits(t);
        if d.len() > 0 && digits_val(d) <= i32::MAX {
            Some((digits_val(d), t.skip(d.len() as int)))
        } else {
            None
        }
    }
}

pub open spec fn parse_cmd_s(t: Seq<char>) -> Option<(CommandV, Seq<char>)> {
    match parse_lit_s(t, "        {\n          \"name\": \""@) {
        None => None,
        Some(r1) => match parse_strbody_s(r1) {
            None => None,
            Some((name, r2)) => match parse_lit_s(r2, ",\n          \"answer\": \""@) {
                None => None,
                Some(r3) => match parse_strbody_s(r3) {
                    None => None,
                    Some((answer, r4)) => match parse_lit_s(r4, "\n        }"@) {
                        None => None,
                        Some(r5) => Some((CommandV { name: name, answer: answer }, r5)),
                    },
                },
            },
        },
    }
}

pub open spec fn parse_ctr_s(t: Seq<char>) -> Option<(CounterV, Seq<char>)> {
    match parse_lit_s(t, "        {\n          \"name\": \""@) {
        None => None,
        Some(r1) => match parse_strbody_s(r1) {
            None => None,
            Some((name, r2)) => match parse_lit_s(r2, ",\n          \"count\": "@) {
                None => None,
                Some(r3) => match parse_int_s(r3) {
                    None => None,
                    Some((v, r4)) => match parse_lit_s(r4, "\n        }"@) {
                        None => None,
                        Some(r5) => Some((CounterV { name: name, count: v }, r5)),
                    },
                },
            },
        },
    }
}

pub open spec fn parse_cmd_list_s(t: Seq<char>) -> Option<(Seq<CommandV>, Seq<char>)>
    decreases t.len(),
{
    match parse_cmd_s(t) {
        None => None,
        Some((c, r)) => match parse_lit_s(r, ",\n"@) {
            Some(r2) => if r2.len() < t.len() {
                match parse_cmd_list_s(r2) {
                    Some((cs, r3)) => Some((seq![c] + cs, r3)),
                    None => None,
                }
            } else {
                None
            },
            None => Some((seq![c], r)),
        },
    }
}

pub open spec fn parse_ctr_list_s(t: Seq<char>) -> Option<(Seq<CounterV>, Seq<char>)>
    decreases t.len(),
{
    match parse_ctr_s(t) {
        None => None,
        Some((c, r)) => match parse_lit_s(r, ",\n"@) {
            Some(r2) => if r2.len() < t.len() {
                match parse_ctr_list_s(r2) {
                    Some((cs, r3)) => Some((seq![c] + cs, r3)),
                    None => None,
                }
            } else {
                None
            },
            None => Some((seq![c], r)),
        },
    }
}

pub open spec fn parse_cmds_s(t: Seq<char>) -> Option<(Seq<CommandV>, Seq<char>)> {
    match parse_lit_s(t, "["@) {
        None => None,
        Some(r) => match parse_lit_s(r, "]"@) {
            Some(r2) => Some((Seq::empty(), r2)),
            None => match parse_lit_s(r, "\n"@) {
                None => None,
                Some(r2) => match parse_cmd_list_s(r2) {
                    None => None,
                    Some((cs, r3)) => match parse_lit_s(r3, "\n      ]"@) {
                        None => None,
                        Some(r4) => Some((cs, r4)),
                    },
                },
            },
        },
    }
}

pub open spec fn parse_ctrs_s(t: Seq<char>) -> Option<(Seq<CounterV>, Seq<char>)> {
    match parse_lit_s(t, "["@) {
        None => None,
        Some(r) => match parse_lit_s(r, "]"@) {
            Some(r2) => Some((Seq::empty(), r2)),
            None => match parse_lit_s(r, "\n"@) {
                None => None,
                Some(r2) => match parse_ctr_list_s(r2) {
                    None => None,
                    Some((cs, r3)) => match parse_lit_s(r3, "\n      ]"@) {
                        None => None,
                        Some(r4) => Some((cs, r4)),
                    },
                },
            },
        },
    }
}

pub open spec fn parse_chan_s(t: Seq<char>) -> Option<(ChannelV, Seq<char>)> {
    match parse_lit_s(t, "    {\n      \"name\": \""@) {
        None => None,
        Some(r1) => match parse_strbody_s(r1) {
            None => None,
            Some((name, r2)) => match parse_lit_s(r2, ",\n      \"commands\": "@) {
                None => None,
                Some(r3) => match parse_cmds_s(r3) {
                    None => None,
                    Some((cmds, r4)) => match parse_lit_s(r4, ",\n      \"counters\": "@) {
                        None => None,
                        Some(r5) => match parse_ctrs_s(r5) {
                            None => None,
                            Some((ctrs, r6)) => match parse_lit_s(r6, "\n    }"@) {
                                None => None,
                                Some(r7) => Some(
                                    (ChannelV { name: name, commands: cmds, counters: ctrs }, r7),
                                ),
                            },
                        },
                    },
                },
            },
        },
    }
}

pub open spec fn parse_chan_list_s(t: Seq<char>) -> Option<(Seq<ChannelV>, Seq<char>)>
    decreases t.len(),
{
    match parse_chan_s(t) {
        None => None,
        Some((c, r)) => match parse_lit_s(r, ",\n"@) {
            Some(r2) => if r2.len() < t.len() {
                match parse_chan_list_s(r2) {
                    Some((cs, r3)) => Some((seq![c] + cs, r3)),
                    None => None,
                }
            } else {
                None
            },
            None => Some((seq![c], r)),
        },
    }
}

/// The whole document; anything but exactly one well-formed document is
/// rejected.
pub open spec fn parse_store_s(t: Seq<char>) -> Option<StoreV> {
    match parse_lit_s(t, "{\n  \"channels\": ["@) {
        None => None,
        Some(r) => match parse_lit_s(r, "]\n}"@) {
            Some(r2) => if r2.len() == 0 {
                Some(StoreV { channels: Seq::empty() })
            } else {
                None
            },
            None => match parse_lit_s(r, "\n"@) {
                None => None,
                Some(r2) => match parse_chan_list_s(r2) {
                    None => None,
                    Some((cs, r3)) => match parse_lit_s(r3, "\n  ]\n}"@) {
                        None => None,
                        Some(r4) => if r4.len() == 0 {
                            Some(StoreV { channels: cs })
                        } else {
                            None
                        },
                    },
                },
            },
        },
    }
}


// ---------- round trip, in the spec ----------

proof fn lemma_parse_lit(lit: Seq<char>, rest: Seq<char>)
    ensures
        parse_lit_s(lit + rest, lit) == Some(rest),
{
    assert((lit + rest).subrange(0, lit.len() as int) =~= lit);
    assert(lit.is_prefix_of(lit + rest));
    assert((lit + rest).skip(lit.len() as int) =~= rest);
}

proof fn lemma_parse_lit_miss(t: Seq<char>, lit: Seq<char>)
    requires
        lit.len() > 0,
        t.len() == 0 || t[0] != lit[0],
    ensures
        parse_lit_s(t, lit) is None,
{
    if lit.len() <= t.len() {
        assert(t.subrange(0, lit.len() as int)[0] == t[0]);
    }
}

proof fn lemma_strbody_rt(s: Seq<char>, rest: Seq<char>)
    ensures
        parse_strbody_s(esc(s) + seq!['"'] + rest) == Some((s, rest)),
    decreases s.len(),
{
    let t = esc(s) + seq!['"'] + rest;
    if s.len() == 0 {
        assert(t[0] == '"');
        assert(t.skip(1) =~= rest);
    } else {
        let c = s[0];
        lemma_strbody_rt(s.drop_first(), rest);
        if c == '"' || c == '\\' {
            assert(t[0] == '\\');
            assert(t[1] == c);
            assert(t.len() >= 2) by {
                assert(esc(s).len() >= 2);
            }
            assert(t.skip(2) =~= esc(s.drop_first()) + seq!['"'] + rest);
            assert(seq![c] + s.drop_first() =~= s);
        } else {
            assert(t[0] == c);
            assert(t.skip(1) =~= esc(s.drop_first()) + seq!['"'] + rest);
            assert(seq![c] + s.drop_first() =~= s);
        }
    }
}

proof fn lemma_digit_of_val(d: int)
    requires
        0 <= d <= 9,
    ensures
        crate::num::digit_of(d) as int == 48 + d,
{
    if d == 0 {
        assert('0' as int == 48);
    } else if d == 1 {
        assert('1' as int == 49);
    } else if d == 2 {
        assert('2' as int == 50);
    } else if d == 3 {
        assert('3' as int == 51);
    } else if d == 4 {
        assert('4' as int == 52);
    } else if d == 5 {
        assert('5' as int == 53);
    } else if d == 6 {
        assert('6' as int == 54);
    } else if d == 7 {
        assert('7' as int == 55);
    } else if d == 8 {
        assert('8' as int == 56);
    } else {
        assert('9' as int == 57);
    }
}

proof fn lemma_dec_nat_digits(m: nat)
    ensures
        all_digits(dec_nat(m)),
        dec_nat(m).len() > 0,
        is_digit(dec_nat(m)[0]),
        digits_val(dec_nat(m)) == m,
    decreases m,
{
    if m < 10 {
        lemma_digit_of_val(m as int);
        assert(dec_nat(m) =~= seq![crate::num::digit_of(m as int)]);
        assert(dec_nat(m).drop_last() =~= Seq::<char>::empty());
        assert(dec_nat(m).last() == crate::num::digit_of(m as int));
        assert(digits_val(Seq::<char>::empty()) == 0);
        assert(digits_val(dec_nat(m)) == digits_val(dec_nat(m).drop_last()) * 10 + (dec_nat(
            m,
        ).last() as int - 48));
    } else {
        lemma_digit_of_val((m % 10) as int);
        lemma_dec_nat_digits(m / 10);
        let a = dec_nat(m / 10);
        let d = seq![crate::num::digit_of((m % 10) as int)];
        assert(dec_nat(m) == a + d);
        assert forall|i: int| 0 <= i < (a + d).len() implies is_digit(#[trigger] (a + d)[i]) by {
            if i < a.len() {
                assert((a + d)[i] == a[i]);
            }
        }
        assert((a + d).drop_last() =~= a);
        assert((a + d).last() == crate::num::digit_of((m % 10) as int));
    }
}

proof fn lemma_take_digits_concat(a: Seq<char>, b: Seq<char>)
    requires
        all_digits(a),
        b.len() == 0 || !is_digit(b[0]),
    ensures
        take_digits(a + b) == a,
    decreases a.len(),
{
    if a.len() == 0 {
        assert(a + b =~= b);
        assert(take_digits(b) =~= Seq::<char>::empty());
        assert(a =~= Seq::<char>::empty());
    } else {
        assert(all_digits(a.drop_first())) by {
            assert(forall|i: int| 0 <= i < a.len() - 1 ==> a.drop_first()[i] == a[i + 1]);
        }
        lemma_take_digits_concat(a.drop_first(), b);
        assert((a + b)[0] == a[0]);
        assert((a + b).drop_first() =~= a.drop_first() + b);
        assert(seq![a[0]] + a.drop_first() =~= a);
    }
}

proof fn lemma_int_rt(n: int, rest: Seq<char>)
    requires
        i32::MIN <= n <= i32::MAX,
        rest.len() == 0 || !is_digit(rest[0]),
    ensures
        parse_int_s(dec_int(n) + rest) == Some((n, rest)),
{
    let t = dec_int(n) + rest;
    if n < 0 {
        let m = (-n) as nat;
        lemma_dec_nat_digits(m);
        assert(t[0] == '-');
        assert(t.skip(1) =~= dec_nat(m) + rest);
        lemma_take_digits_concat(dec_nat(m), rest);
        assert(take_digits(t.skip(1)) == dec_nat(m));
        assert(t.skip(1 + dec_nat(m).len() as int) =~= rest);
    } else {
        let m = n as nat;
        lemma_dec_nat_digits(m);
        assert(t[0] == dec_nat(m)[0]);
        assert(t[0] != '-');
        lemma_take_digits_concat(dec_nat(m), rest);
        assert(t =~= dec_nat(m) + rest);
        assert(take_digits(t) == dec_nat(m));
        assert(t.skip(dec_nat(m).len() as int) =~= rest);
    }
}

proof fn lemma_cmd_rt(c: CommandV, rest: Seq<char>)
    ensures
        parse_cmd_s(ser_cmd(c) + rest) == Some((c, rest)),
{
    let h = "        {\n          \"name\": \""@;
    let m = ",\n          \"answer\": \""@;
    let tl = "\n        }"@;
    let x4 = tl + rest;
    let x3 = (esc(c.answer) + seq!['"']) + x4;
    let x2 = m + x3;
    let x1 = (esc(c.name) + seq!['"']) + x2;
    assert(ser_cmd(c) + rest =~= h + x1);
    lemma_parse_lit(h, x1);
    assert(x1 =~= esc(c.name) + seq!['"'] + x2);
    lemma_strbody_rt(c.name, x2);
    lemma_parse_lit(m, x3);
    assert(x3 =~= esc(c.answer) + seq!['"'] + x4);
    lemma_strbody_rt(c.answer, x4);
    lemma_parse_lit(tl, rest);
}

proof fn lemma_ctr_rt(c: CounterV, rest: Seq<char>)
    requires
        i32::MIN <= c.count <= i32::MAX,
    ensures
        parse_ctr_s(ser_ctr(c) + rest) == Some((c, rest)),
{
    let h = "        {\n          \"name\": \""@;
    let m = ",\n          \"count\": "@;
    let tl = "\n        }"@;
    let x4 = tl + rest;
    let x3 = dec_int(c.count) + x4;
    let x2 = m + x3;
    let x1 = (esc(c.name) + seq!['"']) + x2;
    assert(ser_ctr(c) + rest =~= h + x1);
    lemma_parse_lit(h, x1);
    assert(x1 =~= esc(c.name) + seq!['"'] + x2);
    lemma_strbody_rt(c.name, x2);
    lemma_parse_lit(m, x3);
    reveal_strlit("\n        }");
    assert(x4[0] == '\n');
    assert(!is_digit('\n'));
    lemma_int_rt(c.count, x4);
    lemma_parse_lit(tl, rest);
}

#[verifier::rlimit(60)]
proof fn lemma_cmd_list_rt(cs: Seq<CommandV>, rest: Seq<char>)
    requires
        cs.len() >= 1,
        rest.len() == 0 || rest[0] != ',',
    ensures
        parse_cmd_list_s(ser_list(|c: CommandV| ser_cmd(c), cs) + rest) == Some((cs, rest)),
    decreases cs.len(),
{
    let f = |c: CommandV| ser_cmd(c);
    let t = ser_list(f, cs) + rest;
    reveal_strlit(",\n");
    reveal_strlit("        {\n          \"name\": \"");
    if cs.len() == 1 {
        assert(ser_list(f, cs) == ser_cmd(cs[0]));
        lemma_cmd_rt(cs[0], rest);
        lemma_parse_lit_miss(rest, ",\n"@);
        assert(seq![cs[0]] =~= cs);
    } else {
        let x1 = ser_list(f, cs.drop_first()) + rest;
        let x0 = ",\n"@ + x1;
        assert(t =~= ser_cmd(cs[0]) + x0);
        lemma_cmd_rt(cs[0], x0);
        lemma_parse_lit(",\n"@, x1);
        assert(ser_cmd(cs[0]).len() > 0) by {
            assert(ser_cmd(cs[0]).len() >= "        {\n          \"name\": \""@.len());
        }
        assert(x1.len() < t.len());
        lemma_cmd_list_rt(cs.drop_first(), rest);
        assert(seq![cs[0]] + cs.drop_first() =~= cs);
    }
}

#[verifier::rlimit(60)]
proof fn lemma_ctr_list_rt(cs: Seq<CounterV>, rest: Seq<char>)
    requires
        cs.len() >= 1,
        rest.len() == 0 || rest[0] != ',',
        crate::store::ctrs_in_range(cs),
    ensures
        parse_ctr_list_s(ser_list(|c: CounterV| ser_ctr(c), cs) + rest) == Some((cs, rest)),
    decreases cs.len(),
{
    let f = |c: CounterV| ser_ctr(c);
    let t = ser_list(f, cs) + rest;
    reveal_strlit(",\n");
    reveal_strlit("        {\n          \"name\": \"");
    if cs.len() == 1 {
        assert(ser_list(f, cs) == ser_ctr(cs[0]));
        lemma_ctr_rt(cs[0], rest);
        lemma_parse_lit_miss(rest, ",\n"@);
        assert(seq![cs[0]] =~= cs);
    } else {
        let x1 = ser_list(f, cs.drop_first()) + rest;
        let x0 = ",\n"@ + x1;
        assert(t =~= ser_ctr(cs[0]) + x0);
        lemma_ctr_rt(cs[0], x0);
        lemma_parse_lit(",\n"@, x1);
        assert(ser_ctr(cs[0]).len() > 0) by {
            assert(ser_ctr(cs[0]).len() >= "        {\n          \"name\": \""@.len());
        }
        assert(x1.len() < t.len());
        assert(crate::store::ctrs_in_range(cs.drop_first())) by {
            assert(forall|i: int| 0 <= i < cs.len() - 1 ==> cs.drop_first()[i] == cs[i + 1]);
        }
        lemma_ctr_list_rt(cs.drop_first(), rest);
        assert(seq![cs[0]] + cs.drop_first() =~= cs);
    }
}

proof fn lemma_cmds_rt(cs: Seq<CommandV>, rest: Seq<char>)
    ensures
        parse_cmds_s(ser_cmds(cs) + rest) == Some((cs, rest)),
{
    reveal_strlit("[");
    reveal_strlit("]");
    reveal_strlit("\n");
    reveal_strlit("\n      ]");
    let t = ser_cmds(cs) + rest;
    if cs.len() == 0 {
        assert(t =~= "["@ + ("]"@ + rest));
        lemma_parse_lit("["@, "]"@ + rest);
        lemma_parse_lit("]"@, rest);
        assert(cs =~= Seq::<CommandV>::empty());
    } else {
        let x2 = "\n      ]"@ + rest;
        let x1 = ser_list(|c: CommandV| ser_cmd(c), cs) + x2;
        let x0 = "\n"@ + x1;
        assert(t =~= "["@ + x0);
        lemma_parse_lit("["@, x0);
        assert(x0[0] == '\n');
        lemma_parse_lit_miss(x0, "]"@);
        lemma_parse_lit("\n"@, x1);
        assert(x2[0] == '\n');
        lemma_cmd_list_rt(cs, x2);
        lemma_parse_lit("\n      ]"@, rest);
    }
}

proof fn lemma_ctrs_rt(cs: Seq<CounterV>, rest: Seq<char>)
    requires
        crate::store::ctrs_in_range(cs),
    ensures
        parse_ctrs_s(ser_ctrs(cs) + rest) == Some((cs, rest)),
{
    reveal_strlit("[");
    reveal_strlit("]");
    reveal_strlit("\n");
    reveal_strlit("\n      ]");
    let t = ser_ctrs(cs) + rest;
    if cs.len() == 0 {
        assert(t =~= "["@ + ("]"@ + rest));
        lemma_parse_lit("["@, "]"@ + rest);
        lemma_parse_lit("]"@, rest);
        assert(cs =~= Seq::<CounterV>::empty());
    } else {
        let x2 = "\n      ]"@ + rest;
        let x1 = ser_list(|c: CounterV| ser_ctr(c), cs) + x2;
        let x0 = "\n"@ + x1;
        assert(t =~= "["@ + x0);
        lemma_parse_lit("["@, x0);
        assert(x0[0] == '\n');
        lemma_parse_lit_miss(x0, "]"@);
        lemma_parse_lit("\n"@, x1);
        assert(x2[0] == '\n');
        lemma_ctr_list_rt(cs, x2);
        lemma_parse_lit("\n      ]"@, rest);
    }
}

proof fn lemma_chan_rt(ch: ChannelV, rest: Seq<char>)
    requires
        crate::store::ctrs_in_range(ch.counters),
    ensures
        parse_chan_s(ser_chan(ch) + rest) == Some((ch, rest)),
{
    let h = "    {\n      \"name\": \""@;
    let m1 = ",\n      \"commands\": "@;
    let m2 = ",\n      \"counters\": "@;
    let tl = "\n    }"@;
    let x6 = tl + rest;
    let x5 = ser_ctrs(ch.counters) + x6;
    let x4 = m2 + x5;
    let x3 = ser_cmds(ch.commands) + x4;
    let x2 = m1 + x3;
    let x1 = (esc(ch.name) + seq!['"']) + x2;
    assert(ser_chan(ch) + rest =~= h + x1);
    lemma_parse_lit(h, x1);
    assert(x1 =~= esc(ch.name) + seq!['"'] + x2);
    lemma_strbody_rt(ch.name, x2);
    lemma_parse_lit(m1, x3);
    lemma_cmds_rt(ch.commands, x4);
    lemma_parse_lit(m2, x5);
    lemma_ctrs_rt(ch.counters, x6);
    lemma_parse_lit(tl, rest);
}

#[verifier::rlimit(60)]
proof fn lemma_chan_list_rt(cs: Seq<ChannelV>, rest: Seq<char>)
    requires
        cs.len() >= 1,
        rest.len() == 0 || rest[0] != ',',
        forall|i: int| 0 <= i < cs.len() ==> crate::store::ctrs_in_range(
            (#[trigger] cs[i]).counters,
        ),
    ensures
        parse_chan_list_s(ser_list(|c: ChannelV| ser_chan(c), cs) + rest) == Some((cs, rest)),
    decreases cs.len(),
{
    let f = |c: ChannelV| ser_chan(c);
    let t = ser_list(f, cs) + rest;
    reveal_strlit(",\n");
    reveal_strlit("    {\n      \"name\": \"");
    if cs.len() == 1 {
        assert(ser_list(f, cs) == ser_chan(cs[0]));
        lemma_chan_rt(cs[0], rest);
        lemma_parse_lit_miss(rest, ",\n"@);
        assert(seq![cs[0]] =~= cs);
    } else {
        let x1 = ser_list(f, cs.drop_first()) + rest;
        let x0 = ",\n"@ + x1;
        assert(t =~= ser_chan(cs[0]) + x0);
        lemma_chan_rt(cs[0], x0);
        lemma_parse_lit(",\n"@, x1);
        assert(ser_chan(cs[0]).len() > 0) by {
            assert(ser_chan(cs[0]).len() >= "    {\n      \"name\": \""@.len());
        }
        assert(x1.len() < t.len());
        assert(forall|i: int| 0 <= i < cs.len() - 1 ==> cs.drop_first()[i] == cs[i + 1]);
        lemma_chan_list_rt(cs.drop_first(), rest);
        assert(seq![cs[0]] + cs.drop_first() =~= cs);
    }
}

/// Parsing a printed store gives back exactly that store.
pub(crate) proof fn lemma_store_rt(s: StoreV)
    requires
        crate::store::wf_store(s),
    ensures
        parse_store_s(ser_store(s)) == Some(s),
{
    reveal_strlit("{\n  \"channels\": [");
    reveal_strlit("]\n}");
    reveal_strlit("\n");
    reveal_strlit("\n  ]\n}");
    let t = ser_store(s);
    if s.channels.len() == 0 {
        assert(t =~= "{\n  \"channels\": ["@ + ("]\n}"@ + Seq::<char>::empty()));
        lemma_parse_lit("{\n  \"channels\": ["@, "]\n}"@ + Seq::<char>::empty());
        lemma_parse_lit("]\n}"@, Seq::<char>::empty());
        assert(StoreV { channels: Seq::empty() } =~= s);
    } else {
        let x2 = "\n  ]\n}"@ + Seq::<char>::empty();
        let x1 = ser_list(|c: ChannelV| ser_chan(c), s.channels) + x2;
        let x0 = "\n"@ + x1;
        assert(t =~= "{\n  \"channels\": ["@ + x0);
        lemma_parse_lit("{\n  \"channels\": ["@, x0);
        assert(x0[0] == '\n');
        lemma_parse_lit_miss(x0, "]\n}"@);
        lemma_parse_lit("\n"@, x1);
        assert(x2[0] == '\n');
        assert(forall|i: int| 0 <= i < s.channels.len() ==> crate::store::ctrs_in_range(
            (#[trigger] s.channels[i]).counters,
        )) by {
            assert(forall|i: int| 0 <= i < s.channels.len() ==> crate::store::wf_channel(
                #[trigger] s.channels[i],
            ));
        }
        lemma_chan_list_rt(s.channels, x2);
        lemma_parse_lit("\n  ]\n}"@, Seq::<char>::empty());
        assert(StoreV { channels: s.channels } =~= s);
    }
}


// ---------- the printer, executably ----------

proof fn lemma_esc_push(t: Seq<char>, c: char)
    ensures
        esc(t.push(c)) == esc(t) + (if c == '"' || c == '\\' {
            seq!['\\', c]
        } else {
            seq![c]
        }),
    decreases t.len(),
{
    let e1: Seq<char> = if c == '"' || c == '\\' {
        seq!['\\', c]
    } else {
        seq![c]
    };
    if t.len() == 0 {
        assert(t.push(c)[0] == c);
        assert(t.push(c).drop_first() =~= Seq::<char>::empty());
        assert(esc(Seq::<char>::empty()) == Seq::<char>::empty());
        assert(esc(t.push(c)) == e1 + esc(t.push(c).drop_first()));
        assert(esc(t.push(c)) =~= esc(t) + e1);
    } else {
        lemma_esc_push(t.drop_first(), c);
        assert(t.push(c).drop_first() =~= t.drop_first().push(c));
        assert(t.push(c)[0] == t[0]);
        let e0: Seq<char> = if t[0] == '"' || t[0] == '\\' {
            seq!['\\', t[0]]
        } else {
            seq![t[0]]
        };
        assert(esc(t.push(c)) == e0 + (esc(t.drop_first()) + e1));
        assert(e0 + (esc(t.drop_first()) + e1) =~= (e0 + esc(t.drop_first())) + e1);
    }
}

proof fn lemma_ser_list_push<T>(f: spec_fn(T) -> Seq<char>, cs: Seq<T>, x: T)
    ensures
        cs.len() == 0 ==> ser_list(f, cs.push(x)) == f(x),
        cs.len() > 0 ==> ser_list(f, cs.push(x)) == ser_list(f, cs) + ",\n"@ + f(x),
    decreases cs.len(),
{
    if cs.len() == 0 {
        assert(cs.push(x).len() == 1);
        assert(cs.push(x)[0] == x);
    } else if cs.len() == 1 {
        lemma_ser_list_push(f, cs.drop_first(), x);
        assert(cs.push(x).drop_first() =~= cs.drop_first().push(x));
        assert(cs.push(x)[0] == cs[0]);
        assert(ser_list(f, cs.push(x)) == f(cs[0]) + ",\n"@ + f(x));
    } else {
        lemma_ser_list_push(f, cs.drop_first(), x);
        assert(cs.push(x).drop_first() =~= cs.drop_first().push(x));
        assert(cs.push(x)[0] == cs[0]);
        assert(ser_list(f, cs.push(x)) == f(cs[0]) + ",\n"@ + (ser_list(f, cs.drop_first())
            + ",\n"@ + f(x)));
        assert(f(cs[0]) + ",\n"@ + (ser_list(f, cs.drop_first()) + ",\n"@ + f(x)) =~= (f(cs[0])
            + ",\n"@ + ser_list(f, cs.drop_first())) + ",\n"@ + f(x));
    }
}

/// Append `s` escaped for a JSON string literal.
fn append_escaped(out: &mut String, s: &str)
    ensures
        final(out)@ == old(out)@ + esc(s@),
{
    let len = s.unicode_len();
    proof {
        assert(esc(s@.take(0)) =~= Seq::<char>::empty());
        assert(old(out)@ + esc(s@.take(0)) =~= old(out)@);
    }
    let mut i: usize = 0;
    while i < len
        invariant
            len == s@.len(),
            i <= len,
            out@ == old(out)@ + esc(s@.take(i as int)),
        decreases len - i,
    {
        let c = s.get_char(i);
        if c == '"' || c == '\\' {
            proof {
                reveal_strlit("\\");
                assert("\\"@ =~= seq!['\\']);
            }
            out.append("\\");
        }
        out.append(s.substring_char(i, i + 1));
        proof {
            lemma_esc_push(s@.take(i as int), s@[i as int]);
            assert(s@.take(i + 1) =~= s@.take(i as int).push(s@[i as int]));
            assert(s@.subrange(i as int, i + 1) =~= seq![s@[i as int]]);
            assert(out@ =~= old(out)@ + esc(s@.take(i + 1)));
        }
        i += 1;
    }
    proof {
        assert(s@.take(len as int) =~= s@);
    }
}

fn append_quote(out: &mut String)
    ensures
        final(out)@ == old(out)@ + seq!['"'],
{
    proof {
        reveal_strlit("\"");
        assert("\""@ =~= seq!['"']);
    }
    out.append("\"");
}

fn append_cmd(out: &mut String, c: &crate::store::Command)
    ensures
        final(out)@ == old(out)@ + ser_cmd(c@),
{
    out.append("        {\n          \"name\": \"");
    append_escaped(out, c.name.as_str());
    append_quote(out);
    out.append(",\n          \"answer\": \"");
    append_escaped(out, c.answer.as_str());
    append_quote(out);
    out.append("\n        }");
    proof {
        assert(out@ =~= old(out)@ + ser_cmd(c@));
    }
}

fn append_ctr(out: &mut String, c: &crate::store::Counter)
    ensures
        final(out)@ == old(out)@ + ser_ctr(c@),
{
    out.append("        {\n          \"name\": \"");
    append_escaped(out, c.name.as_str());
    append_quote(out);
    out.append(",\n          \"count\": ");
    let v = crate::num::i32_to_string(c.count);
    out.append(v.as_str());
    out.append("\n        }");
    proof {
        assert(out@ =~= old(out)@ + ser_ctr(c@));
    }
}

#[verifier::rlimit(100)]
fn append_chan(out: &mut String, ch: &crate::store::Channel)
    ensures
        final(out)@ == old(out)@ + ser_chan(ch@),
{
    out.append("    {\n      \"name\": \"");
    append_escaped(out, ch.name.as_str());
    append_quote(out);
    out.append(",\n      \"commands\": ");
    out.append("[");
    let ncmd = ch.commands.len();
    if ncmd == 0 {
        out.append("]");
    } else {
        out.append("\n");
        let ghost base = out@;
        let ghost f = |c: CommandV| ser_cmd(c);
        let mut i: usize = 0;
        proof {
            assert(ser_list(f, ch@.commands.take(0)) =~= Seq::<char>::empty());
            assert(base + ser_list(f, ch@.commands.take(0)) =~= base);
        }
        while i < ncmd
            invariant
                ncmd == ch.commands@.len(),
                i <= ncmd,
                f == (|c: CommandV| ser_cmd(c)),
                out@ == base + ser_list(f, ch@.commands.take(i as int)),
            decreases ncmd - i,
        {
            if i > 0 {
                out.append(",\n");
            }
            append_cmd(out, &ch.commands[i]);
            proof {
                lemma_ser_list_push(f, ch@.commands.take(i as int), ch@.commands[i as int]);
                assert(ch@.commands.take(i + 1) =~= ch@.commands.take(i as int).push(
                    ch@.commands[i as int],
                ));
                assert(out@ =~= base + ser_list(f, ch@.commands.take(i + 1)));
            }
            i += 1;
        }
        out.append("\n      ]");
        proof {
            assert(ch@.commands.take(ncmd as int) =~= ch@.commands);
        }
    }
    out.append(",\n      \"counters\": ");
    out.append("[");
    let nctr = ch.counters.len();
    if nctr == 0 {
        out.append("]");
    } else {
        out.append("\n");
        let ghost base2 = out@;
        let ghost g = |c: CounterV| ser_ctr(c);
        let mut i: usize = 0;
        proof {
            assert(ser_list(g, ch@.counters.take(0)) =~= Seq::<char>::empty());
            assert(base2 + ser_list(g, ch@.counters.take(0)) =~= base2);
        }
        while i < nctr
            invariant
                nctr == ch.counters@.len(),
                i <= nctr,
                g == (|c: CounterV| ser_ctr(c)),
                out@ == base2 + ser_list(g, ch@.counters.take(i as int)),
            decreases nctr - i,
        {
            if i > 0 {
                out.append(",\n");
            }
            append_ctr(out, &ch.counters[i]);
            proof {
                lemma_ser_list_push(g, ch@.counters.take(i as int), ch@.counters[i as int]);
                assert(ch@.counters.take(i + 1) =~= ch@.counters.take(i as int).push(
                    ch@.counters[i as int],
                ));
                assert(out@ =~= base2 + ser_list(g, ch@.counters.take(i + 1)));
            }
            i += 1;
        }
        out.append("\n      ]");
        proof {
            assert(ch@.counters.take(nctr as int) =~= ch@.counters);
        }
    }
    out.append("\n    }");
    proof {
        assert(out@ =~= old(out)@ + ser_chan(ch@));
    }
}

/// Render the whole store as its canonical JSON document.
pub fn store_to_json(data: &crate::store::Store) -> (r: String)
    ensures
        r@ == ser_store(data@),
{
    let mut out = String::from_str("{\n  \"channels\": [");
    let n = data.channels.len();
    if n == 0 {
        out.append("]\n}");
        proof {
            assert(out@ =~= ser_store(data@));
        }
        return out;
    }
    out.append("\n");
    let ghost base = out@;
    let ghost f = |c: ChannelV| ser_chan(c);
    let mut i: usize = 0;
    proof {
        assert(ser_list(f, data@.channels.take(0)) =~= Seq::<char>::empty());
        assert(base + ser_list(f, data@.channels.take(0)) =~= base);
    }
    while i < n
        invariant
            n == data.channels@.len(),
            i <= n,
            f == (|c: ChannelV| ser_chan(c)),
            out@ == base + ser_list(f, data@.channels.take(i as int)),
        decreases n - i,
    {
        if i > 0 {
            out.append(",\n");
        }
        append_chan(&mut out, &data.channels[i]);
        proof {
            lemma_ser_list_push(f, data@.channels.take(i as int), data@.channels[i as int]);
            assert(data@.channels.take(i + 1) =~= data@.channels.take(i as int).push(
                data@.channels[i as int],
            ));
            assert(out@ =~= base + ser_list(f, data@.channels.take(i + 1)));
        }
        i += 1;
    }
    out.append("\n  ]\n}");
    proof {
        assert(data@.channels.take(n as int) =~= data@.channels);
        assert(out@ =~= ser_store(data@));
    }
    out
}


// ---------- the parser, executably ----------

fn p_lit(s: &str, i: usize, lit: &str) -> (r: Option<usize>)
    requires
        i <= s@.len(),
    ensures
        (match r {
            Some(j) => i <= j <= s@.len() && j - i == lit@.len() && parse_lit_s(
                s@.skip(i as int),
                lit@,
            ) == Some(s@.skip(j as int)),
            None => parse_lit_s(s@.skip(i as int), lit@) is None,
        }),
{
    let slen = s.unicode_len();
    let llen = lit.unicode_len();
    if llen > slen - i {
        proof {
            assert(s@.skip(i as int).len() < lit@.len());
        }
        return None;
    }
    let mut k: usize = 0;
    while k < llen
        invariant
            slen == s@.len(),
            llen == lit@.len(),
            i + llen <= slen,
            k <= llen,
            forall|m: int| 0 <= m < k ==> lit@[m] == s@[i + m],
        decreases llen - k,
    {
        if lit.get_char(k) != s.get_char(i + k) {
            proof {
                let t = s@.skip(i as int);
                if lit@.is_prefix_of(t) {
                    assert(t.subrange(0, lit@.len() as int)[k as int] == t[k as int]);
                }
            }
            return None;
        }
        k += 1;
    }
    proof {
        let t = s@.skip(i as int);
        assert(lit@ =~= t.subrange(0, lit@.len() as int));
        assert(t.skip(lit@.len() as int) =~= s@.skip(i + llen));
    }
    Some(i + llen)
}

fn p_strbody(s: &str, i: usize) -> (r: Option<(String, usize)>)
    requires
        i <= s@.len(),
    ensures
        (match r {
            Some(p) => i <= p.1 <= s@.len() && parse_strbody_s(s@.skip(i as int)) == Some(
                (p.0@, s@.skip(p.1 as int)),
            ),
            None => parse_strbody_s(s@.skip(i as int)) is None,
        }),
{
    let len = s.unicode_len();
    let mut j: usize = i;
    let mut out = String::new();
    while j < len
        invariant
            len == s@.len(),
            i <= j <= len,
            (match parse_strbody_s(s@.skip(j as int)) {
                Some(p) => parse_strbody_s(s@.skip(i as int)) == Some::<(Seq<char>, Seq<char>)>(
                    (out@ + p.0, p.1),
                ),
                None => parse_strbody_s(s@.skip(i as int)) is None,
            }),
        decreases len - j,
    {
        let c = s.get_char(j);
        if c == '"' {
            proof {
                let t = s@.skip(j as int);
                assert(t[0] == '"');
                assert(t.skip(1) =~= s@.skip(j + 1));
                assert(out@ + Seq::<char>::empty() =~= out@);
            }
            return Some((out, j + 1));
        } else if c == '\\' {
            if j + 1 >= len {
                proof {
                    let t = s@.skip(j as int);
                    assert(t[0] == '\\' && t.len() < 2);
                }
                return None;
            }
            let ghost pre = out@;
            out.append(s.substring_char(j + 1, j + 2));
            proof {
                let t = s@.skip(j as int);
                assert(t[0] == '\\' && t.len() >= 2);
                assert(t[1] == s@[j + 1]);
                assert(t.skip(2) =~= s@.skip(j + 2));
                assert(s@.subrange(j + 1, j + 2) =~= seq![s@[j + 1]]);
                assert(out@ == pre + seq![s@[j + 1]]);
                match parse_strbody_s(s@.skip(j + 2)) {
                    Some(p) => {
                        assert(parse_strbody_s(t) == Some::<(Seq<char>, Seq<char>)>(
                            (seq![t[1]] + p.0, p.1),
                        ));
                        assert(pre + (seq![s@[j + 1]] + p.0) =~= out@ + p.0);
                    },
                    None => {
                        assert(parse_strbody_s(t) is None);
                    },
                }
            }
            j += 2;
        } else {
            let ghost pre = out@;
            out.append(s.substring_char(j, j + 1));
            proof {
                let t = s@.skip(j as int);
                assert(t[0] == s@[j as int]);
                assert(t[0] != '"' && t[0] != '\\');
                assert(t.skip(1) =~= s@.skip(j + 1));
                assert(s@.subrange(j as int, j + 1) =~= seq![s@[j as int]]);
                assert(out@ == pre + seq![s@[j as int]]);
                match parse_strbody_s(s@.skip(j + 1)) {
                    Some(p) => {
                        assert(parse_strbody_s(t) == Some::<(Seq<char>, Seq<char>)>(
                            (seq![t[0]] + p.0, p.1),
                        ));
                        assert(pre + (seq![s@[j as int]] + p.0) =~= out@ + p.0);
                    },
                    None => {
                        assert(parse_strbody_s(t) is None);
                    },
                }
            }
            j += 1;
        }
    }
    proof {
        assert(s@.skip(j as int).len() == 0);
    }
    None
}

proof fn lemma_take_digits_is(t: Seq<char>, k: int)
    requires
        0 <= k <= t.len(),
        forall|j: int| 0 <= j < k ==> is_digit(#[trigger] t[j]),
        k == t.len() || !is_digit(t[k]),
    ensures
        take_digits(t) == t.take(k),
    decreases k,
{
    if k == 0 {
        assert(t.take(0) =~= Seq::<char>::empty());
    } else {
        assert(is_digit(t[0]));
        lemma_take_digits_is(t.drop_first(), k - 1);
        assert(t.drop_first().take(k - 1) =~= t.take(k).drop_first());
        assert(seq![t[0]] + t.take(k).drop_first() =~= t.take(k));
    }
}

fn p_int(s: &str, i: usize) -> (r: Option<(i32, usize)>)
    requires
        i <= s@.len(),
    ensures
        (match r {
            Some(p) => i <= p.1 <= s@.len() && parse_int_s(s@.skip(i as int)) == Some(
                (p.0 as int, s@.skip(p.1 as int)),
            ),
            None => parse_int_s(s@.skip(i as int)) is None,
        }),
{
    let len = s.unicode_len();
    if i >= len {
        proof {
            assert(s@.skip(i as int).len() == 0);
            assert(take_digits(s@.skip(i as int)).len() == 0);
        }
        return None;
    }
    let neg = s.get_char(i) == '-';
    let start: usize = if neg {
        i + 1
    } else {
        i
    };
    let ghost t = s@.skip(i as int);
    let ghost td = s@.skip(start as int);
    proof {
        if neg {
            assert(t[0] == '-');
            assert(t.skip(1) =~= td);
        } else {
            assert(t[0] != '-');
            assert(t =~= td);
        }
    }
    let mut e: usize = start;
    while e < len && crate::num::is_digit_ch(s.get_char(e))
        invariant
            len == s@.len(),
            start <= e <= len,
            td == s@.skip(start as int),
            forall|k: int| 0 <= k < e - start ==> is_digit(#[trigger] td[k]),
        decreases len - e,
    {
        e += 1;
    }
    proof {
        lemma_take_digits_is(td, e - start);
        assert(td.take(e - start) =~= s@.subrange(start as int, e as int));
    }
    let ghost d = take_digits(td);
    if e == start {
        proof {
            assert(d.len() == 0);
        }
        return None;
    }
    let mut acc: i64 = 0;
    let mut k: usize = start;
    while k < e
        invariant
            i <= start <= k <= e <= len,
            len == s@.len(),
            t == s@.skip(i as int),
            td == s@.skip(start as int),
            neg ==> t.len() > 0 && t[0] == '-' && start == i + 1,
            !neg ==> t.len() > 0 && t[0] != '-' && start == i,
            d == take_digits(td),
            d =~= s@.subrange(start as int, e as int),
            all_digits(d),
            acc == digits_val(d.take(k - start)),
            0 <= acc <= 0x8000_0000,
        decreases e - k,
    {
        let u = s.get_char(k) as u32;
        proof {
            assert(d[k - start] == s@[k as int]);
            assert(is_digit(d[k - start]));
            assert(d.take(k + 1 - start).drop_last() =~= d.take(k - start));
        }
        acc = acc * 10 + ((u - 48) as i64);
        k += 1;
        if acc > 0x8000_0000 {
            proof {
                lemma_digits_val_monotone(d, k - start);
                assert(d.take(d.len() as int) =~= d);
                if neg {
                    assert(t.skip(1) =~= td);
                } else {
                    assert(t =~= td);
                }
            }
            return None;
        }
    }
    proof {
        assert(d.take(e - start) =~= d);
        assert(acc == digits_val(d));
        lemma_digits_val_nonneg(d);
    }
    if neg {
        if acc > 0x8000_0000 {
            return None;
        }
        proof {
            assert(t.skip(1 + d.len() as int) =~= s@.skip(e as int));
        }
        Some(((-acc) as i32, e))
    } else {
        if acc > 0x7fff_ffff {
            return None;
        }
        proof {
            assert(t.skip(d.len() as int) =~= s@.skip(e as int));
        }
        Some((acc as i32, e))
    }
}

fn p_cmd(s: &str, i: usize) -> (r: Option<(crate::store::Command, usize)>)
    requires
        i <= s@.len(),
    ensures
        (match r {
            Some(p) => i <= p.1 <= s@.len() && parse_cmd_s(s@.skip(i as int)) == Some(
                (p.0@, s@.skip(p.1 as int)),
            ),
            None => parse_cmd_s(s@.skip(i as int)) is None,
        }),
{
    let j1 = match p_lit(s, i, "        {\n          \"name\": \"") {
        Some(j) => j,
        None => {
            return None;
        },
    };
    let (name, j2) = match p_strbody(s, j1) {
        Some(p) => p,
        None => {
            return None;
        },
    };
    let j3 = match p_lit(s, j2, ",\n          \"answer\": \"") {
        Some(j) => j,
        None => {
            return None;
        },
    };
    let (answer, j4) = match p_strbody(s, j3) {
        Some(p) => p,
        None => {
            return None;
        },
    };
    let j5 = match p_lit(s, j4, "\n        }") {
        Some(j) => j,
        None => {
            return None;
        },
    };
    Some((crate::store::Command { name: name, answer: answer }, j5))
}

fn p_ctr(s: &str, i: usize) -> (r: Option<(crate::store::Counter, usize)>)
    requires
        i <= s@.len(),
    ensures
        (match r {
            Some(p) => i <= p.1 <= s@.len() && parse_ctr_s(s@.skip(i as int)) == Some(
                (p.0@, s@.skip(p.1 as int)),
            ),
            None => parse_ctr_s(s@.skip(i as int)) is None,
        }),
{
    let j1 = match p_lit(s, i, "        {\n          \"name\": \"") {
        Some(j) => j,
        None => {
            return None;
        },
    };
    let (name, j2) = match p_strbody(s, j1) {
        Some(p) => p,
        None => {
            return None;
        },
    };
    let j3 = match p_lit(s, j2, ",\n          \"count\": ") {
        Some(j) => j,
        None => {
            return None;
        },
    };
    let (v, j4) = match p_int(s, j3) {
        Some(p) => p,
        None => {
            return None;
        },
    };
    let j5 = match p_lit(s, j4, "\n        }") {
        Some(j) => j,
        None => {
            return None;
        },
    };
    Some((crate::store::Counter { name: name, count: v }, j5))
}

#[verifier::rlimit(100)]
fn p_cmd_list(s: &str, i: usize) -> (r: Option<(Vec<crate::store::Command>, usize)>)
    requires
        i <= s@.len(),
    ensures
        (match r {
            Some(p) => i <= p.1 <= s@.len() && parse_cmd_list_s(s@.skip(i as int)) == Some(
                (p.0.deep_view(), s@.skip(p.1 as int)),
            ),
            None => parse_cmd_list_s(s@.skip(i as int)) is None,
        }),
{
    proof {
        reveal_strlit("        {\n          \"name\": \"");
        reveal_strlit(",\n");
    }
    let len = s.unicode_len();
    let mut items: Vec<crate::store::Command> = Vec::new();
    let mut p: usize = i;
    loop
        invariant
            i <= p <= len,
            len == s@.len(),
            (match parse_cmd_list_s(s@.skip(p as int)) {
                Some(q) => parse_cmd_list_s(s@.skip(i as int)) == Some::<
                    (Seq<CommandV>, Seq<char>),
                >((items.deep_view() + q.0, q.1)),
                None => parse_cmd_list_s(s@.skip(i as int)) is None,
            }),
        decreases len - p,
    {
        let (c, j) = match p_cmd(s, p) {
            Some(q) => q,
            None => {
                return None;
            },
        };
        let ghost pre = items.deep_view();
        match p_lit(s, j, ",\n") {
            None => {
                items.push(c);
                proof {
                    assert(parse_cmd_list_s(s@.skip(p as int)) == Some::<
                        (Seq<CommandV>, Seq<char>),
                    >((seq![c@], s@.skip(j as int))));
                    assert(items.deep_view() =~= pre.push(c@));
                    assert(pre + seq![c@] =~= items.deep_view());
                }
                return Some((items, j));
            },
            Some(j2) => {
                items.push(c);
                proof {
                    reveal_strlit(",\n");
                    assert(j2 - j == ",\n"@.len());
                    assert(j2 > p);
                    assert(s@.skip(j2 as int).len() < s@.skip(p as int).len());
                    assert(items.deep_view() =~= pre.push(c@));
                    match parse_cmd_list_s(s@.skip(j2 as int)) {
                        Some(q) => {
                            assert(parse_cmd_list_s(s@.skip(p as int)) == Some::<
                                (Seq<CommandV>, Seq<char>),
                            >((seq![c@] + q.0, q.1)));
                            assert(pre + (seq![c@] + q.0) =~= items.deep_view() + q.0);
                        },
                        None => {},
                    }
                }
                p = j2;
            },
        }
    }
}

#[verifier::rlimit(100)]
fn p_ctr_list(s: &str, i: usize) -> (r: Option<(Vec<crate::store::Counter>, usize)>)
    requires
        i <= s@.len(),
    ensures
        (match r {
            Some(p) => i <= p.1 <= s@.len() && parse_ctr_list_s(s@.skip(i as int)) == Some(
                (p.0.deep_view(), s@.skip(p.1 as int)),
            ),
            None => parse_ctr_list_s(s@.skip(i as int)) is None,
        }),
{
    proof {
        reveal_strlit("        {\n          \"name\": \"");
        reveal_strlit(",\n");
    }
    let len = s.unicode_len();
    let mut items: Vec<crate::store::Counter> = Vec::new();
    let mut p: usize = i;
    loop
        invariant
            i <= p <= len,
            len == s@.len(),
            (match parse_ctr_list_s(s@.skip(p as int)) {
                Some(q) => parse_ctr_list_s(s@.skip(i as int)) == Some::<
                    (Seq<CounterV>, Seq<char>),
                >((items.deep_view() + q.0, q.1)),
                None => parse_ctr_list_s(s@.skip(i as int)) is None,
            }),
        decreases len - p,
    {
        let (c, j) = match p_ctr(s, p) {
            Some(q) => q,
            None => {
                return None;
            },
        };
        let ghost pre = items.deep_view();
        match p_lit(s, j, ",\n") {
            None => {
                items.push(c);
                proof {
                    assert(parse_ctr_list_s(s@.skip(p as int)) == Some::<
                        (Seq<CounterV>, Seq<char>),
                    >((seq![c@], s@.skip(j as int))));
                    assert(items.deep_view() =~= pre.push(c@));
                    assert(pre + seq![c@] =~= items.deep_view());
                }
                return Some((items, j));
            },
            Some(j2) => {
                items.push(c);
                proof {
                    reveal_strlit(",\n");
                    assert(j2 - j == ",\n"@.len());
                    assert(j2 > p);
                    assert(s@.skip(j2 as int).len() < s@.skip(p as int).len());
                    assert(items.deep_view() =~= pre.push(c@));
                    match parse_ctr_list_s(s@.skip(j2 as int)) {
                        Some(q) => {
                            assert(parse_ctr_list_s(s@.skip(p as int)) == Some::<
                                (Seq<CounterV>, Seq<char>),
                            >((seq![c@] + q.0, q.1)));
                            assert(pre + (seq![c@] + q.0) =~= items.deep_view() + q.0);
                        },
                        None => {},
                    }
                }
                p = j2;
            },
        }
    }
}

fn p_cmds(s: &str, i: usize) -> (r: Option<(Vec<crate::store::Command>, usize)>)
    requires
        i <= s@.len(),
    ensures
        (match r {
            Some(p) => i <= p.1 <= s@.len() && parse_cmds_s(s@.skip(i as int)) == Some(
                (p.0.deep_view(), s@.skip(p.1 as int)),
            ),
            None => parse_cmds_s(s@.skip(i as int)) is None,
        }),
{
    let j1 = match p_lit(s, i, "[") {
        Some(j) => j,
        None => {
            return None;
        },
    };
    match p_lit(s, j1, "]") {
        Some(j2) => {
            let items: Vec<crate::store::Command> = Vec::new();
            proof {
                assert(items.deep_view() =~= Seq::<CommandV>::empty());
            }
            return Some((items, j2));
        },
        None => {},
    }
    let j2 = match p_lit(s, j1, "\n") {
        Some(j) => j,
        None => {
            return None;
        },
    };
    let (items, j3) = match p_cmd_list(s, j2) {
        Some(p) => p,
        None => {
            return None;
        },
    };
    let j4 = match p_lit(s, j3, "\n      ]") {
        Some(j) => j,
        None => {
            return None;
        },
    };
    Some((items, j4))
}

fn p_ctrs(s: &str, i: usize) -> (r: Option<(Vec<crate::store::Counter>, usize)>)
    requires
        i <= s@.len(),
    ensures
        (match r {
            Some(p) => i <= p.1 <= s@.len() && parse_ctrs_s(s@.skip(i as int)) == Some(
                (p.0.deep_view(), s@.skip(p.1 as int)),
            ),
            None => parse_ctrs_s(s@.skip(i as int)) is None,
        }),
{
    let j1 = match p_lit(s, i, "[") {
        Some(j) => j,
        None => {
            return None;
        },
    };
    match p_lit(s, j1, "]") {
        Some(j2) => {
            let items: Vec<crate::store::Counter> = Vec::new();
            proof {
                assert(items.deep_view() =~= Seq::<CounterV>::empty());
            }
            return Some((items, j2));
        },
        None => {},
    }
    let j2 = match p_lit(s, j1, "\n") {
        Some(j) => j,
        None => {
            return None;
        },
    };
    let (items, j3) = match p_ctr_list(s, j2) {
        Some(p) => p,
        None => {
            return None;
        },
    };
    let j4 = match p_lit(s, j3, "\n      ]") {
        Some(j) => j,
        None => {
            return None;
        },
    };
    Some((items, j4))
}

fn p_chan(s: &str, i: usize) -> (r: Option<(crate::store::Channel, usize)>)
    requires
        i <= s@.len(),
    ensures
        (match r {
            Some(p) => i <= p.1 <= s@.len() && parse_chan_s(s@.skip(i as int)) == Some(
                (p.0@, s@.skip(p.1 as int)),
            ),
            None => parse_chan_s(s@.skip(i as int)) is None,
        }),
{
    let j1 = match p_lit(s, i, "    {\n      \"name\": \"") {
        Some(j) => j,
        None => {
            return None;
        },
    };
    let (name, j2) = match p_strbody(s, j1) {
        Some(p) => p,
        None => {
            return None;
        },
    };
    let j3 = match p_lit(s, j2, ",\n      \"commands\": ") {
        Some(j) => j,
        None => {
            return None;
        },
    };
    let (cmds, j4) = match p_cmds(s, j3) {
        Some(p) => p,
        None => {
            return None;
        },
    };
    let j5 = match p_lit(s, j4, ",\n      \"counters\": ") {
        Some(j) => j,
        None => {
            return None;
        },
    };
    let (ctrs, j6) = match p_ctrs(s, j5) {
        Some(p) => p,
        None => {
            return None;
        },
    };
    let j7 = match p_lit(s, j6, "\n    }") {
        Some(j) => j,
        None => {
            return None;
        },
    };
    Some((crate::store::Channel { name: name, commands: cmds, counters: ctrs }, j7))
}

#[verifier::rlimit(100)]
fn p_chan_list(s: &str, i: usize) -> (r: Option<(Vec<crate::store::Channel>, usize)>)
    requires
        i <= s@.len(),
    ensures
        (match r {
            Some(p) => i <= p.1 <= s@.len() && parse_chan_list_s(s@.skip(i as int)) == Some(
                (p.0.deep_view(), s@.skip(p.1 as int)),
            ),
            None => parse_chan_list_s(s@.skip(i as int)) is None,
        }),
{
    proof {
        reveal_strlit("    {\n      \"name\": \"");
        reveal_strlit(",\n");
    }
    let len = s.unicode_len();
    let mut items: Vec<crate::store::Channel> = Vec::new();
    let mut p: usize = i;
    loop
        invariant
            i <= p <= len,
            len == s@.len(),
            (match parse_chan_list_s(s@.skip(p as int)) {
                Some(q) => parse_chan_list_s(s@.skip(i as int)) == Some::<
                    (Seq<ChannelV>, Seq<char>),
                >((items.deep_view() + q.0, q.1)),
                None => parse_chan_list_s(s@.skip(i as int)) is None,
            }),
        decreases len - p,
    {
        let (c, j) = match p_chan(s, p) {
            Some(q) => q,
            None => {
                return None;
            },
        };
        let ghost pre = items.deep_view();
        match p_lit(s, j, ",\n") {
            None => {
                items.push(c);
                proof {
                    assert(parse_chan_list_s(s@.skip(p as int)) == Some::<
                        (Seq<ChannelV>, Seq<char>),
                    >((seq![c@], s@.skip(j as int))));
                    assert(items.deep_view() =~= pre.push(c@));
                    assert(pre + seq![c@] =~= items.deep_view());
                }
                return Some((items, j));
            },
            Some(j2) => {
                items.push(c);
                proof {
                    reveal_strlit(",\n");
                    assert(j2 - j == ",\n"@.len());
                    assert(j2 > p);
                    assert(s@.skip(j2 as int).len() < s@.skip(p as int).len());
                    assert(items.deep_view() =~= pre.push(c@));
                    match parse_chan_list_s(s@.skip(j2 as int)) {
                        Some(q) => {
                            assert(parse_chan_list_s(s@.skip(p as int)) == Some::<
                                (Seq<ChannelV>, Seq<char>),
                            >((seq![c@] + q.0, q.1)));
                            assert(pre + (seq![c@] + q.0) =~= items.deep_view() + q.0);
                        },
                        None => {},
                    }
                }
                p = j2;
            },
        }
    }
}

/// Parse the canonical document; any other input is rejected.
fn p_store(s: &str) -> (r: Option<crate::store::Store>)
    ensures
        (match r {
            Some(st) => parse_store_s(s@) == Some(st@),
            None => parse_store_s(s@) is None,
        }),
{
    proof {
        assert(s@.skip(0) =~= s@);
    }
    let len = s.unicode_len();
    let j1 = match p_lit(s, 0, "{\n  \"channels\": [") {
        Some(j) => j,
        None => {
            return None;
        },
    };
    match p_lit(s, j1, "]\n}") {
        Some(j2) => {
            if j2 == len {
                let st = crate::store::Store { channels: Vec::new() };
                proof {
                    assert(s@.skip(j2 as int).len() == 0);
                    assert(st@.channels =~= Seq::<ChannelV>::empty());
                    assert(st@ =~= StoreV { channels: Seq::empty() });
                }
                return Some(st);
            } else {
                return None;
            }
        },
        None => {},
    }
    let j2 = match p_lit(s, j1, "\n") {
        Some(j) => j,
        None => {
            return None;
        },
    };
    let (channels, j3) = match p_chan_list(s, j2) {
        Some(p) => p,
        None => {
            return None;
        },
    };
    let j4 = match p_lit(s, j3, "\n  ]\n}") {
        Some(j) => j,
        None => {
            return None;
        },
    };
    if j4 == len {
        let st = crate::store::Store { channels: channels };
        proof {
            assert(s@.skip(j4 as int).len() == 0);
            assert(st@ =~= StoreV { channels: st@.channels });
        }
        Some(st)
    } else {
        None
    }
}


// ---------- loading with validation ----------

fn channel_names_unique(chs: &Vec<crate::store::Channel>) -> (r: bool)
    ensures
        r == crate::store::uniq_channel_names(chs.deep_view()),
{
    let n = chs.len();
    let mut a: usize = 0;
    while a < n
        invariant
            n == chs@.len(),
            a <= n,
            forall|x: int, y: int| 0 <= x < y < n && x < a ==> (
            #[trigger] chs.deep_view()[x]).name != (#[trigger] chs.deep_view()[y]).name,
        decreases n - a,
    {
        let mut b: usize = a + 1;
        while b < n
            invariant
                a < n,
                n == chs@.len(),
                a + 1 <= b <= n,
                forall|x: int, y: int| 0 <= x < y < n && x < a ==> (
                #[trigger] chs.deep_view()[x]).name != (#[trigger] chs.deep_view()[y]).name,
                forall|y: int| a < y < b ==> chs.deep_view()[a as int].name != (
                #[trigger] chs.deep_view()[y]).name,
            decreases n - b,
        {
            if crate::text::str_eq(chs[a].name.as_str(), chs[b].name.as_str()) {
                proof {
                    assert((#[trigger] chs.deep_view()[a as int]).name == (
                    #[trigger] chs.deep_view()[b as int]).name);
                    assert(!crate::store::uniq_channel_names(chs.deep_view()));
                }
                return false;
            }
            b += 1;
        }
        a += 1;
    }
    true
}

fn command_names_unique(cmds: &Vec<crate::store::Command>) -> (r: bool)
    ensures
        r == crate::store::uniq_cmd_names(cmds.deep_view()),
{
    let n = cmds.len();
    let mut a: usize = 0;
    while a < n
        invariant
            n == cmds@.len(),
            a <= n,
            forall|x: int, y: int| 0 <= x < y < n && x < a ==> (
            #[trigger] cmds.deep_view()[x]).name != (#[trigger] cmds.deep_view()[y]).name,
        decreases n - a,
    {
        let mut b: usize = a + 1;
        while b < n
            invariant
                a < n,
                n == cmds@.len(),
                a + 1 <= b <= n,
                forall|x: int, y: int| 0 <= x < y < n && x < a ==> (
                #[trigger] cmds.deep_view()[x]).name != (#[trigger] cmds.deep_view()[y]).name,
                forall|y: int| a < y < b ==> cmds.deep_view()[a as int].name != (
                #[trigger] cmds.deep_view()[y]).name,
            decreases n - b,
        {
            if crate::text::str_eq(cmds[a].name.as_str(), cmds[b].name.as_str()) {
                proof {
                    assert((#[trigger] cmds.deep_view()[a as int]).name == (
                    #[trigger] cmds.deep_view()[b as int]).name);
                    assert(!crate::store::uniq_cmd_names(cmds.deep_view()));
                }
                return false;
            }
            b += 1;
        }
        a += 1;
    }
    true
}

fn counter_names_unique(ctrs: &Vec<crate::store::Counter>) -> (r: bool)
    ensures
        r == crate::store::uniq_ctr_names(ctrs.deep_view()),
{
    let n = ctrs.len();
    let mut a: usize = 0;
    while a < n
        invariant
            n == ctrs@.len(),
            a <= n,
            forall|x: int, y: int| 0 <= x < y < n && x < a ==> (
            #[trigger] ctrs.deep_view()[x]).name != (#[trigger] ctrs.deep_view()[y]).name,
        decreases n - a,
    {
        let mut b: usize = a + 1;
        while b < n
            invariant
                a < n,
                n == ctrs@.len(),
                a + 1 <= b <= n,
                forall|x: int, y: int| 0 <= x < y < n && x < a ==> (
                #[trigger] ctrs.deep_view()[x]).name != (#[trigger] ctrs.deep_view()[y]).name,
                forall|y: int| a < y < b ==> ctrs.deep_view()[a as int].name != (
                #[trigger] ctrs.deep_view()[y]).name,
            decreases n - b,
        {
            if crate::text::str_eq(ctrs[a].name.as_str(), ctrs[b].name.as_str()) {
                proof {
                    assert((#[trigger] ctrs.deep_view()[a as int]).name == (
                    #[trigger] ctrs.deep_view()[b as int]).name);
                    assert(!crate::store::uniq_ctr_names(ctrs.deep_view()));
                }
                return false;
            }
            b += 1;
        }
        a += 1;
    }
    true
}

/// Decide the store invariant: channel names unique, and command and
/// counter names unique within each channel.
fn check_wf(data: &crate::store::Store) -> (r: bool)
    ensures
        r == crate::store::wf_store(data@),
{
    if !channel_names_unique(&data.channels) {
        return false;
    }
    let n = data.channels.len();
    let mut i: usize = 0;
    while i < n
        invariant
            n == data.channels@.len(),
            crate::store::uniq_channel_names(data@.channels),
            i <= n,
            forall|k: int| 0 <= k < i ==> crate::store::wf_channel(#[trigger] data@.channels[k]),
        decreases n - i,
    {
        let ch = &data.channels[i];
        if !command_names_unique(&ch.commands) {
            proof {
                assert(!crate::store::wf_channel(data@.channels[i as int]));
            }
            return false;
        }
        if !counter_names_unique(&ch.counters) {
            proof {
                assert(!crate::store::wf_channel(data@.channels[i as int]));
            }
            return false;
        }
        proof {
            assert forall|k: int| 0 <= k < data@.channels[i as int].counters.len() implies
                i32::MIN <= (#[trigger] data@.channels[i as int].counters[k]).count
                <= i32::MAX by {
                assert(data@.channels[i as int].counters[k] == ch.counters@[k]@);
            }
            assert(crate::store::wf_channel(data@.channels[i as int]));
        }
        i += 1;
    }
    true
}

/// Load a store from its persisted document. Anything but the canonical
/// form, or a document that breaks the uniqueness invariants, is rejected.
pub fn store_from_json(s: &str) -> (r: Option<crate::store::Store>)
    ensures
        (match r {
            Some(st) => parse_store_s(s@) == Some(st@) && crate::store::wf_store(st@),
            None => (match parse_store_s(s@) {
                Some(v) => !crate::store::wf_store(v),
                None => true,
            }),
        }),
{
    match p_store(s) {
        Some(st) => {
            if check_wf(&st) {
                Some(st)
            } else {
                None
            }
        },
        None => None,
    }
}

} // verus!
