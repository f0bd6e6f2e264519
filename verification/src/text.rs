//! Character-level text helpers: equality, prefix tests, trimming,
//! whitespace tokenization and joining, all specified over `Seq<char>`
//! views; and the one case-folding primitive the dispatcher relies on.

use vstd::prelude::*;

verus! {

/// The whitespace characters the tokenizer splits on.
pub open spec fn is_space_c(c: char) -> bool {
    c == ' ' || c == '\t' || c == '\n' || c == '\r'
}

pub fn is_space(c: char) -> (r: bool)
    ensures
        r == is_space_c(c),
{
    c == ' ' || c == '\t' || c == '\n' || c == '\r'
}

/// String equality, decided character by character.
pub fn str_eq(a: &str, b: &str) -> (r: bool)
    ensures
        r == (a@ == b@),
{
    let alen = a.unicode_len();
    let blen = b.unicode_len();
    if alen != blen {
        return false;
    }
    let mut i: usize = 0;
    while i < alen
        invariant
            alen == a@.len(),
            blen == b@.len(),
            alen == blen,
            i <= alen,
            forall|j: int| 0 <= j < i ==> a@[j] == b@[j],
        decreases alen - i,
    {
        if a.get_char(i) != b.get_char(i) {
            return false;
        }
        i += 1;
    }
    proof {
        assert(a@ =~= b@);
    }
    true
}

/// Does `s` start with `p`?
pub fn str_starts_with(s: &str, p: &str) -> (r: bool)
    ensures
        r == p@.is_prefix_of(s@),
{
    let plen = p.unicode_len();
    let slen = s.unicode_len();
    if plen > slen {
        return false;
    }
    let mut i: usize = 0;
    while i < plen
        invariant
            plen == p@.len(),
            slen == s@.len(),
            plen <= slen,
            i <= plen,
            forall|j: int| 0 <= j < i ==> p@[j] == s@[j],
        decreases plen - i,
    {
        if p.get_char(i) != s.get_char(i) {
            proof {
                assert(s@.subrange(0, plen as int)[i as int] == s@[i as int]);
            }
            return false;
        }
        i += 1;
    }
    proof {
        assert(p@ =~= s@.subrange(0, plen as int));
    }
    true
}

// ---------- trimming ----------

pub open spec fn strip_lead(s: Seq<char>) -> Seq<char>
    decreases s.len(),
{
    if s.len() > 0 && is_space_c(s[0]) {
        strip_lead(s.drop_first())
    } else {
        s
    }
}

pub open spec fn strip_trail(s: Seq<char>) -> Seq<char>
    decreases s.len(),
{
    if s.len() > 0 && is_space_c(s.last()) {
        strip_trail(s.drop_last())
    } else {
        s
    }
}

/// The text with leading and trailing whitespace removed.
pub open spec fn trim_of(s: Seq<char>) -> Seq<char> {
    strip_trail(strip_lead(s))
}

proof fn lemma_strip_lead_skip(s: Seq<char>, a: int)
    requires
        0 <= a <= s.len(),
        forall|j: int| 0 <= j < a ==> is_space_c(#[trigger] s[j]),
        a == s.len() || !is_space_c(s[a]),
    ensures
        strip_lead(s) == s.skip(a),
    decreases a,
{
    if a == 0 {
        assert(s.skip(0) =~= s);
    } else {
        assert(is_space_c(s[0]));
        lemma_strip_lead_skip(s.drop_first(), a - 1);
        assert(s.drop_first().skip(a - 1) =~= s.skip(a));
    }
}

proof fn lemma_strip_trail_take(s: Seq<char>, b: int)
    requires
        0 <= b <= s.len(),
        forall|j: int| b <= j < s.len() ==> is_space_c(#[trigger] s[j]),
        b == 0 || !is_space_c(s[b - 1]),
    ensures
        strip_trail(s) == s.take(b),
    decreases s.len(),
{
    if b == s.len() {
        assert(s.take(b) =~= s);
    } else {
        assert(is_space_c(s.last()));
        lemma_strip_trail_take(s.drop_last(), b);
        assert(s.drop_last().take(b) =~= s.take(b));
    }
}

/// Trim whitespace from both ends.
pub fn trim(s: &str) -> (r: String)
    ensures
        r@ == trim_of(s@),
{
    let len = s.unicode_len();
    let mut a: usize = 0;
    while a < len && is_space(s.get_char(a))
        invariant
            len == s@.len(),
            a <= len,
            forall|j: int| 0 <= j < a ==> is_space_c(#[trigger] s@[j]),
        decreases len - a,
    {
        a += 1;
    }
    proof {
        lemma_strip_lead_skip(s@, a as int);
    }
    let mut b: usize = len;
    while b > a && is_space(s.get_char(b - 1))
        invariant
            len == s@.len(),
            a <= b <= len,
            forall|j: int| b <= j < len ==> is_space_c(#[trigger] s@[j]),
        decreases b,
    {
        b -= 1;
    }
    proof {
        let t = s@.skip(a as int);
        lemma_strip_trail_take(t, b - a);
        assert(t.take(b - a) =~= s@.subrange(a as int, b as int));
    }
    String::from_str(s.substring_char(a, b))
}

// ---------- tokenization ----------

/// The length of the word at the head of `s`: the longest run of
/// non-whitespace characters.
pub open spec fn word_len(s: Seq<char>) -> nat
    decreases s.len(),
{
    if s.len() == 0 || is_space_c(s[0]) {
        0
    } else {
        1 + word_len(s.drop_first())
    }
}

proof fn lemma_word_len_le(s: Seq<char>)
    ensures
        word_len(s) <= s.len(),
    decreases s.len(),
{
    if s.len() > 0 && !is_space_c(s[0]) {
        lemma_word_len_le(s.drop_first());
    }
}

/// `word_len` is exactly the scan the tokenizer performs.
proof fn lemma_word_len_is(s: Seq<char>, w: int)
    requires
        0 <= w <= s.len(),
        forall|j: int| 0 <= j < w ==> !is_space_c(#[trigger] s[j]),
        w == s.len() || is_space_c(s[w]),
    ensures
        word_len(s) == w,
    decreases w,
{
    if w == 0 {
    } else {
        assert(!is_space_c(s[0]));
        lemma_word_len_is(s.drop_first(), w - 1);
    }
}

/// The whitespace-separated tokens of `s`, in order.
pub open spec fn tokens_of(s: Seq<char>) -> Seq<Seq<char>>
    decreases s.len(),
    via tokens_of_dec
{
    if s.len() == 0 {
        Seq::empty()
    } else if is_space_c(s[0]) {
        tokens_of(s.drop_first())
    } else {
        seq![s.take(word_len(s) as int)] + tokens_of(s.skip(word_len(s) as int))
    }
}

#[via_fn]
proof fn tokens_of_dec(s: Seq<char>) {
    if s.len() > 0 && !is_space_c(s[0]) {
        lemma_word_len_le(s);
    }
}

/// Split on whitespace, exactly as `tokens_of` describes.
pub fn tokenize(s: &str) -> (r: Vec<String>)
    ensures
        r.deep_view() == tokens_of(s@),
{
    let len = s.unicode_len();
    let mut out: Vec<String> = Vec::new();
    proof {
        assert(s@.skip(0) =~= s@);
        assert(out.deep_view() =~= Seq::<Seq<char>>::empty());
    }
    let mut i: usize = 0;
    while i < len
        invariant
            len == s@.len(),
            i <= len,
            tokens_of(s@) == out.deep_view() + tokens_of(s@.skip(i as int)),
        decreases len - i,
    {
        if is_space(s.get_char(i)) {
            proof {
                assert(s@.skip(i as int).drop_first() =~= s@.skip(i + 1));
            }
            i += 1;
        } else {
            let mut j: usize = i + 1;
            while j < len && !is_space(s.get_char(j))
                invariant
                    len == s@.len(),
                    i < j <= len,
                    forall|k: int| i <= k < j ==> !is_space_c(#[trigger] s@[k]),
                decreases len - j,
            {
                j += 1;
            }
            let w = String::from_str(s.substring_char(i, j));
            let ghost pre = out.deep_view();
            let ghost t = s@.skip(i as int);
            proof {
                lemma_word_len_is(t, j - i);
                assert(t.take(j - i) =~= s@.subrange(i as int, j as int));
                assert(t.skip(j - i) =~= s@.skip(j as int));
                assert(tokens_of(t) == seq![w@] + tokens_of(s@.skip(j as int)));
            }
            out.push(w);
            proof {
                assert(out.deep_view() =~= pre.push(w@));
                assert(pre + (seq![w@] + tokens_of(s@.skip(j as int))) =~= out.deep_view()
                    + tokens_of(s@.skip(j as int)));
            }
            i = j;
        }
    }
    proof {
        assert(s@.skip(len as int) =~= Seq::<char>::empty());
        assert(tokens_of(s@) =~= out.deep_view());
    }
    out
}

// ---------- joining ----------

/// The tokens joined with `sep` between neighbours.
pub open spec fn join_with(ws: Seq<Seq<char>>, sep: Seq<char>) -> Seq<char>
    decreases ws.len(),
{
    if ws.len() == 0 {
        Seq::empty()
    } else if ws.len() == 1 {
        ws[0]
    } else {
        ws[0] + sep + join_with(ws.drop_first(), sep)
    }
}

proof fn lemma_join_push(ws: Seq<Seq<char>>, sep: Seq<char>, w: Seq<char>)
    ensures
        ws.len() == 0 ==> join_with(ws.push(w), sep) == w,
        ws.len() > 0 ==> join_with(ws.push(w), sep) == join_with(ws, sep) + sep + w,
    decreases ws.len(),
{
    if ws.len() == 0 {
        assert(ws.push(w).len() == 1);
        assert(ws.push(w)[0] == w);
    } else if ws.len() == 1 {
        assert(ws.push(w).drop_first() =~= ws.drop_first().push(w));
        assert(ws.drop_first().len() == 0);
        lemma_join_push(ws.drop_first(), sep, w);
        assert(ws.push(w)[0] == ws[0]);
        assert(join_with(ws.push(w), sep) == ws[0] + sep + w);
    } else {
        lemma_join_push(ws.drop_first(), sep, w);
        assert(ws.push(w).drop_first() =~= ws.drop_first().push(w));
        assert(ws.push(w)[0] == ws[0]);
        assert(join_with(ws.push(w), sep) == ws[0] + sep + (join_with(ws.drop_first(), sep) + sep
            + w));
        assert(ws[0] + sep + (join_with(ws.drop_first(), sep) + sep + w) =~= (ws[0] + sep
            + join_with(ws.drop_first(), sep)) + sep + w);
    }
}

/// Join the words from index `from` on, separated by `sep`.
pub fn join_tokens(words: &Vec<String>, from: usize, sep: &str) -> (r: String)
    requires
        from <= words@.len(),
    ensures
        r@ == join_with(words.deep_view().skip(from as int), sep@),
{
    let mut r = String::new();
    let n = words.len();
    let ghost ws = words.deep_view().skip(from as int);
    let mut i: usize = from;
    while i < n
        invariant
            from <= i <= n,
            n == words@.len(),
            ws == words.deep_view().skip(from as int),
            r@ == join_with(ws.take(i - from), sep@),
        decreases n - i,
    {
        if i > from {
            r.append(sep);
        }
        r.append(words[i].as_str());
        proof {
            assert(words.deep_view()[i as int] == words@[i as int]@);
            assert(ws.take(i - from).push(words.deep_view()[i as int]) =~= ws.take(i + 1 - from));
            lemma_join_push(ws.take(i - from), sep@, words.deep_view()[i as int]);
            if i == from {
                assert(r@ =~= join_with(ws.take(i + 1 - from), sep@));
            }
        }
        i += 1;
    }
    proof {
        assert(ws.take(n - from) =~= ws);
    }
    r
}

// ---------- case folding ----------

/// What `str::to_lowercase` returns for a given text: a fixed function of
/// the characters alone.
pub uninterp spec fn lower_of(s: Seq<char>) -> Seq<char>;

/// Relies on `str::to_lowercase`: the lowered text depends on the input
/// characters alone.
#[verifier::external_body]
pub(crate) fn lowercase(s: &str) -> (r: String)
    ensures
        r@ == lower_of(s@),
{
    s.to_lowercase()
}

} // verus!
