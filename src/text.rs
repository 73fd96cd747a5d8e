//! Small string utilities over character sequences.

use vstd::prelude::*;
use vstd::string::StrSliceExecFns;

verus! {

/// Whether `s` ends with `suffix`.
pub open spec fn ends_with(s: Seq<char>, suffix: Seq<char>) -> bool {
    s.len() >= suffix.len() && s.subrange(s.len() - suffix.len(), s.len() as int) == suffix
}

/// Compares two strings character by character.
pub fn str_eq(a: &str, b: &str) -> (r: bool)
    ensures
        r == (a@ == b@),
{
    let n = a.unicode_len();
    if n != b.unicode_len() {
        return false;
    }
    let mut i: usize = 0;
    while i < n
        invariant
            n == a@.len(),
            n == b@.len(),
            i <= n,
            forall|j: int| 0 <= j < i ==> a@[j] == b@[j],
        decreases n - i,
    {
        if a.get_char(i) != b.get_char(i) {
            return false;
        }
        i = i + 1;
    }
    assert(a@ =~= b@);
    true
}

/// Whether `s` ends with `suffix`.
pub fn str_ends_with(s: &str, suffix: &str) -> (r: bool)
    ensures
        r == ends_with(s@, suffix@),
{
    let n = s.unicode_len();
    let m = suffix.unicode_len();
    if m > n {
        return false;
    }
    let tail = s.substring_char(n - m, n);
    str_eq(tail, suffix)
}

/// Whether `c` has the Unicode White_Space property, which
/// `char::is_whitespace` tests.
pub open spec fn is_white(c: char) -> bool {
    let u = c as u32;
    (0x9 <= u && u <= 0xD) || u == 0x20 || u == 0x85 || u == 0xA0 || u == 0x1680 || (0x2000 <= u
        && u <= 0x200A) || u == 0x2028 || u == 0x2029 || u == 0x202F || u == 0x205F || u == 0x3000
}

/// `s` without leading white space.
pub open spec fn strip_start(s: Seq<char>) -> Seq<char>
    decreases s.len(),
{
    if s.len() > 0 && is_white(s[0]) {
        strip_start(s.drop_first())
    } else {
        s
    }
}

/// `s` without trailing white space.
pub open spec fn strip_end(s: Seq<char>) -> Seq<char>
    decreases s.len(),
{
    if s.len() > 0 && is_white(s.last()) {
        strip_end(s.drop_last())
    } else {
        s
    }
}

/// `s` without leading and trailing white space.
pub open spec fn trimmed(s: Seq<char>) -> Seq<char> {
    strip_end(strip_start(s))
}

/// Relies on `str::trim`, documented to remove leading and trailing
/// White_Space characters.
#[verifier::external_body]
pub(crate) fn trim_text(s: &str) -> (r: String)
    ensures
        r@ == trimmed(s@),
{
    s.trim().to_string()
}

/// The words completed so far while reading `s`, and the word being read.
pub open spec fn split_state(s: Seq<char>) -> (Seq<Seq<char>>, Seq<char>)
    decreases s.len(),
{
    if s.len() == 0 {
        (seq![], seq![])
    } else {
        let (ws, cur) = split_state(s.drop_last());
        if is_white(s.last()) {
            if cur.len() > 0 {
                (ws.push(cur), seq![])
            } else {
                (ws, cur)
            }
        } else {
            (ws, cur.push(s.last()))
        }
    }
}

/// The maximal runs of characters without white space, in order.
pub open spec fn words_of(s: Seq<char>) -> Seq<Seq<char>> {
    if split_state(s).1.len() > 0 {
        split_state(s).0.push(split_state(s).1)
    } else {
        split_state(s).0
    }
}

/// Relies on `str::split_whitespace`, documented to split on White_Space
/// characters and to yield no empty word.
#[verifier::external_body]
pub(crate) fn split_words(s: &str) -> (r: Vec<String>)
    ensures
        r@.len() == words_of(s@).len(),
        forall|i: int| 0 <= i < r@.len() ==> #[trigger] r@[i]@ == words_of(s@)[i],
{
    s.split_whitespace().map(|w| w.to_string()).collect()
}

/// Names the result of `String::from_utf8_lossy`: the bytes decoded as UTF-8,
/// with each invalid sequence replaced by U+FFFD.
pub uninterp spec fn lossy_text_of(b: Seq<u8>) -> Seq<char>;

/// Relies on `String::from_utf8_lossy`, whose result depends on the bytes
/// alone.
#[verifier::external_body]
pub(crate) fn decode_lossy(b: &[u8]) -> (r: String)
    ensures
        r@ == lossy_text_of(b@),
{
    String::from_utf8_lossy(b).into_owned()
}

/// Whether `w` is a word: non-empty, without white space.
pub open spec fn is_word(w: Seq<char>) -> bool {
    w.len() > 0 && forall|i: int| 0 <= i < w.len() ==> !is_white(#[trigger] w[i])
}

/// Reading characters without white space extends the word being read.
proof fn lemma_split_word(a: Seq<char>, w: Seq<char>)
    requires
        forall|i: int| 0 <= i < w.len() ==> !is_white(#[trigger] w[i]),
    ensures
        split_state(a + w) == (split_state(a).0, split_state(a).1 + w),
    decreases w.len(),
{
    if w.len() == 0 {
        assert(a + w =~= a);
        assert(split_state(a).1 + w =~= split_state(a).1);
    } else {
        let pre = w.drop_last();
        assert forall|i: int| 0 <= i < pre.len() implies !is_white(#[trigger] pre[i]) by {
            assert(pre[i] == w[i]);
        }
        lemma_split_word(a, pre);
        assert((a + w).drop_last() =~= a + pre);
        assert((a + w).last() == w[w.len() - 1]);
        assert(split_state(a).1 + pre.push(w.last()) =~= (split_state(a).1 + pre).push(w.last()));
        assert(pre.push(w.last()) =~= w);
    }
}

/// Three words separated by single spaces split into those three words.
pub proof fn lemma_three_words(w1: Seq<char>, w2: Seq<char>, w3: Seq<char>)
    requires
        is_word(w1),
        is_word(w2),
        is_word(w3),
    ensures
        words_of(w1 + seq![' '] + w2 + seq![' '] + w3) == seq![w1, w2, w3],
{
    let e: Seq<char> = seq![];
    lemma_split_word(e, w1);
    assert(e + w1 =~= w1);
    let a1 = w1 + seq![' '];
    assert(a1.drop_last() =~= w1);
    assert(split_state(a1) == (seq![w1], e));
    lemma_split_word(a1, w2);
    let a2 = a1 + w2 + seq![' '];
    assert(a2.drop_last() =~= a1 + w2);
    assert(e + w2 =~= w2);
    assert(split_state(a2) == (seq![w1].push(w2), e));
    lemma_split_word(a2, w3);
    assert(e + w3 =~= w3);
    assert(a2 + w3 =~= w1 + seq![' '] + w2 + seq![' '] + w3);
    assert(seq![w1].push(w2).push(w3) =~= seq![w1, w2, w3]);
}

} // verus!
