//! Character-level helpers on paths, names and queries.

use vstd::prelude::*;

verus! {

/// What `char::is_whitespace` says of a character (Unicode `White_Space`).
pub uninterp spec fn is_white(c: char) -> bool;

/// Relies on `char::is_whitespace`: whether the character has the Unicode
/// `White_Space` property, which the space, tab and line breaks have and
/// the printable ASCII characters other than the space do not.
#[verifier::external_body]
fn char_is_white(c: char) -> (r: bool)
    ensures
        r == is_white(c),
        c == ' ' || c == '\t' || c == '\n' || c == '\r' ==> r,
        '!' <= c <= '~' ==> !r,
{
    c.is_whitespace()
}

/// A sequence with leading and trailing whitespace removed.
pub open spec fn trimmed(s: Seq<char>) -> Seq<char>
    decreases s.len(),
{
    if s.len() == 0 {
        s
    } else if is_white(s[0]) {
        trimmed(s.subrange(1, s.len() as int))
    } else if is_white(s[s.len() - 1]) {
        trimmed(s.subrange(0, s.len() - 1))
    } else {
        s
    }
}

/// Trimming leaves a sequence that is empty or starts and ends with a
/// character that is not whitespace, so trimming it again changes nothing.
pub proof fn lemma_trimmed_settled(s: Seq<char>)
    ensures
        trimmed(trimmed(s)) == trimmed(s),
        trimmed(s).len() == 0 || (!is_white(trimmed(s)[0]) && !is_white(
            trimmed(s)[trimmed(s).len() - 1],
        )),
    decreases s.len(),
{
    if s.len() > 0 {
        if is_white(s[0]) {
            lemma_trimmed_settled(s.subrange(1, s.len() as int));
        } else if is_white(s[s.len() - 1]) {
            lemma_trimmed_settled(s.subrange(0, s.len() - 1));
        }
    }
}

/// True when nothing but whitespace is left after trimming.
pub open spec fn is_blank(s: Seq<char>) -> bool {
    trimmed(s).len() == 0
}

/// The input without leading and trailing whitespace.
pub fn trim(s: &str) -> (r: String)
    ensures
        r@ == trimmed(s@),
{
    let n = s.unicode_len();
    let mut lo: usize = 0;
    let mut hi: usize = n;
    assert(s@.subrange(0, n as int) =~= s@);
    while lo < hi
        invariant
            n == s@.len(),
            0 <= lo <= hi <= n,
            trimmed(s@.subrange(lo as int, hi as int)) == trimmed(s@),
        ensures
            0 <= lo <= hi <= n,
            trimmed(s@.subrange(lo as int, hi as int)) == trimmed(s@),
            lo == hi || (!is_white(s@[lo as int]) && !is_white(s@[hi - 1])),
        decreases hi - lo,
    {
        let sub = Ghost(s@.subrange(lo as int, hi as int));
        if char_is_white(s.get_char(lo)) {
            assert(sub@.subrange(1, sub@.len() as int) =~= s@.subrange(lo + 1, hi as int));
            lo = lo + 1;
        } else if char_is_white(s.get_char(hi - 1)) {
            assert(sub@.subrange(0, sub@.len() - 1) =~= s@.subrange(lo as int, hi - 1));
            hi = hi - 1;
        } else {
            break;
        }
    }
    let r = s.substring_char(lo, hi).to_owned();
    assert(trimmed(s@.subrange(lo as int, hi as int)) == s@.subrange(lo as int, hi as int));
    r
}

/// Lexicographic order on character sequences, by code point; for strings
/// this is the order `str` has in std, since UTF-8 keeps code point order.
pub open spec fn seq_le(a: Seq<char>, b: Seq<char>) -> bool
    decreases a.len(),
{
    if a.len() == 0 {
        true
    } else if b.len() == 0 {
        false
    } else if (a[0] as u32) != (b[0] as u32) {
        (a[0] as u32) < (b[0] as u32)
    } else {
        seq_le(a.subrange(1, a.len() as int), b.subrange(1, b.len() as int))
    }
}

/// Of two sequences one is at most the other.
pub proof fn lemma_seq_le_total(a: Seq<char>, b: Seq<char>)
    ensures
        seq_le(a, b) || seq_le(b, a),
    decreases a.len(),
{
    if a.len() > 0 && b.len() > 0 && (a[0] as u32) == (b[0] as u32) {
        lemma_seq_le_total(a.subrange(1, a.len() as int), b.subrange(1, b.len() as int));
    }
}

/// Whether `a` comes no later than `b` in lexicographic order.
pub fn str_le(a: &str, b: &str) -> (r: bool)
    ensures
        r == seq_le(a@, b@),
{
    let na = a.unicode_len();
    let nb = b.unicode_len();
    let mut i: usize = 0;
    assert(a@.subrange(0, na as int) =~= a@);
    assert(b@.subrange(0, nb as int) =~= b@);
    while i < na && i < nb
        invariant
            na == a@.len(),
            nb == b@.len(),
            i <= na,
            i <= nb,
            seq_le(a@.subrange(i as int, na as int), b@.subrange(i as int, nb as int))
                == seq_le(a@, b@),
        decreases na - i,
    {
        let ca = a.get_char(i);
        let cb = b.get_char(i);
        if (ca as u32) != (cb as u32) {
            return (ca as u32) < (cb as u32);
        }
        assert(a@.subrange(i as int, na as int).subrange(1, na - i) =~= a@.subrange(i + 1, na as int));
        assert(b@.subrange(i as int, nb as int).subrange(1, nb - i) =~= b@.subrange(i + 1, nb as int));
        i = i + 1;
    }
    i == na
}

/// Whether two strings hold the same characters.
pub fn str_eq(a: &str, b: &str) -> (r: bool)
    ensures
        r == (a@ == b@),
{
    let na = a.unicode_len();
    let nb = b.unicode_len();
    if na != nb {
        return false;
    }
    let mut i: usize = 0;
    while i < na
        invariant
            na == a@.len(),
            nb == b@.len(),
            na == nb,
            i <= na,
            forall|k: int| 0 <= k < i ==> #[trigger] a@[k] == b@[k],
        decreases na - i,
    {
        if a.get_char(i) != b.get_char(i) {
            return false;
        }
        i = i + 1;
    }
    assert(a@ =~= b@);
    true
}

/// The ASCII lower-case form of a character; other characters are kept.
pub open spec fn ascii_lower(c: char) -> char {
    if 'A' <= c && c <= 'Z' {
        ((c as u8) + 32) as char
    } else {
        c
    }
}

/// Equality of two sequences up to ASCII case.
pub open spec fn same_ignoring_ascii_case(a: Seq<char>, b: Seq<char>) -> bool {
    &&& a.len() == b.len()
    &&& forall|i: int| 0 <= i < a.len() ==> ascii_lower(#[trigger] a[i]) == ascii_lower(b[i])
}

fn char_ascii_lower(c: char) -> (r: char)
    ensures
        r == ascii_lower(c),
{
    if 'A' <= c && c <= 'Z' {
        ((c as u8) + 32) as char
    } else {
        c
    }
}

/// Whether two strings are equal when ASCII letters are compared without
/// regard to case.
pub fn eq_ignore_ascii_case(a: &str, b: &str) -> (r: bool)
    ensures
        r == same_ignoring_ascii_case(a@, b@),
{
    let na = a.unicode_len();
    let nb = b.unicode_len();
    if na != nb {
        return false;
    }
    let mut i: usize = 0;
    while i < na
        invariant
            na == a@.len(),
            nb == b@.len(),
            na == nb,
            i <= na,
            forall|k: int| 0 <= k < i ==> ascii_lower(#[trigger] a@[k]) == ascii_lower(b@[k]),
        decreases na - i,
    {
        if char_ascii_lower(a.get_char(i)) != char_ascii_lower(b.get_char(i)) {
            return false;
        }
        i = i + 1;
    }
    true
}

/// What `str::to_lowercase` returns: the Unicode lower-case mapping.
pub uninterp spec fn lower_of(s: Seq<char>) -> Seq<char>;

/// Relies on `str::to_lowercase`: the Unicode lower-case form, which depends
/// on the characters alone.
#[verifier::external_body]
pub(crate) fn to_lower(s: &str) -> (r: String)
    ensures
        r@ == lower_of(s@),
{
    s.to_lowercase()
}

} // verus!
