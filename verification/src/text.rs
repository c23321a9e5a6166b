//! Character-level operations on strings, specified over `Seq<char>`.

use vstd::prelude::*;
use vstd::string::*;

verus! {

/// Whether `c` carries the Unicode `White_Space` property: the controls
/// from tab to carriage return, the space, next line, the no-break space,
/// the ogham space mark, the spaces from en quad to hair space, the line and
/// paragraph separators, the narrow no-break space, the medium mathematical
/// space and the ideographic space.
pub open spec fn is_white_space(c: char) -> bool {
    ||| '\u{9}' <= c <= '\u{d}'
    ||| c == ' '
    ||| c == '\u{85}'
    ||| c == '\u{a0}'
    ||| c == '\u{1680}'
    ||| '\u{2000}' <= c <= '\u{200a}'
    ||| c == '\u{2028}'
    ||| c == '\u{2029}'
    ||| c == '\u{202f}'
    ||| c == '\u{205f}'
    ||| c == '\u{3000}'
}

/// Calls `char::is_whitespace`, which tests the `White_Space` property of
/// the Unicode character database.
#[verifier::external_body]
pub(crate) fn is_whitespace(c: char) -> (b: bool)
    ensures
        b == is_white_space(c),
{
    c.is_whitespace()
}

/// `a` is the number of leading whitespace characters of `s`.
pub open spec fn is_leading_white(s: Seq<char>, a: int) -> bool {
    &&& 0 <= a <= s.len()
    &&& forall|i: int| 0 <= i < a ==> is_white_space(#[trigger] s[i])
    &&& a < s.len() ==> !is_white_space(s[a])
}

/// `b` is the position at which the trailing whitespace of `s` begins.
pub open spec fn is_trailing_white(s: Seq<char>, b: int) -> bool {
    &&& 0 <= b <= s.len()
    &&& forall|i: int| b <= i < s.len() ==> is_white_space(#[trigger] s[i])
    &&& 0 < b ==> !is_white_space(s[b - 1])
}

/// The number of leading whitespace characters of `s`.
pub open spec fn leading_white(s: Seq<char>) -> int {
    choose|a: int| is_leading_white(s, a)
}

/// The position at which the trailing whitespace of `s` begins.
pub open spec fn trailing_white(s: Seq<char>) -> int {
    choose|b: int| is_trailing_white(s, b)
}

/// `s` without its trailing whitespace.
pub open spec fn trimmed_end(s: Seq<char>) -> Seq<char> {
    s.take(trailing_white(s))
}

/// `s` without its leading and trailing whitespace.
pub open spec fn trimmed(s: Seq<char>) -> Seq<char> {
    if leading_white(s) <= trailing_white(s) {
        s.subrange(leading_white(s), trailing_white(s))
    } else {
        Seq::empty()
    }
}

/// The count of leading whitespace is determined by its defining property.
pub proof fn lemma_leading_white(s: Seq<char>, a: int)
    requires
        is_leading_white(s, a),
    ensures
        leading_white(s) == a,
{
    let c = leading_white(s);
    assert(is_leading_white(s, c));
    if c < a {
        assert(is_white_space(s[c]));
    } else if a < c {
        assert(is_white_space(s[a]));
    }
}

/// The start of the trailing whitespace is determined by its defining
/// property.
pub proof fn lemma_trailing_white(s: Seq<char>, b: int)
    requires
        is_trailing_white(s, b),
    ensures
        trailing_white(s) == b,
{
    let c = trailing_white(s);
    assert(is_trailing_white(s, c));
    if c < b {
        assert(is_white_space(s[b - 1]));
    } else if b < c {
        assert(is_white_space(s[c - 1]));
    }
}

/// The pieces of `s` between occurrences of `separator`, in order; a string
/// without the separator is its own single piece.
pub open spec fn split(s: Seq<char>, separator: char) -> Seq<Seq<char>>
    decreases s.len(),
{
    if s.len() == 0 {
        seq![Seq::empty()]
    } else {
        let before = split(s.drop_last(), separator);
        if s.last() == separator {
            before.push(Seq::empty())
        } else {
            before.drop_last().push(before.last().push(s.last()))
        }
    }
}

/// Reading one more character either closes the current piece or extends it.
pub proof fn lemma_split_step(s: Seq<char>, separator: char, start: int, i: int, done: Seq<Seq<char>>)
    requires
        0 <= start <= i < s.len(),
        split(s.take(i), separator) == done.push(s.subrange(start, i)),
    ensures
        s[i] == separator ==> split(s.take(i + 1), separator) == done.push(
            s.subrange(start, i),
        ).push(s.subrange(i + 1, i + 1)),
        s[i] != separator ==> split(s.take(i + 1), separator) == done.push(
            s.subrange(start, i + 1),
        ),
{
    let next = s.take(i + 1);
    assert(next.drop_last() =~= s.take(i));
    assert(next.last() == s[i]);
    let before = split(s.take(i), separator);
    if s[i] == separator {
        assert(s.subrange(i + 1, i + 1) =~= Seq::<char>::empty());
    } else {
        assert(before.drop_last() =~= done);
        assert(before.last().push(s[i]) =~= s.subrange(start, i + 1));
    }
}

/// The characters of `s`, in order.
pub fn chars_of(s: &str) -> (r: Vec<char>)
    ensures
        r@ == s@,
{
    let mut out: Vec<char> = Vec::new();
    for c in it: s.chars()
        invariant
            it.seq() == s@,
            out@ == s@.take(it.index()),
    {
        out.push(c);
    }
    out
}

/// The number of leading whitespace characters of `chars`.
fn scan_leading(chars: &Vec<char>) -> (a: usize)
    ensures
        is_leading_white(chars@, a as int),
        a as int == leading_white(chars@),
{
    let mut a: usize = 0;
    while a < chars.len() && is_whitespace(chars[a])
        invariant
            a <= chars.len(),
            forall|i: int| 0 <= i < a ==> is_white_space(#[trigger] chars@[i]),
        decreases chars.len() - a,
    {
        a += 1;
    }
    proof {
        lemma_leading_white(chars@, a as int);
    }
    a
}

/// The position at which the trailing whitespace of `chars` begins.
fn scan_trailing(chars: &Vec<char>) -> (b: usize)
    ensures
        is_trailing_white(chars@, b as int),
        b as int == trailing_white(chars@),
{
    let mut b: usize = chars.len();
    while b > 0 && is_whitespace(chars[b - 1])
        invariant
            b <= chars.len(),
            forall|i: int| b <= i < chars.len() ==> is_white_space(#[trigger] chars@[i]),
        decreases b,
    {
        b -= 1;
    }
    proof {
        lemma_trailing_white(chars@, b as int);
    }
    b
}

/// Removes leading and trailing whitespace, as `str::trim` does.
pub fn trim(s: &str) -> (r: &str)
    ensures
        r@ == trimmed(s@),
{
    let chars = chars_of(s);
    let a = scan_leading(&chars);
    let b = scan_trailing(&chars);
    if a <= b {
        s.substring_char(a, b)
    } else {
        s.substring_char(0, 0)
    }
}

/// Removes trailing whitespace, as `str::trim_end` does.
pub fn trim_end(s: &str) -> (r: &str)
    ensures
        r@ == trimmed_end(s@),
{
    let chars = chars_of(s);
    let b = scan_trailing(&chars);
    s.substring_char(0, b)
}

/// Whether two strings hold the same characters.
pub fn equal(a: &str, b: &str) -> (r: bool)
    ensures
        r == (a@ == b@),
{
    let x = chars_of(a);
    let y = chars_of(b);
    if x.len() != y.len() {
        return false;
    }
    let mut i: usize = 0;
    while i < x.len()
        invariant
            i <= x.len(),
            x.len() == y.len(),
            x@ == a@,
            y@ == b@,
            forall|k: int| 0 <= k < i ==> x@[k] == y@[k],
        decreases x.len() - i,
    {
        if x[i] != y[i] {
            return false;
        }
        i += 1;
    }
    assert(a@ =~= b@);
    true
}

/// Whether `s` ends with `suffix`, as `str::ends_with` tells for a string
/// pattern.
pub fn ends_with(s: &str, suffix: &str) -> (r: bool)
    ensures
        r == suffix@.is_suffix_of(s@),
{
    let x = chars_of(s);
    let y = chars_of(suffix);
    if y.len() > x.len() {
        return false;
    }
    let offset: usize = x.len() - y.len();
    let mut i: usize = 0;
    while i < y.len()
        invariant
            i <= y.len(),
            offset + y.len() == x.len(),
            x@ == s@,
            y@ == suffix@,
            forall|k: int| 0 <= k < i ==> x@[offset + k] == y@[k],
        decreases y.len() - i,
    {
        if x[offset + i] != y[i] {
            assert(s@.subrange(offset as int, s@.len() as int)[i as int] != suffix@[i as int]);
            return false;
        }
        i += 1;
    }
    assert(suffix@ =~= s@.subrange(offset as int, s@.len() as int));
    true
}

/// Whether the character `c` occurs in `s`.
pub fn contains_char(s: &str, c: char) -> (r: bool)
    ensures
        r == s@.contains(c),
{
    let x = chars_of(s);
    let mut i: usize = 0;
    while i < x.len()
        invariant
            i <= x.len(),
            x@ == s@,
            forall|k: int| 0 <= k < i ==> x@[k] != c,
        decreases x.len() - i,
    {
        if x[i] == c {
            return true;
        }
        i += 1;
    }
    false
}

} // verus!
