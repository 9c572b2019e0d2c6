//! Text helpers: thin trusted bridges to text functions of the standard
//! library that vstd does not specify, and small verified utilities.
use vstd::prelude::*;

verus! {

/// What `char::is_alphanumeric` answers for a character (Unicode
/// `Alphabetic` or `Numeric`); the Unicode tables are not restated here.
pub uninterp spec fn alphanumeric(c: char) -> bool;

/// What `str::to_lowercase` returns for a string (Unicode lowercase
/// mapping, which may change the length); the tables are not restated.
pub uninterp spec fn lowercase(s: Seq<char>) -> Seq<char>;

/// What `char::is_whitespace` answers for a character (Unicode
/// `White_Space`); the Unicode tables are not restated here.
pub uninterp spec fn white_space(c: char) -> bool;

/// The index of the first position at or after `i` whose flag is unset
/// (`ws.len()` when there is none).
pub open spec fn first_kept(ws: Seq<bool>, i: nat) -> nat
    decreases ws.len() - i,
{
    if i < ws.len() && ws[i as int] {
        first_kept(ws, i + 1)
    } else {
        i
    }
}

/// The end of the range `[i, j)` once the positions with set flags at its
/// end are dropped.
pub open spec fn kept_end(ws: Seq<bool>, i: nat, j: nat) -> nat
    decreases j,
{
    if i < j && ws[j - 1] {
        kept_end(ws, i, (j - 1) as nat)
    } else {
        j
    }
}

/// `s` without the leading and trailing characters whose flag in `ws` is
/// set.
pub open spec fn stripped(s: Seq<char>, ws: Seq<bool>) -> Seq<char> {
    let i = first_kept(ws, 0);
    s.subrange(i as int, kept_end(ws, i, ws.len()) as int)
}

/// An ASCII white-space character: the space, or tab, line feed,
/// vertical tab, form feed or carriage return.
pub open spec fn is_ascii_white(c: char) -> bool {
    c == ' ' || ('\t' <= c && c <= '\r')
}

/// What `white_space` answers is known for the ASCII characters of `s`.
pub open spec fn ascii_white_known(s: Seq<char>) -> bool {
    forall|i: int| 0 <= i < s.len() && (s[i] as u32) < 128 ==> (white_space(#[trigger] s[i]) <==> is_ascii_white(s[i]))
}

/// Each character's white-space flag.
pub open spec fn white_space_flags(s: Seq<char>) -> Seq<bool> {
    s.map_values(|c: char| white_space(c))
}

/// What `str::trim` returns: the string without leading and trailing
/// white space.
pub open spec fn trimmed(s: Seq<char>) -> Seq<char> {
    stripped(s, white_space_flags(s))
}

/// Calls `char::is_alphanumeric`. Claims that the answer is a function of
/// the character, and, as its documentation implies for ASCII, that an
/// ASCII character is alphanumeric exactly when it is a letter or a digit.
#[verifier::external_body]
pub(crate) fn is_alphanumeric(c: char) -> (r: bool)
    ensures
        r == alphanumeric(c),
        (c as u32) < 128 ==> (r <==> (('a' <= c && c <= 'z') || ('A' <= c && c <= 'Z') || ('0'
            <= c && c <= '9'))),
{
    c.is_alphanumeric()
}

/// Calls `str::to_lowercase`. Claims only that the result is a function of
/// the input.
#[verifier::external_body]
pub(crate) fn to_lowercase(s: &str) -> (r: String)
    ensures
        r@ == lowercase(s@),
{
    s.to_lowercase()
}

/// Calls `char::is_whitespace`. Claims that the answer is a function of
/// the character, and that an ASCII character is white space exactly when
/// it is the space or one of tab, line feed, vertical tab, form feed and
/// carriage return (U+0009 to U+000D), as the Unicode `White_Space`
/// property that its documentation names has it.
#[verifier::external_body]
fn is_whitespace(c: char) -> (r: bool)
    ensures
        r == white_space(c),
        (c as u32) < 128 ==> (r <==> is_ascii_white(c)),
{
    c.is_whitespace()
}

/// The white-space flag of each character of `s`.
pub fn whitespace_flags(s: &str) -> (r: Vec<bool>)
    ensures
        r@ == white_space_flags(s@),
        ascii_white_known(s@),
{
    let n = s.unicode_len();
    let mut r: Vec<bool> = Vec::new();
    let mut i: usize = 0;
    while i < n
        invariant
            n == s@.len(),
            i <= n,
            r@ =~= white_space_flags(s@).take(i as int),
            forall|j: int| 0 <= j < i && (s@[j] as u32) < 128 ==> (white_space(#[trigger] s@[j]) <==> is_ascii_white(s@[j])),
        decreases n - i,
    {
        let w = is_whitespace(s.get_char(i));
        r.push(w);
        i = i + 1;
    }
    r
}

/// `s` without the leading and trailing characters flagged in `ws`.
pub fn strip_flagged<'a>(s: &'a str, ws: &Vec<bool>) -> (r: &'a str)
    requires
        ws@.len() == s@.len(),
    ensures
        r@ == stripped(s@, ws@),
{
    let n = ws.len();
    let mut i: usize = 0;
    while i < n && ws[i]
        invariant
            i <= n,
            n == ws@.len(),
            first_kept(ws@, i as nat) == first_kept(ws@, 0),
        decreases n - i,
    {
        i = i + 1;
    }
    let mut j: usize = n;
    while i < j && ws[j - 1]
        invariant
            i <= j <= n,
            n == ws@.len(),
            kept_end(ws@, i as nat, j as nat) == kept_end(ws@, i as nat, n as nat),
        decreases j,
    {
        j = j - 1;
    }
    s.substring_char(i, j)
}

/// `s` without leading and trailing white space, as `str::trim` gives it.
pub fn trim(s: &str) -> (r: &str)
    ensures
        r@ == trimmed(s@),
        ascii_white_known(s@),
{
    let ws = whitespace_flags(s);
    strip_flagged(s, &ws)
}

/// Calls `String::push`: appends one character.
#[verifier::external_body]
pub(crate) fn push_char(s: &mut String, c: char)
    ensures
        final(s)@ == old(s)@.push(c),
{
    s.push(c)
}

/// Calls `String::pop`: removes and returns the last character, if any.
#[verifier::external_body]
pub(crate) fn pop_char(s: &mut String) -> (r: Option<char>)
    ensures
        old(s)@.len() == 0 ==> r is None && final(s)@ == old(s)@,
        old(s)@.len() > 0 ==> r == Some(old(s)@.last()) && final(s)@ == old(s)@.drop_last(),
{
    s.pop()
}

/// `a` followed by `b`.
pub fn concat(a: &str, b: &str) -> (r: String)
    ensures
        r@ == a@ + b@,
{
    let mut r = String::from_str(a);
    r.append(b);
    r
}

/// A copy of each string.
pub fn clone_strings(v: &Vec<String>) -> (r: Vec<String>)
    ensures
        r.deep_view() == v.deep_view(),
{
    let mut r: Vec<String> = Vec::new();
    let mut i: usize = 0;
    while i < v.len()
        invariant
            i <= v.len(),
            r.len() == i,
            forall|j: int| 0 <= j < i ==> (#[trigger] r@[j])@ == v@[j]@,
        decreases v.len() - i,
    {
        r.push(v[i].clone());
        i = i + 1;
    }
    assert(r.deep_view() =~= v.deep_view());
    r
}

/// Whether `s` is one of the strings in `v`.
pub fn contains_str(v: &Vec<String>, s: &String) -> (r: bool)
    ensures
        r == v.deep_view().contains(s@),
{
    let mut i: usize = 0;
    while i < v.len()
        invariant
            i <= v.len(),
            forall|j: int| 0 <= j < i ==> v@[j]@ != s@,
        decreases v.len() - i,
    {
        if v[i] == *s {
            assert(v.deep_view()[i as int] == s@);
            return true;
        }
        i = i + 1;
    }
    assert forall|j: int| 0 <= j < v.deep_view().len() implies v.deep_view()[j] != s@ by {
        assert(v.deep_view()[j] == v@[j]@);
    }
    false
}

} // verus!
