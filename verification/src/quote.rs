//! Quoting values for a POSIX shell command line.
use vstd::prelude::*;
use vstd::std_specs::iter::IteratorSpec;
use crate::text::{alphanumeric, is_alphanumeric, push_char};

verus! {

broadcast use vstd::string::group_string_axioms;

/// Punctuation that may appear unquoted in a shell word.
pub open spec fn is_plain_punct(c: char) -> bool {
    c == '_' || c == '-' || c == '.' || c == '/' || c == ':' || c == '@' || c == '%' || c == '+'
}

/// Whether `c` may appear unquoted, given whether it is alphanumeric.
pub open spec fn plain_with(c: char, alnum: bool) -> bool {
    alnum || is_plain_punct(c)
}

/// Characters that may appear unquoted in a shell word.
pub open spec fn is_plain_char(c: char) -> bool {
    plain_with(c, alphanumeric(c))
}

/// Each character's alphanumeric flag.
pub open spec fn alphanumeric_flags(v: Seq<char>) -> Seq<bool> {
    v.map_values(|c: char| alphanumeric(c))
}

/// An ASCII letter or digit.
pub open spec fn is_ascii_alnum(c: char) -> bool {
    ('a' <= c && c <= 'z') || ('A' <= c && c <= 'Z') || ('0' <= c && c <= '9')
}

/// The flags are right for the ASCII characters of `v`: set exactly on
/// letters and digits.
pub open spec fn ascii_flags_exact(v: Seq<char>, alnum: Seq<bool>) -> bool {
    forall|i: int| 0 <= i < v.len() && (v[i] as u32) < 128 ==> (#[trigger] alnum[i] <==> is_ascii_alnum(v[i]))
}

/// A value that needs no quoting, given each character's alphanumeric
/// flag: non-empty and made of plain characters.
pub open spec fn is_plain_word_with(v: Seq<char>, alnum: Seq<bool>) -> bool {
    v.len() > 0 && forall|i: int| 0 <= i < v.len() ==> plain_with(#[trigger] v[i], alnum[i])
}

/// A value that needs no quoting: non-empty and made of plain characters.
pub open spec fn is_plain_word(v: Seq<char>) -> bool {
    is_plain_word_with(v, alphanumeric_flags(v))
}

/// How one character is written inside single quotes: a single quote
/// closes the quoting, adds an escaped quote and reopens (`'\''`).
pub open spec fn escaped_char(c: char) -> Seq<char> {
    if c == '\'' {
        seq!['\'', '\\', '\'', '\'']
    } else {
        seq![c]
    }
}

/// The value with every character written as `escaped_char` says.
pub open spec fn escape_quotes(v: Seq<char>) -> Seq<char>
    decreases v.len(),
{
    if v.len() == 0 {
        Seq::empty()
    } else {
        escape_quotes(v.drop_last()) + escaped_char(v.last())
    }
}

/// The shell form of a value, given each character's alphanumeric flag:
/// plain words as they are, anything else in single quotes.
pub open spec fn quoted_with(v: Seq<char>, alnum: Seq<bool>) -> Seq<char> {
    if is_plain_word_with(v, alnum) {
        v
    } else {
        seq!['\''] + escape_quotes(v) + seq!['\'']
    }
}

/// The shell form of a value: plain words as they are, anything else in
/// single quotes.
pub open spec fn shell_quoted(v: Seq<char>) -> Seq<char> {
    quoted_with(v, alphanumeric_flags(v))
}

/// The value a POSIX shell reads from a word made of plain characters,
/// backslash escapes and single-quoted segments; `quoted` says whether
/// the word is read inside single quotes.
pub open spec fn shell_read(w: Seq<char>, quoted: bool) -> Seq<char>
    decreases w.len(),
{
    if w.len() == 0 {
        Seq::empty()
    } else if quoted {
        if w[0] == '\'' {
            shell_read(w.drop_first(), false)
        } else {
            seq![w[0]] + shell_read(w.drop_first(), true)
        }
    } else if w[0] == '\'' {
        shell_read(w.drop_first(), true)
    } else if w[0] == '\\' && w.len() >= 2 {
        seq![w[1]] + shell_read(w.skip(2), false)
    } else {
        seq![w[0]] + shell_read(w.drop_first(), false)
    }
}

/// The characters of a word that the shell reads bare: neither inside
/// single quotes nor escaped by a backslash. Only these can split the word,
/// end it, or start an expansion.
pub open spec fn bare_chars(w: Seq<char>, quoted: bool) -> Seq<char>
    decreases w.len(),
{
    if w.len() == 0 {
        Seq::empty()
    } else if quoted {
        bare_chars(w.drop_first(), w[0] != '\'')
    } else if w[0] == '\'' {
        bare_chars(w.drop_first(), true)
    } else if w[0] == '\\' && w.len() >= 2 {
        bare_chars(w.skip(2), false)
    } else {
        seq![w[0]] + bare_chars(w.drop_first(), false)
    }
}

/// Whether reading the word ends inside single quotes, that is, with a
/// quote left open.
pub open spec fn ends_quoted(w: Seq<char>, quoted: bool) -> bool
    decreases w.len(),
{
    if w.len() == 0 {
        quoted
    } else if quoted {
        ends_quoted(w.drop_first(), w[0] != '\'')
    } else if w[0] == '\'' {
        ends_quoted(w.drop_first(), true)
    } else if w[0] == '\\' && w.len() >= 2 {
        ends_quoted(w.skip(2), false)
    } else {
        ends_quoted(w.drop_first(), false)
    }
}

/// Characters a POSIX shell treats specially where they stand bare in a
/// word: the blanks that split words, the operator characters that end
/// one, the quoting characters, and those that start a parameter, command,
/// arithmetic, tilde, pathname or brace expansion, a history reference or
/// a comment.
pub open spec fn is_shell_special(c: char) -> bool {
    c == ' ' || c == '\t' || c == '\n' || c == '|' || c == '&' || c == ';' || c == '<' || c == '>'
        || c == '(' || c == ')' || c == '$' || c == '`' || c == '\\' || c == '"' || c == '\''
        || c == '*' || c == '?' || c == '[' || c == ']' || c == '#' || c == '~' || c == '{' || c
        == '}' || c == '!'
}

/// A POSIX shell reads `w` as exactly one word whose value is `v`, with
/// nothing expanded: `w` is not empty, its quotes are closed, none of its
/// bare characters is special (so nothing splits it, ends it or expands
/// in it), and quote removal leaves `v`.
pub open spec fn reads_as_word(w: Seq<char>, v: Seq<char>) -> bool {
    &&& w.len() > 0
    &&& !ends_quoted(w, false)
    &&& forall|i: int| 0 <= i < bare_chars(w, false).len() ==> !is_shell_special(
        #[trigger] bare_chars(w, false)[i],
    )
    &&& shell_read(w, false) == v
}

proof fn lemma_read_escaped(v: Seq<char>, tail: Seq<char>)
    ensures
        shell_read(escape_quotes(v) + tail, true) == v + shell_read(tail, true),
        bare_chars(escape_quotes(v) + tail, true) == bare_chars(tail, true),
        ends_quoted(escape_quotes(v) + tail, true) == ends_quoted(tail, true),
    decreases v.len(),
{
    if v.len() == 0 {
        assert(escape_quotes(v) + tail =~= tail);
        assert(v + shell_read(tail, true) =~= shell_read(tail, true));
    } else {
        let init = v.drop_last();
        let c = v.last();
        let piece = escaped_char(c);
        lemma_read_escaped(init, piece + tail);
        assert(escape_quotes(v) + tail =~= escape_quotes(init) + (piece + tail));
        if c == '\'' {
            let w = piece + tail;
            assert(w[0] == '\'');
            assert(w.drop_first() =~= seq!['\\', '\'', '\''] + tail);
            let w1 = w.drop_first();
            assert(w1[0] == '\\' && w1[1] == '\'');
            assert(w1.skip(2) =~= seq!['\''] + tail);
            let w2 = w1.skip(2);
            assert(w2[0] == '\'');
            assert(w2.drop_first() =~= tail);
            assert(shell_read(w2, false) == shell_read(tail, true));
            assert(shell_read(w1, false) == seq!['\''] + shell_read(w2, false));
            assert(shell_read(w, true) == shell_read(w1, false));
            assert(shell_read(w, true) == seq!['\''] + shell_read(tail, true));
            assert(bare_chars(w2, false) == bare_chars(tail, true));
            assert(bare_chars(w1, false) == bare_chars(w2, false));
            assert(bare_chars(w, true) == bare_chars(w1, false));
            assert(ends_quoted(w2, false) == ends_quoted(tail, true));
            assert(ends_quoted(w1, false) == ends_quoted(w2, false));
            assert(ends_quoted(w, true) == ends_quoted(w1, false));
        } else {
            let w = piece + tail;
            assert(w[0] == c);
            assert(w.drop_first() =~= tail);
        }
        assert(init + (seq![c] + shell_read(tail, true)) =~= v + shell_read(tail, true));
    }
}

/// A word without quotes or backslashes is read as it stands, all of it
/// bare.
proof fn lemma_read_plain(v: Seq<char>)
    requires
        forall|i: int| 0 <= i < v.len() ==> v[i] != '\'' && v[i] != '\\',
    ensures
        shell_read(v, false) == v,
        bare_chars(v, false) == v,
        !ends_quoted(v, false),
    decreases v.len(),
{
    if v.len() > 0 {
        lemma_read_plain(v.drop_first());
        assert(seq![v[0]] + v.drop_first() =~= v);
    }
}

/// A value in single quotes, its own quotes escaped, is one word with no
/// bare character, read back as the value.
proof fn lemma_single_quoted_word(v: Seq<char>)
    ensures
        reads_as_word(seq!['\''] + escape_quotes(v) + seq!['\''], v),
{
    let w = seq!['\''] + escape_quotes(v) + seq!['\''];
    assert(w[0] == '\'');
    assert(w.drop_first() =~= escape_quotes(v) + seq!['\'']);
    lemma_read_escaped(v, seq!['\'']);
    let t = seq!['\''];
    assert(t.drop_first() =~= Seq::<char>::empty());
    assert(shell_read(t, true) == shell_read(Seq::<char>::empty(), false));
    assert(bare_chars(t, true) == bare_chars(Seq::<char>::empty(), false));
    assert(ends_quoted(t, true) == ends_quoted(Seq::<char>::empty(), false));
    assert(v + Seq::<char>::empty() =~= v);
    assert(bare_chars(w, false) =~= Seq::<char>::empty());
}

/// A plain word whose flags are right for its ASCII characters holds no
/// special character, so it is one word read as it stands.
proof fn lemma_plain_word(v: Seq<char>, alnum: Seq<bool>)
    requires
        alnum.len() == v.len(),
        is_plain_word_with(v, alnum),
        ascii_flags_exact(v, alnum),
    ensures
        reads_as_word(v, v),
{
    assert forall|i: int| 0 <= i < v.len() implies !is_shell_special(v[i]) by {
        assert(plain_with(v[i], alnum[i]));
        if is_shell_special(v[i]) {
            assert((v[i] as u32) < 128);
            assert(!alnum[i]);
        }
    }
    lemma_read_plain(v);
}

/// The flag of each character of `value`: whether it is alphanumeric.
pub fn alnum_flags(value: &str) -> (r: Vec<bool>)
    ensures
        r@ == alphanumeric_flags(value@),
        ascii_flags_exact(value@, r@),
{
    let n = value.unicode_len();
    let mut r: Vec<bool> = Vec::new();
    let mut i: usize = 0;
    while i < n
        invariant
            n == value@.len(),
            i <= n,
            r@ =~= alphanumeric_flags(value@).take(i as int),
            forall|j: int| 0 <= j < i && (value@[j] as u32) < 128 ==> (#[trigger] r@[j] <==> is_ascii_alnum(value@[j])),
        decreases n - i,
    {
        let a = is_alphanumeric(value.get_char(i));
        r.push(a);
        i = i + 1;
    }
    r
}

/// Whether `value` is a plain word, given each character's alphanumeric
/// flag.
fn plain_word(value: &str, alnum: &Vec<bool>) -> (r: bool)
    requires
        alnum@.len() == value@.len(),
    ensures
        r == is_plain_word_with(value@, alnum@),
{
    let n = value.unicode_len();
    if n == 0 {
        return false;
    }
    let mut i: usize = 0;
    while i < n
        invariant
            n == value@.len(),
            n == alnum@.len(),
            i <= n,
            forall|j: int| 0 <= j < i ==> plain_with(#[trigger] value@[j], alnum@[j]),
        decreases n - i,
    {
        let c = value.get_char(i);
        if !(alnum[i] || c == '_' || c == '-' || c == '.' || c == '/' || c == ':' || c == '@' || c
            == '%' || c == '+') {
            return false;
        }
        i = i + 1;
    }
    true
}

/// Quote `value` for a shell command line, given the alphanumeric flag of
/// each of its characters. When the flags are right for its ASCII
/// characters, a POSIX shell reads the result as exactly one word,
/// `value`, with nothing expanded.
pub fn quote_flagged(value: &str, alnum: &Vec<bool>) -> (r: String)
    requires
        alnum@.len() == value@.len(),
    ensures
        r@ == quoted_with(value@, alnum@),
        ascii_flags_exact(value@, alnum@) ==> reads_as_word(r@, value@),
{
    if plain_word(value, alnum) {
        proof {
            if ascii_flags_exact(value@, alnum@) {
                lemma_plain_word(value@, alnum@);
            }
        }
        return value.to_owned();
    }
    let mut out = String::new();
    push_char(&mut out, '\'');
    let mut cs = value.chars();
    let ghost mut done: Seq<char> = Seq::empty();
    loop
        invariant
            value@ == done + cs.remaining(),
            out@ == seq!['\''] + escape_quotes(done),
            cs.decrease() is Some,
        ensures
            done == value@,
            out@ == seq!['\''] + escape_quotes(done),
        decreases cs.decrease()->0,
    {
        match cs.next() {
            None => {
                assert(done =~= value@);
                break;
            },
            Some(c) => {
                if c == '\'' {
                    push_char(&mut out, '\'');
                    push_char(&mut out, '\\');
                    push_char(&mut out, '\'');
                    push_char(&mut out, '\'');
                } else {
                    push_char(&mut out, c);
                }
                proof {
                    assert(value@ =~= done.push(c) + cs.remaining());
                    assert(done.push(c).drop_last() =~= done);
                    assert(out@ =~= seq!['\''] + escape_quotes(done.push(c)));
                    done = done.push(c);
                }
            },
        }
    }
    push_char(&mut out, '\'');
    assert(out@ =~= seq!['\''] + escape_quotes(value@) + seq!['\'']);
    proof {
        lemma_single_quoted_word(value@);
    }
    out
}

/// Quote `value` for safe inclusion in a shell command line: a POSIX shell
/// reads the result as exactly one word, `value`, with nothing expanded.
pub fn shell_quote(value: &str) -> (r: String)
    ensures
        r@ == shell_quoted(value@),
        reads_as_word(r@, value@),
        ascii_flags_exact(value@, alphanumeric_flags(value@)),
{
    let alnum = alnum_flags(value);
    quote_flagged(value, &alnum)
}

} // verus!
