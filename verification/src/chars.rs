//! Character classification and text utilities shared by the lexer, the
//! parser and the document builder: trimming, word splitting, ASCII
//! uppercasing and attribute escaping, each with an exact specification.

use vstd::prelude::*;

verus! {

// ---------------------------------------------------------------------------
// Character classes
// ---------------------------------------------------------------------------

/// What `char::is_whitespace` returns: a function of the character alone.
pub uninterp spec fn white(c: char) -> bool;

/// Relies on `char::is_whitespace`: the Unicode `White_Space` property, a pure
/// function of the character; space, tab, line feed and carriage return are
/// documented members.
#[verifier::external_body]
pub fn is_white(c: char) -> (r: bool)
    ensures
        r == white(c),
        c == ' ' || c == '\t' || c == '\n' || c == '\r' ==> r,
{
    c.is_whitespace()
}

/// What `char::is_alphabetic` returns: a function of the character alone.
pub uninterp spec fn alpha(c: char) -> bool;

/// Relies on `char::is_alphabetic`: the Unicode `Alphabetic` property, a pure
/// function of the character.
#[verifier::external_body]
pub fn is_alpha(c: char) -> (r: bool)
    ensures
        r == alpha(c),
{
    c.is_alphabetic()
}

/// What `char::is_alphanumeric` returns: a function of the character alone.
pub uninterp spec fn alnum(c: char) -> bool;

/// Relies on `char::is_alphanumeric`: true exactly when the character is
/// alphabetic or numeric, a pure function of the character.
#[verifier::external_body]
pub fn is_alnum(c: char) -> (r: bool)
    ensures
        r == alnum(c),
{
    c.is_alphanumeric()
}

/// The characters the lexer skips between lexemes.
pub open spec fn break_ws(c: char) -> bool {
    c == ' ' || c == '\t' || c == '\n' || c == '\r'
}

pub fn is_break_ws(c: char) -> (r: bool)
    ensures
        r == break_ws(c),
{
    c == ' ' || c == '\t' || c == '\n' || c == '\r'
}

/// The characters a bare word may contain: identifiers, keywords and
/// URL-like tokens.
pub open spec fn word_char(c: char) -> bool {
    alnum(c) || c == '/' || c == ':' || c == '.' || c == '_'
}

pub fn is_word_char(c: char) -> (r: bool)
    ensures
        r == word_char(c),
{
    is_alnum(c) || c == '/' || c == ':' || c == '.' || c == '_'
}

// ---------------------------------------------------------------------------
// Conversions between `str`, `String` and `Vec<char>`
// ---------------------------------------------------------------------------

/// Relies on `str::chars`: yields exactly the characters of the string, in
/// order.
#[verifier::external_body]
pub fn str_to_chars(s: &str) -> (v: Vec<char>)
    ensures
        v@ == s@,
{
    s.chars().collect()
}

/// Relies on `String as FromIterator<char>`: collecting characters builds the
/// string of exactly those characters, in order.
#[verifier::external_body]
pub fn chars_to_string(v: &Vec<char>) -> (s: String)
    ensures
        s@ == v@,
{
    v.iter().collect()
}

/// Compare a character vector against a string slice.
pub fn ceq(v: &Vec<char>, s: &str) -> (r: bool)
    ensures
        r == (v@ == s@),
{
    let n = s.unicode_len();
    if v.len() != n {
        return false;
    }
    let mut i: usize = 0;
    while i < n
        invariant
            i <= n,
            v@.len() == n as int,
            s@.len() == n as int,
            forall|j: int| 0 <= j < i ==> v@[j] == s@[j],
        decreases n - i,
    {
        if v[i] != s.get_char(i) {
            return false;
        }
        i += 1;
    }
    proof {
        assert(v@ =~= s@);
    }
    true
}

// ---------------------------------------------------------------------------
// ASCII uppercasing
// ---------------------------------------------------------------------------

pub open spec fn upper_char(c: char) -> char {
    if 'a' <= c && c <= 'z' {
        (((c as u8) - 32) as char)
    } else {
        c
    }
}

pub fn to_upper_char(c: char) -> (r: char)
    ensures
        r == upper_char(c),
{
    if 'a' <= c && c <= 'z' {
        ((c as u8) - 32) as char
    } else {
        c
    }
}

pub open spec fn upper_seq(s: Seq<char>) -> Seq<char> {
    Seq::new(s.len(), |i: int| upper_char(s[i]))
}

pub fn upper_vec(v: &Vec<char>) -> (r: Vec<char>)
    ensures
        r@ == upper_seq(v@),
{
    let n = v.len();
    let mut r: Vec<char> = Vec::new();
    let mut i: usize = 0;
    while i < n
        invariant
            i <= n,
            n == v@.len(),
            r@ =~= upper_seq(v@).take(i as int),
        decreases n - i,
    {
        let c = to_upper_char(v[i]);
        r.push(c);
        i += 1;
    }
    proof {
        assert(r@ =~= upper_seq(v@));
    }
    r
}

// ---------------------------------------------------------------------------
// Trimming
// ---------------------------------------------------------------------------

/// First index at or after `i` whose character is not whitespace.
pub open spec fn white_end(s: Seq<char>, i: nat) -> nat
    decreases s.len() - i when i <= s.len()
{
    if i < s.len() && white(s[i as int]) {
        white_end(s, i + 1)
    } else {
        i
    }
}

pub proof fn lemma_white_end(s: Seq<char>, i: nat)
    requires
        i <= s.len(),
    ensures
        i <= white_end(s, i) <= s.len(),
        forall|j: int| i <= j < white_end(s, i) ==> white(s[j]),
        white_end(s, i) < s.len() ==> !white(s[white_end(s, i) as int]),
    decreases s.len() - i,
{
    if i < s.len() && white(s[i as int]) {
        lemma_white_end(s, i + 1);
    }
}

/// Largest index `j <= i` such that every character in `s[j..i]` is
/// whitespace.
pub open spec fn white_rend(s: Seq<char>, i: nat) -> nat
    decreases i when i <= s.len()
{
    if 0 < i && i <= s.len() && white(s[i - 1]) {
        white_rend(s, (i - 1) as nat)
    } else {
        i
    }
}

pub proof fn lemma_white_rend(s: Seq<char>, i: nat)
    requires
        i <= s.len(),
    ensures
        white_rend(s, i) <= i,
        forall|j: int| white_rend(s, i) <= j < i ==> white(s[j]),
        0 < white_rend(s, i) ==> !white(s[white_rend(s, i) - 1]),
    decreases i,
{
    if 0 < i && white(s[i - 1]) {
        lemma_white_rend(s, (i - 1) as nat);
    }
}

/// The text with surrounding whitespace removed.
pub open spec fn spec_trim(s: Seq<char>) -> Seq<char> {
    let f = white_end(s, 0);
    let t = white_rend(s, s.len());
    if f <= t {
        s.subrange(f as int, t as int)
    } else {
        Seq::empty()
    }
}

pub fn trim_chars(v: &Vec<char>) -> (r: Vec<char>)
    ensures
        r@ == spec_trim(v@),
{
    let n = v.len();
    let mut f: usize = 0;
    while f < n && is_white(v[f])
        invariant
            f <= n,
            n == v@.len(),
            white_end(v@, 0) == white_end(v@, f as nat),
        decreases n - f,
    {
        f += 1;
    }
    proof {
        assert(white_end(v@, f as nat) == f as nat);
        lemma_white_end(v@, 0);
    }
    let mut t: usize = n;
    while t > 0 && is_white(v[t - 1])
        invariant
            t <= n,
            n == v@.len(),
            white_rend(v@, n as nat) == white_rend(v@, t as nat),
        decreases t,
    {
        t -= 1;
    }
    proof {
        assert(white_rend(v@, t as nat) == t as nat);
        lemma_white_rend(v@, n as nat);
    }
    let mut r: Vec<char> = Vec::new();
    if f >= t {
        proof {
            assert(r@ =~= spec_trim(v@));
        }
        return r;
    }
    let mut i: usize = f;
    while i < t
        invariant
            f <= i <= t <= n,
            n == v@.len(),
            r@ == v@.subrange(f as int, i as int),
        decreases t - i,
    {
        let c = v[i];
        r.push(c);
        proof {
            assert(r@ =~= v@.subrange(f as int, i + 1 as int));
        }
        i += 1;
    }
    proof {
        assert(r@ =~= spec_trim(v@));
    }
    r
}

// ---------------------------------------------------------------------------
// Newline normalization and word splitting
// ---------------------------------------------------------------------------

pub open spec fn norm_char(c: char) -> char {
    if c == '\n' || c == '\r' {
        ' '
    } else {
        c
    }
}

/// Embedded line breaks replaced by spaces.
pub open spec fn spec_norm(s: Seq<char>) -> Seq<char> {
    Seq::new(s.len(), |i: int| norm_char(s[i]))
}

pub fn norm_chars(v: &Vec<char>) -> (r: Vec<char>)
    ensures
        r@ == spec_norm(v@),
{
    let n = v.len();
    let mut r: Vec<char> = Vec::new();
    let mut i: usize = 0;
    while i < n
        invariant
            i <= n,
            n == v@.len(),
            r@ =~= spec_norm(v@).take(i as int),
        decreases n - i,
    {
        let c = v[i];
        if c == '\n' || c == '\r' {
            r.push(' ');
        } else {
            r.push(c);
        }
        i += 1;
    }
    proof {
        assert(r@ =~= spec_norm(v@));
    }
    r
}

/// First index at or after `i` whose character is whitespace.
pub open spec fn nonwhite_end(s: Seq<char>, i: nat) -> nat
    decreases s.len() - i when i <= s.len()
{
    if i < s.len() && !white(s[i as int]) {
        nonwhite_end(s, i + 1)
    } else {
        i
    }
}

pub proof fn lemma_nonwhite_end(s: Seq<char>, i: nat)
    requires
        i <= s.len(),
    ensures
        i <= nonwhite_end(s, i) <= s.len(),
        forall|j: int| i <= j < nonwhite_end(s, i) ==> !white(s[j]),
        nonwhite_end(s, i) < s.len() ==> white(s[nonwhite_end(s, i) as int]),
        i < s.len() && !white(s[i as int]) ==> nonwhite_end(s, i) > i,
    decreases s.len() - i,
{
    if i < s.len() && !white(s[i as int]) {
        lemma_nonwhite_end(s, i + 1);
    }
}

/// The whitespace-separated words of `s` from index `i` on.
pub open spec fn spec_words(s: Seq<char>, i: nat) -> Seq<Seq<char>>
    decreases s.len() - i when i <= s.len() via spec_words_dec
{
    if i >= s.len() {
        Seq::empty()
    } else if white(s[i as int]) {
        spec_words(s, i + 1)
    } else {
        seq![s.subrange(i as int, nonwhite_end(s, i) as int)] + spec_words(s, nonwhite_end(s, i))
    }
}

#[via_fn]
proof fn spec_words_dec(s: Seq<char>, i: nat) {
    if i < s.len() && !white(s[i as int]) {
        lemma_nonwhite_end(s, i);
    }
}

/// Split into maximal runs of non-whitespace characters.
pub fn split_words(v: &Vec<char>) -> (r: Vec<Vec<char>>)
    ensures
        r.deep_view() == spec_words(v@, 0),
{
    let n = v.len();
    let mut r: Vec<Vec<char>> = Vec::new();
    let mut i: usize = 0;
    while i < n
        invariant
            i <= n,
            n == v@.len(),
            r.deep_view() + spec_words(v@, i as nat) =~= spec_words(v@, 0),
        decreases n - i,
    {
        if is_white(v[i]) {
            i += 1;
        } else {
            let start = i;
            let mut w: Vec<char> = Vec::new();
            while i < n && !is_white(v[i])
                invariant
                    start <= i <= n,
                    n == v@.len(),
                    !white(v@[start as int]),
                    start < n,
                    nonwhite_end(v@, start as nat) == nonwhite_end(v@, i as nat),
                    w@ == v@.subrange(start as int, i as int),
                decreases n - i,
            {
                let c = v[i];
                w.push(c);
                proof {
                    assert(w@ =~= v@.subrange(start as int, i + 1 as int));
                }
                i += 1;
            }
            proof {
                assert(nonwhite_end(v@, i as nat) == i as nat);
                lemma_nonwhite_end(v@, start as nat);
            }
            let ghost old_r = r.deep_view();
            r.push(w);
            proof {
                assert(r.deep_view() =~~= old_r.push(w@));
                assert(spec_words(v@, start as nat) == seq![w@] + spec_words(v@, i as nat));
                assert(r.deep_view() + spec_words(v@, i as nat) =~~= old_r + spec_words(
                    v@,
                    start as nat,
                ));
            }
        }
    }
    proof {
        assert(r.deep_view() =~~= spec_words(v@, 0));
    }
    r
}

// ---------------------------------------------------------------------------
// Attribute escaping
// ---------------------------------------------------------------------------

/// How one character appears inside an escaped attribute value.
pub open spec fn esc_char(c: char) -> Seq<char> {
    if c == '&' {
        seq!['&', 'a', 'm', 'p', ';']
    } else if c == '<' {
        seq!['&', 'l', 't', ';']
    } else if c == '>' {
        seq!['&', 'g', 't', ';']
    } else if c == '"' {
        seq!['&', 'q', 'u', 'o', 't', ';']
    } else if c == '\'' {
        seq!['&', '#', '3', '9', ';']
    } else {
        seq![c]
    }
}

/// The text with `& < > " '` replaced by character references.
pub open spec fn spec_escape(s: Seq<char>) -> Seq<char>
    decreases s.len(),
{
    if s.len() == 0 {
        Seq::empty()
    } else {
        esc_char(s[0]) + spec_escape(s.drop_first())
    }
}

pub proof fn lemma_escape_take(s: Seq<char>, i: int)
    requires
        0 <= i < s.len(),
    ensures
        spec_escape(s.take(i + 1)) == spec_escape(s.take(i)) + esc_char(s[i]),
    decreases i,
{
    if i == 0 {
        assert(s.take(1).drop_first() =~= s.take(0));
        assert(spec_escape(s.take(0)) + esc_char(s[0]) =~= esc_char(s[0]) + spec_escape(
            s.take(1).drop_first(),
        ));
    } else {
        assert(s.take(i + 1).drop_first() =~= s.drop_first().take(i));
        assert(s.take(i).drop_first() =~= s.drop_first().take(i - 1));
        lemma_escape_take(s.drop_first(), i - 1);
        assert(s.take(i + 1)[0] == s[0]);
        assert(s.take(i)[0] == s[0]);
        assert(s.drop_first()[i - 1] == s[i]);
        assert(esc_char(s[0]) + (spec_escape(s.drop_first().take(i - 1)) + esc_char(s[i]))
            =~= (esc_char(s[0]) + spec_escape(s.drop_first().take(i - 1))) + esc_char(s[i]));
    }
}

pub fn escape_chars(v: &Vec<char>) -> (r: Vec<char>)
    ensures
        r@ == spec_escape(v@),
{
    let n = v.len();
    let mut r: Vec<char> = Vec::new();
    let mut i: usize = 0;
    proof {
        assert(v@.take(0) =~= Seq::<char>::empty());
    }
    while i < n
        invariant
            i <= n,
            n == v@.len(),
            r@ == spec_escape(v@.take(i as int)),
        decreases n - i,
    {
        let ghost old_r = r@;
        let c = v[i];
        if c == '&' {
            r.push('&');
            r.push('a');
            r.push('m');
            r.push('p');
            r.push(';');
        } else if c == '<' {
            r.push('&');
            r.push('l');
            r.push('t');
            r.push(';');
        } else if c == '>' {
            r.push('&');
            r.push('g');
            r.push('t');
            r.push(';');
        } else if c == '"' {
            r.push('&');
            r.push('q');
            r.push('u');
            r.push('o');
            r.push('t');
            r.push(';');
        } else if c == '\'' {
            r.push('&');
            r.push('#');
            r.push('3');
            r.push('9');
            r.push(';');
        } else {
            r.push(c);
        }
        proof {
            assert(r@ =~= old_r + esc_char(v@[i as int]));
            lemma_escape_take(v@, i as int);
        }
        i += 1;
    }
    proof {
        assert(v@.take(n as int) =~= v@);
    }
    r
}

/// An escaped attribute value never contains a raw quote, apostrophe or angle
/// bracket: every occurrence of those characters in the source appears as a
/// character reference instead.
pub proof fn lemma_escape_attr_safe(s: Seq<char>)
    ensures
        forall|j: int|
            0 <= j < spec_escape(s).len() ==> #[trigger] spec_escape(s)[j] != '"'
                && spec_escape(s)[j] != '\'' && spec_escape(s)[j] != '<' && spec_escape(s)[j]
                != '>',
    decreases s.len(),
{
    if s.len() > 0 {
        lemma_escape_attr_safe(s.drop_first());
        assert forall|j: int| 0 <= j < spec_escape(s).len() implies #[trigger] spec_escape(s)[j]
            != '"' && spec_escape(s)[j] != '\'' && spec_escape(s)[j] != '<' && spec_escape(s)[j]
            != '>' by {
            let head = esc_char(s[0]);
            if j < head.len() {
                assert(spec_escape(s)[j] == head[j]);
            } else {
                assert(spec_escape(s)[j] == spec_escape(s.drop_first())[j - head.len()]);
            }
        }
    }
}

} // verus!
