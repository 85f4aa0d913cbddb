//! Pull-based lexical analysis.  `next_token` skips whitespace and produces
//! exactly one token per call from a character cursor; its result is pinned
//! down by `spec_next_token`.  Malformed input never yields a token: every
//! such path returns a lexical error instead.

use vstd::prelude::*;

use crate::chars::{
    alnum, alpha, break_ws, is_alpha, is_break_ws, is_word_char, spec_trim, str_to_chars,
    to_upper_char, trim_chars, upper_seq,
};
use crate::error::{CompileError, ErrorKind};
use crate::token::{Token, TokenV};

verus! {

// ---------------------------------------------------------------------------
// Scan boundaries
// ---------------------------------------------------------------------------

/// First index at or after `i` whose character is not a lexeme break.
pub open spec fn bws_end(s: Seq<char>, i: nat) -> nat
    decreases s.len() - i when i <= s.len()
{
    if i < s.len() && break_ws(s[i as int]) {
        bws_end(s, i + 1)
    } else {
        i
    }
}

pub proof fn lemma_bws_end(s: Seq<char>, i: nat)
    requires
        i <= s.len(),
    ensures
        i <= bws_end(s, i) <= s.len(),
    decreases s.len() - i,
{
    if i < s.len() && break_ws(s[i as int]) {
        lemma_bws_end(s, i + 1);
    }
}

/// First index at or after `i` whose character is not alphabetic.
pub open spec fn alpha_end(s: Seq<char>, i: nat) -> nat
    decreases s.len() - i when i <= s.len()
{
    if i < s.len() && alpha(s[i as int]) {
        alpha_end(s, i + 1)
    } else {
        i
    }
}

pub proof fn lemma_alpha_end(s: Seq<char>, i: nat)
    requires
        i <= s.len(),
    ensures
        i <= alpha_end(s, i) <= s.len(),
    decreases s.len() - i,
{
    if i < s.len() && alpha(s[i as int]) {
        lemma_alpha_end(s, i + 1);
    }
}

/// A character a bare word may contain, starting from an alphabetic one.
pub open spec fn wordish(c: char) -> bool {
    alpha(c) || alnum(c) || c == '/' || c == ':' || c == '.' || c == '_'
}

pub fn is_wordish(c: char) -> (r: bool)
    ensures
        r == wordish(c),
{
    is_alpha(c) || is_word_char(c)
}

/// First index at or after `i` whose character cannot continue a bare word.
pub open spec fn wordish_end(s: Seq<char>, i: nat) -> nat
    decreases s.len() - i when i <= s.len()
{
    if i < s.len() && wordish(s[i as int]) {
        wordish_end(s, i + 1)
    } else {
        i
    }
}

pub proof fn lemma_wordish_end(s: Seq<char>, i: nat)
    requires
        i <= s.len(),
    ensures
        i <= wordish_end(s, i) <= s.len(),
        i < s.len() && wordish(s[i as int]) ==> wordish_end(s, i) > i,
    decreases s.len() - i,
{
    if i < s.len() && wordish(s[i as int]) {
        lemma_wordish_end(s, i + 1);
    }
}

/// First index at or after `i` holding the tag sigil, or the end of input.
pub open spec fn nothash_end(s: Seq<char>, i: nat) -> nat
    decreases s.len() - i when i <= s.len()
{
    if i < s.len() && s[i as int] != '#' {
        nothash_end(s, i + 1)
    } else {
        i
    }
}

pub proof fn lemma_nothash_end(s: Seq<char>, i: nat)
    requires
        i <= s.len(),
    ensures
        i <= nothash_end(s, i) <= s.len(),
        i < s.len() && s[i as int] != '#' ==> nothash_end(s, i) > i,
    decreases s.len() - i,
{
    if i < s.len() && s[i as int] != '#' {
        lemma_nothash_end(s, i + 1);
    }
}

// ---------------------------------------------------------------------------
// The token at a position
// ---------------------------------------------------------------------------

/// The outcome of one pull on the lexer: a token and the position after it,
/// or a lexical failure.
pub enum LexStep {
    Fail,
    Next(TokenV, nat),
}

/// Which token a bare word denotes: one of the ten keywords, compared after
/// ASCII uppercasing, or free text carrying the original casing.
pub open spec fn keyword_or_text(w: Seq<char>) -> TokenV {
    let u = upper_seq(w);
    if u == "HEAD"@ {
        TokenV::Head
    } else if u == "TITLE"@ {
        TokenV::Title
    } else if u == "PARAGRAF"@ {
        TokenV::Paragraf
    } else if u == "BOLD"@ {
        TokenV::Bold
    } else if u == "ITALICS"@ {
        TokenV::Italics
    } else if u == "LIST"@ {
        TokenV::List
    } else if u == "ITEM"@ {
        TokenV::Item
    } else if u == "NEWLINE"@ {
        TokenV::Newline
    } else if u == "SOUNDZ"@ {
        TokenV::Soundz
    } else if u == "VIDZ"@ {
        TokenV::Vidz
    } else {
        TokenV::Text(w)
    }
}

/// The second word of a two-word tag: whitespace, then an alphabetic run that
/// must uppercase to `expected`.
pub open spec fn spec_second_word(s: Seq<char>, j: nat, expected: Seq<char>, t: TokenV) -> LexStep {
    let k = bws_end(s, j);
    let j2 = alpha_end(s, k);
    if upper_seq(s.subrange(k as int, j2 as int)) == expected {
        LexStep::Next(t, j2)
    } else {
        LexStep::Fail
    }
}

/// The tag starting after a sigil at `i - 1`: an alphabetic run, uppercased;
/// three lead words demand an exact second word; all other spellings map to
/// their token or fail.
pub open spec fn spec_tag_token(s: Seq<char>, i: nat) -> LexStep {
    let j = alpha_end(s, i);
    let w = upper_seq(s.subrange(i as int, j as int));
    if w == "I"@ {
        spec_second_word(s, j, "HAZ"@, TokenV::HashIHaz)
    } else if w == "IT"@ {
        spec_second_word(s, j, "IZ"@, TokenV::HashItIz)
    } else if w == "LEMME"@ {
        spec_second_word(s, j, "SEE"@, TokenV::HashLemmeSee)
    } else if w == "HAI"@ {
        LexStep::Next(TokenV::HashHai, j)
    } else if w == "KTHXBYE"@ {
        LexStep::Next(TokenV::HashKthxbye, j)
    } else if w == "OBTW"@ {
        LexStep::Next(TokenV::HashObtW, j)
    } else if w == "TLDR"@ {
        LexStep::Next(TokenV::HashTldr, j)
    } else if w == "MAEK"@ {
        LexStep::Next(TokenV::HashMaek, j)
    } else if w == "OIC"@ {
        LexStep::Next(TokenV::HashOic, j)
    } else if w == "GIMMEH"@ {
        LexStep::Next(TokenV::HashGimmeh, j)
    } else if w == "MKAY"@ {
        LexStep::Next(TokenV::HashMKay, j)
    } else {
        LexStep::Fail
    }
}

/// The token the lexer produces at position `pos`, and the position after it.
pub open spec fn spec_next_token(s: Seq<char>, pos: nat) -> LexStep {
    let i = bws_end(s, pos);
    if i >= s.len() {
        LexStep::Next(TokenV::Eof, i)
    } else if s[i as int] == '#' {
        spec_tag_token(s, i + 1)
    } else if alpha(s[i as int]) {
        let j = wordish_end(s, i);
        LexStep::Next(keyword_or_text(s.subrange(i as int, j as int)), j)
    } else {
        let j = nothash_end(s, i);
        let t = spec_trim(s.subrange(i as int, j as int));
        if t.len() == 0 {
            LexStep::Next(TokenV::Eof, j)
        } else {
            LexStep::Next(TokenV::Text(t), j)
        }
    }
}

/// Producing a token never moves the cursor backwards or past the end, and
/// producing anything but the end marker moves it strictly forwards.
pub proof fn lemma_next_token_bounds(s: Seq<char>, pos: nat)
    requires
        pos <= s.len(),
    ensures
        match spec_next_token(s, pos) {
            LexStep::Next(t, p) => pos <= p <= s.len() && (!(t is Eof) ==> p > pos),
            LexStep::Fail => true,
        },
{
    lemma_bws_end(s, pos);
    let i = bws_end(s, pos);
    if i >= s.len() {
    } else if s[i as int] == '#' {
        lemma_alpha_end(s, i + 1);
        let j = alpha_end(s, i + 1);
        lemma_bws_end(s, j);
        let k = bws_end(s, j);
        lemma_alpha_end(s, k);
    } else if alpha(s[i as int]) {
        lemma_wordish_end(s, i);
    } else {
        lemma_nothash_end(s, i);
    }
}

// ---------------------------------------------------------------------------
// The lexer
// ---------------------------------------------------------------------------

/// The abstract state of the lexer: the input characters and the cursor.
pub struct LexerV {
    pub chars: Seq<char>,
    pub pos: nat,
}

/// Lexer state: the input as characters, immutable for the run, and a cursor.
pub struct Lexer {
    chars: Vec<char>,
    pos: usize,
}

impl View for Lexer {
    type V = LexerV;

    closed spec fn view(&self) -> LexerV {
        LexerV { chars: self.chars@, pos: self.pos as nat }
    }
}

impl Lexer {
    /// The cursor never passes the end of the input.
    pub open spec fn wf(&self) -> bool {
        self@.pos <= self@.chars.len()
    }

    pub fn new(input: &str) -> (l: Lexer)
        ensures
            l.wf(),
            l@.chars == input@,
            l@.pos == 0,
    {
        Lexer { chars: str_to_chars(input), pos: 0 }
    }

    /// The current cursor position, for error reports.
    pub fn position(&self) -> (p: usize)
        ensures
            p == self@.pos,
    {
        self.pos
    }

    /// The character under the cursor, if any, without consuming it.
    fn peek(&self) -> (r: Option<char>)
        ensures
            r == if self@.pos < self@.chars.len() {
                Some(self@.chars[self@.pos as int])
            } else {
                None::<char>
            },
    {
        if self.pos < self.chars.len() {
            Some(self.chars[self.pos])
        } else {
            None
        }
    }

    /// Consume and return the character under the cursor, if any.
    fn advance(&mut self) -> (r: Option<char>)
        requires
            old(self).wf(),
        ensures
            final(self).wf(),
            final(self)@.chars == old(self)@.chars,
            old(self)@.pos < old(self)@.chars.len() ==> final(self)@.pos == old(self)@.pos + 1 && r
                == Some(old(self)@.chars[old(self)@.pos as int]),
            old(self)@.pos >= old(self)@.chars.len() ==> final(self)@ == old(self)@ && r
                == None::<char>,
    {
        if self.pos >= self.chars.len() {
            return None;
        }
        let c = self.chars[self.pos];
        self.pos += 1;
        Some(c)
    }

    /// Skip horizontal and vertical whitespace before the next lexeme.
    fn skip_ws(&mut self)
        requires
            old(self).wf(),
        ensures
            final(self).wf(),
            final(self)@.chars == old(self)@.chars,
            final(self)@.pos == bws_end(old(self)@.chars, old(self)@.pos),
    {
        let n = self.chars.len();
        while self.pos < n && is_break_ws(self.chars[self.pos])
            invariant
                self.wf(),
                n == self@.chars.len(),
                self@.chars == old(self)@.chars,
                bws_end(self@.chars, old(self)@.pos) == bws_end(self@.chars, self@.pos),
            decreases n - self.pos,
        {
            self.pos += 1;
        }
    }

    /// Read a maximal bare-word run: keywords, identifiers and URL-like
    /// tokens.
    fn read_word(&mut self) -> (w: Vec<char>)
        requires
            old(self).wf(),
        ensures
            final(self).wf(),
            final(self)@.chars == old(self)@.chars,
            final(self)@.pos == wordish_end(old(self)@.chars, old(self)@.pos),
            w@ == old(self)@.chars.subrange(old(self)@.pos as int, final(self)@.pos as int),
    {
        let mut out: Vec<char> = Vec::new();
        let n = self.chars.len();
        while self.pos < n && is_wordish(self.chars[self.pos])
            invariant
                self.wf(),
                n == self@.chars.len(),
                self@.chars == old(self)@.chars,
                old(self)@.pos <= self@.pos,
                wordish_end(self@.chars, old(self)@.pos) == wordish_end(self@.chars, self@.pos),
                out@ == self@.chars.subrange(old(self)@.pos as int, self@.pos as int),
            decreases n - self.pos,
        {
            let c = self.chars[self.pos];
            out.push(c);
            self.pos += 1;
            proof {
                assert(out@ =~= self@.chars.subrange(old(self)@.pos as int, self@.pos as int));
            }
        }
        out
    }

    /// Read the alphabetic word that follows the tag sigil, uppercased for
    /// matching.
    fn read_tag_word_upper(&mut self) -> (w: Vec<char>)
        requires
            old(self).wf(),
        ensures
            final(self).wf(),
            final(self)@.chars == old(self)@.chars,
            final(self)@.pos == alpha_end(old(self)@.chars, old(self)@.pos),
            w@ == upper_seq(
                old(self)@.chars.subrange(old(self)@.pos as int, final(self)@.pos as int),
            ),
    {
        let mut out: Vec<char> = Vec::new();
        let n = self.chars.len();
        while self.pos < n && is_alpha(self.chars[self.pos])
            invariant
                self.wf(),
                n == self@.chars.len(),
                self@.chars == old(self)@.chars,
                old(self)@.pos <= self@.pos,
                alpha_end(self@.chars, old(self)@.pos) == alpha_end(self@.chars, self@.pos),
                out@ == upper_seq(
                    self@.chars.subrange(old(self)@.pos as int, self@.pos as int),
                ),
            decreases n - self.pos,
        {
            let c = to_upper_char(self.chars[self.pos]);
            out.push(c);
            self.pos += 1;
            proof {
                assert(out@ =~= upper_seq(
                    self@.chars.subrange(old(self)@.pos as int, self@.pos as int),
                ));
            }
        }
        out
    }

    /// Read verbatim text, embedded line breaks included, up to the next tag
    /// sigil or the end of input; surrounding whitespace is trimmed away.
    fn read_until_mkay_or_eol(&mut self) -> (t: Vec<char>)
        requires
            old(self).wf(),
        ensures
            final(self).wf(),
            final(self)@.chars == old(self)@.chars,
            final(self)@.pos == nothash_end(old(self)@.chars, old(self)@.pos),
            t@ == spec_trim(
                old(self)@.chars.subrange(old(self)@.pos as int, final(self)@.pos as int),
            ),
    {
        let mut out: Vec<char> = Vec::new();
        let n = self.chars.len();
        while self.pos < n && self.chars[self.pos] != '#'
            invariant
                self.wf(),
                n == self@.chars.len(),
                self@.chars == old(self)@.chars,
                old(self)@.pos <= self@.pos,
                nothash_end(self@.chars, old(self)@.pos) == nothash_end(self@.chars, self@.pos),
                out@ == self@.chars.subrange(old(self)@.pos as int, self@.pos as int),
            decreases n - self.pos,
        {
            let c = self.chars[self.pos];
            out.push(c);
            self.pos += 1;
            proof {
                assert(out@ =~= self@.chars.subrange(old(self)@.pos as int, self@.pos as int));
            }
        }
        trim_chars(&out)
    }

    /// Produce the next token, or a lexical error for a malformed or
    /// unrecognized tag.  The result and the new cursor position are exactly
    /// `spec_next_token` at the old position; an end-of-input token leaves the
    /// cursor where the remaining text is blank, every other token moves it
    /// strictly forward.
    pub fn next_token(&mut self) -> (r: Result<Token, CompileError>)
        requires
            old(self).wf(),
        ensures
            final(self).wf(),
            final(self)@.chars == old(self)@.chars,
            match spec_next_token(old(self)@.chars, old(self)@.pos) {
                LexStep::Next(tv, p) => r is Ok && r->Ok_0@ == tv && final(self)@.pos == p
                    && old(self)@.pos <= p && (!(tv is Eof) ==> p > old(self)@.pos),
                LexStep::Fail => r is Err && r->Err_0.kind == ErrorKind::Lexical,
            },
    {
        proof {
            lemma_next_token_bounds(old(self)@.chars, old(self)@.pos);
        }
        self.skip_ws();
        let c0 = match self.peek() {
            None => {
                return Ok(Token::Eof);
            },
            Some(c) => c,
        };
        if c0 == '#' {
            let _ = self.advance();
            let w = self.read_tag_word_upper();
            if crate::chars::ceq(&w, "I") {
                self.skip_ws();
                let w2 = self.read_tag_word_upper();
                if crate::chars::ceq(&w2, "HAZ") {
                    Ok(Token::HashIHaz)
                } else {
                    Err(CompileError::new(ErrorKind::Lexical, self.pos))
                }
            } else if crate::chars::ceq(&w, "IT") {
                self.skip_ws();
                let w2 = self.read_tag_word_upper();
                if crate::chars::ceq(&w2, "IZ") {
                    Ok(Token::HashItIz)
                } else {
                    Err(CompileError::new(ErrorKind::Lexical, self.pos))
                }
            } else if crate::chars::ceq(&w, "LEMME") {
                self.skip_ws();
                let w2 = self.read_tag_word_upper();
                if crate::chars::ceq(&w2, "SEE") {
                    Ok(Token::HashLemmeSee)
                } else {
                    Err(CompileError::new(ErrorKind::Lexical, self.pos))
                }
            } else if crate::chars::ceq(&w, "HAI") {
                Ok(Token::HashHai)
            } else if crate::chars::ceq(&w, "KTHXBYE") {
                Ok(Token::HashKthxbye)
            } else if crate::chars::ceq(&w, "OBTW") {
                Ok(Token::HashObtW)
            } else if crate::chars::ceq(&w, "TLDR") {
                Ok(Token::HashTldr)
            } else if crate::chars::ceq(&w, "MAEK") {
                Ok(Token::HashMaek)
            } else if crate::chars::ceq(&w, "OIC") {
                Ok(Token::HashOic)
            } else if crate::chars::ceq(&w, "GIMMEH") {
                Ok(Token::HashGimmeh)
            } else if crate::chars::ceq(&w, "MKAY") {
                Ok(Token::HashMKay)
            } else {
                Err(CompileError::new(ErrorKind::Lexical, self.pos))
            }
        } else if is_alpha(c0) {
            let w = self.read_word();
            let u = crate::chars::upper_vec(&w);
            if crate::chars::ceq(&u, "HEAD") {
                Ok(Token::Head)
            } else if crate::chars::ceq(&u, "TITLE") {
                Ok(Token::Title)
            } else if crate::chars::ceq(&u, "PARAGRAF") {
                Ok(Token::Paragraf)
            } else if crate::chars::ceq(&u, "BOLD") {
                Ok(Token::Bold)
            } else if crate::chars::ceq(&u, "ITALICS") {
                Ok(Token::Italics)
            } else if crate::chars::ceq(&u, "LIST") {
                Ok(Token::List)
            } else if crate::chars::ceq(&u, "ITEM") {
                Ok(Token::Item)
            } else if crate::chars::ceq(&u, "NEWLINE") {
                Ok(Token::Newline)
            } else if crate::chars::ceq(&u, "SOUNDZ") {
                Ok(Token::Soundz)
            } else if crate::chars::ceq(&u, "VIDZ") {
                Ok(Token::Vidz)
            } else {
                Ok(Token::Text(w))
            }
        } else {
            let t = self.read_until_mkay_or_eol();
            if t.len() == 0 {
                Ok(Token::Eof)
            } else {
                Ok(Token::Text(t))
            }
        }
    }
}

} // verus!
