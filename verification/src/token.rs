//! Lexical tokens: `#`-prefixed control tags, bare keywords, free text and
//! the end-of-input marker.  Grammar matching compares tokens by kind only;
//! a `Text` payload is inspected contextually.

use vstd::prelude::*;

verus! {

/// One lexeme of the source language.
pub enum Token {
    HashHai,
    HashKthxbye,
    HashObtW,
    HashTldr,
    HashMaek,
    HashOic,
    HashGimmeh,
    HashMKay,
    Head,
    Title,
    Paragraf,
    Bold,
    Italics,
    List,
    Item,
    Newline,
    Soundz,
    Vidz,
    HashIHaz,
    HashItIz,
    HashLemmeSee,
    /// Free text, original casing preserved.
    Text(Vec<char>),
    Eof,
}

/// The mathematical value of a token: the payload as a character sequence.
pub enum TokenV {
    HashHai,
    HashKthxbye,
    HashObtW,
    HashTldr,
    HashMaek,
    HashOic,
    HashGimmeh,
    HashMKay,
    Head,
    Title,
    Paragraf,
    Bold,
    Italics,
    List,
    Item,
    Newline,
    Soundz,
    Vidz,
    HashIHaz,
    HashItIz,
    HashLemmeSee,
    Text(Seq<char>),
    Eof,
}

impl View for Token {
    type V = TokenV;

    open spec fn view(&self) -> TokenV {
        match self {
            Token::HashHai => TokenV::HashHai,
            Token::HashKthxbye => TokenV::HashKthxbye,
            Token::HashObtW => TokenV::HashObtW,
            Token::HashTldr => TokenV::HashTldr,
            Token::HashMaek => TokenV::HashMaek,
            Token::HashOic => TokenV::HashOic,
            Token::HashGimmeh => TokenV::HashGimmeh,
            Token::HashMKay => TokenV::HashMKay,
            Token::Head => TokenV::Head,
            Token::Title => TokenV::Title,
            Token::Paragraf => TokenV::Paragraf,
            Token::Bold => TokenV::Bold,
            Token::Italics => TokenV::Italics,
            Token::List => TokenV::List,
            Token::Item => TokenV::Item,
            Token::Newline => TokenV::Newline,
            Token::Soundz => TokenV::Soundz,
            Token::Vidz => TokenV::Vidz,
            Token::HashIHaz => TokenV::HashIHaz,
            Token::HashItIz => TokenV::HashItIz,
            Token::HashLemmeSee => TokenV::HashLemmeSee,
            Token::Text(t) => TokenV::Text(t@),
            Token::Eof => TokenV::Eof,
        }
    }
}

/// A token's lexical category, payload disregarded.
#[derive(PartialEq, Eq, Structural, Clone, Copy, Debug)]
pub enum TokKind {
    Hai,
    Kthxbye,
    Obtw,
    Tldr,
    Maek,
    Oic,
    Gimmeh,
    Mkay,
    Head,
    Title,
    Paragraf,
    Bold,
    Italics,
    List,
    Item,
    Newline,
    Soundz,
    Vidz,
    IHaz,
    ItIz,
    LemmeSee,
    Text,
    Eof,
}

/// The kind of a token value.
pub open spec fn kind_of(t: TokenV) -> TokKind {
    match t {
        TokenV::HashHai => TokKind::Hai,
        TokenV::HashKthxbye => TokKind::Kthxbye,
        TokenV::HashObtW => TokKind::Obtw,
        TokenV::HashTldr => TokKind::Tldr,
        TokenV::HashMaek => TokKind::Maek,
        TokenV::HashOic => TokKind::Oic,
        TokenV::HashGimmeh => TokKind::Gimmeh,
        TokenV::HashMKay => TokKind::Mkay,
        TokenV::Head => TokKind::Head,
        TokenV::Title => TokKind::Title,
        TokenV::Paragraf => TokKind::Paragraf,
        TokenV::Bold => TokKind::Bold,
        TokenV::Italics => TokKind::Italics,
        TokenV::List => TokKind::List,
        TokenV::Item => TokKind::Item,
        TokenV::Newline => TokKind::Newline,
        TokenV::Soundz => TokKind::Soundz,
        TokenV::Vidz => TokKind::Vidz,
        TokenV::HashIHaz => TokKind::IHaz,
        TokenV::HashItIz => TokKind::ItIz,
        TokenV::HashLemmeSee => TokKind::LemmeSee,
        TokenV::Text(_) => TokKind::Text,
        TokenV::Eof => TokKind::Eof,
    }
}

/// A token's variant is determined by its kind.
pub proof fn lemma_kind_cases(t: TokenV)
    ensures
        kind_of(t) == TokKind::Hai <==> t is HashHai,
        kind_of(t) == TokKind::Kthxbye <==> t is HashKthxbye,
        kind_of(t) == TokKind::Obtw <==> t is HashObtW,
        kind_of(t) == TokKind::Tldr <==> t is HashTldr,
        kind_of(t) == TokKind::Maek <==> t is HashMaek,
        kind_of(t) == TokKind::Oic <==> t is HashOic,
        kind_of(t) == TokKind::Gimmeh <==> t is HashGimmeh,
        kind_of(t) == TokKind::Mkay <==> t is HashMKay,
        kind_of(t) == TokKind::Head <==> t is Head,
        kind_of(t) == TokKind::Title <==> t is Title,
        kind_of(t) == TokKind::Paragraf <==> t is Paragraf,
        kind_of(t) == TokKind::Bold <==> t is Bold,
        kind_of(t) == TokKind::Italics <==> t is Italics,
        kind_of(t) == TokKind::List <==> t is List,
        kind_of(t) == TokKind::Item <==> t is Item,
        kind_of(t) == TokKind::Newline <==> t is Newline,
        kind_of(t) == TokKind::Soundz <==> t is Soundz,
        kind_of(t) == TokKind::Vidz <==> t is Vidz,
        kind_of(t) == TokKind::IHaz <==> t is HashIHaz,
        kind_of(t) == TokKind::ItIz <==> t is HashItIz,
        kind_of(t) == TokKind::LemmeSee <==> t is HashLemmeSee,
        kind_of(t) == TokKind::Text <==> t is Text,
        kind_of(t) == TokKind::Eof <==> t is Eof,
{
    match t {
        TokenV::HashHai => {},
        TokenV::HashKthxbye => {},
        TokenV::HashObtW => {},
        TokenV::HashTldr => {},
        TokenV::HashMaek => {},
        TokenV::HashOic => {},
        TokenV::HashGimmeh => {},
        TokenV::HashMKay => {},
        TokenV::Head => {},
        TokenV::Title => {},
        TokenV::Paragraf => {},
        TokenV::Bold => {},
        TokenV::Italics => {},
        TokenV::List => {},
        TokenV::Item => {},
        TokenV::Newline => {},
        TokenV::Soundz => {},
        TokenV::Vidz => {},
        TokenV::HashIHaz => {},
        TokenV::HashItIz => {},
        TokenV::HashLemmeSee => {},
        TokenV::Text(_) => {},
        TokenV::Eof => {},
    }
}

impl Token {
    /// The token's lexical category.
    pub fn kind(&self) -> (k: TokKind)
        ensures
            k == kind_of(self@),
    {
        match self {
            Token::HashHai => TokKind::Hai,
            Token::HashKthxbye => TokKind::Kthxbye,
            Token::HashObtW => TokKind::Obtw,
            Token::HashTldr => TokKind::Tldr,
            Token::HashMaek => TokKind::Maek,
            Token::HashOic => TokKind::Oic,
            Token::HashGimmeh => TokKind::Gimmeh,
            Token::HashMKay => TokKind::Mkay,
            Token::Head => TokKind::Head,
            Token::Title => TokKind::Title,
            Token::Paragraf => TokKind::Paragraf,
            Token::Bold => TokKind::Bold,
            Token::Italics => TokKind::Italics,
            Token::List => TokKind::List,
            Token::Item => TokKind::Item,
            Token::Newline => TokKind::Newline,
            Token::Soundz => TokKind::Soundz,
            Token::Vidz => TokKind::Vidz,
            Token::HashIHaz => TokKind::IHaz,
            Token::HashItIz => TokKind::ItIz,
            Token::HashLemmeSee => TokKind::LemmeSee,
            Token::Text(_) => TokKind::Text,
            Token::Eof => TokKind::Eof,
        }
    }

    /// True exactly when the token is free text.
    pub fn is_text(&self) -> (r: bool)
        ensures
            r == (kind_of(self@) == TokKind::Text),
    {
        match self {
            Token::Text(_) => true,
            _ => false,
        }
    }
}

} // verus!
