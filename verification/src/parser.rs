//! Recursive-descent parsing with one-token lookahead.  Each parse routine
//! validates token order and drives the scope stack and the document builder
//! as it goes; there is no separate tree stage.  Any mismatch is a fatal
//! syntax error, a reference to an undefined variable is a fatal semantic
//! error, and either aborts the compilation with no output.

use vstd::prelude::*;

use crate::chars::{chars_to_string, spec_trim, str_to_chars};
use crate::error::{CompileError, ErrorKind};
use crate::htmlgen::{
    after_begin_body, body_frag, doc_trace_wf, head_region_split, spec_finish, spec_render,
    text_frags, Frag, FragV, Html, HtmlV,
};
use crate::lexer::{lemma_next_token_bounds, spec_next_token, LexStep, Lexer};
use crate::scope::{spec_resolve, Scope};
use crate::token::{kind_of, TokKind, Token, TokenV};

verus! {

// ---------------------------------------------------------------------------
// Token-run specifications
// ---------------------------------------------------------------------------

/// The outcome of collecting a run of text tokens: the space-joined text with
/// the lookahead and position after the run, or the error that cut it short.
pub enum RunOut {
    Lex,
    Stx,
    Done(Seq<char>, TokenV, nat),
}

/// Join two pieces of collected text with a single space.
pub open spec fn sp_join(acc: Seq<char>, t: Seq<char>) -> Seq<char> {
    if acc.len() == 0 {
        t
    } else {
        acc + seq![' '] + t
    }
}

/// Collecting text tokens until the `stop` kind, which is consumed: only text
/// may appear before it, and running out of input is a syntax error.
pub open spec fn sp_texts(
    s: Seq<char>,
    pos: nat,
    look: TokenV,
    stop: TokKind,
    acc: Seq<char>,
) -> RunOut
    decreases s.len() - pos, (if look is Eof { 0int } else { 1int }) when pos <= s.len()
    via sp_texts_dec
{
    if kind_of(look) == stop {
        match spec_next_token(s, pos) {
            LexStep::Fail => RunOut::Lex,
            LexStep::Next(l2, p2) => RunOut::Done(acc, l2, p2),
        }
    } else if look is Eof {
        RunOut::Stx
    } else {
        match look {
            TokenV::Text(t) => match spec_next_token(s, pos) {
                LexStep::Fail => RunOut::Lex,
                LexStep::Next(l2, p2) => sp_texts(s, p2, l2, stop, sp_join(acc, t)),
            },
            _ => RunOut::Stx,
        }
    }
}

#[via_fn]
proof fn sp_texts_dec(s: Seq<char>, pos: nat, look: TokenV, stop: TokKind, acc: Seq<char>) {
    lemma_next_token_bounds(s, pos);
}

/// Collecting a run of consecutive text tokens, space-joined; the first
/// non-text token ends the run and is not consumed.
pub open spec fn sp_free_texts(s: Seq<char>, pos: nat, look: TokenV, acc: Seq<char>) -> RunOut
    decreases s.len() - pos, (if look is Eof { 0int } else { 1int }) when pos <= s.len()
    via sp_free_texts_dec
{
    match look {
        TokenV::Text(t) => match spec_next_token(s, pos) {
            LexStep::Fail => RunOut::Lex,
            LexStep::Next(l2, p2) => sp_free_texts(s, p2, l2, sp_join(acc, t)),
        },
        _ => RunOut::Done(acc, look, pos),
    }
}

#[via_fn]
proof fn sp_free_texts_dec(s: Seq<char>, pos: nat, look: TokenV, acc: Seq<char>) {
    lemma_next_token_bounds(s, pos);
}

/// Consume the current token, then collect text tokens until `stop`.
pub open spec fn after_kw_texts(s: Seq<char>, pos: nat, stop: TokKind) -> RunOut {
    match spec_next_token(s, pos) {
        LexStep::Fail => RunOut::Lex,
        LexStep::Next(l1, p1) => sp_texts(s, p1, l1, stop, Seq::empty()),
    }
}


// ---------------------------------------------------------------------------
// The parse relation: one spec transition per parse routine
// ---------------------------------------------------------------------------

/// The parser's whole abstract state: cursor, lookahead, builder and scope.
pub struct PState {
    pub pos: nat,
    pub look: TokenV,
    pub html: HtmlV,
    pub scope: Seq<Seq<(Seq<char>, Seq<char>)>>,
}

/// How much input a state can still consume.
pub open spec fn pmes(s: Seq<char>, st: PState) -> int {
    s.len() - st.pos + (if st.look is Eof {
        0int
    } else {
        1int
    })
}

/// Replace the lookahead with the next token from the cursor; a malformed
/// lexeme is a lexical error.
pub open spec fn sp_pull(s: Seq<char>, st: PState) -> Result<PState, ErrorKind> {
    match spec_next_token(s, st.pos) {
        LexStep::Fail => Err(ErrorKind::Lexical),
        LexStep::Next(l, p) => Ok(PState { pos: p, look: l, ..st }),
    }
}

/// Consume the lookahead when it has the expected kind; any other kind is a
/// syntax error.
pub open spec fn sp_eat(s: Seq<char>, st: PState, k: TokKind) -> Result<PState, ErrorKind> {
    if kind_of(st.look) == k {
        sp_pull(s, st)
    } else {
        Err(ErrorKind::Syntax)
    }
}

/// Consume a text lookahead and hand back its payload; any other kind is a
/// syntax error.
pub open spec fn sp_eat_text(s: Seq<char>, st: PState) -> Result<(Seq<char>, PState), ErrorKind> {
    match st.look {
        TokenV::Text(t) => match sp_pull(s, st) {
            Err(k) => Err(k),
            Ok(st1) => Ok((t, st1)),
        },
        _ => Err(ErrorKind::Syntax),
    }
}

/// Collect text tokens until `stop`, consuming it; a non-text token before
/// the stop is a syntax error, a malformed lexeme a lexical one.
pub open spec fn sp_collect(s: Seq<char>, st: PState, stop: TokKind) -> Result<
    (Seq<char>, PState),
    ErrorKind,
> {
    match sp_texts(s, st.pos, st.look, stop, Seq::empty()) {
        RunOut::Done(t, l, p) => Ok((t, PState { pos: p, look: l, ..st })),
        RunOut::Lex => Err(ErrorKind::Lexical),
        RunOut::Stx => Err(ErrorKind::Syntax),
    }
}

/// Collect a run of consecutive text tokens, not consuming the stopper.
pub open spec fn sp_collect_free(s: Seq<char>, st: PState) -> Result<
    (Seq<char>, PState),
    ErrorKind,
> {
    match sp_free_texts(s, st.pos, st.look, Seq::empty()) {
        RunOut::Done(t, l, p) => Ok((t, PState { pos: p, look: l, ..st })),
        RunOut::Lex => Err(ErrorKind::Lexical),
        RunOut::Stx => Err(ErrorKind::Syntax),
    }
}

/// Collecting a text run consumes input, and consumes the stop token.
pub proof fn lemma_sp_texts_prog(s: Seq<char>, pos: nat, look: TokenV, stop: TokKind, acc: Seq<char>)
    requires
        pos <= s.len(),
        stop != TokKind::Eof,
    ensures
        sp_texts(s, pos, look, stop, acc) matches RunOut::Done(t, l, p) ==> p <= s.len() && (
        s.len() - p + (if l is Eof {
            0int
        } else {
            1int
        })) < (s.len() - pos + (if look is Eof {
            0int
        } else {
            1int
        })),
    decreases s.len() - pos, (if look is Eof { 0int } else { 1int }),
{
    lemma_next_token_bounds(s, pos);
    crate::token::lemma_kind_cases(look);
    if kind_of(look) == stop {
    } else if look is Eof {
    } else {
        match look {
            TokenV::Text(t) => {
                match spec_next_token(s, pos) {
                    LexStep::Fail => {},
                    LexStep::Next(l2, p2) => {
                        lemma_sp_texts_prog(s, p2, l2, stop, sp_join(acc, t));
                    },
                }
            },
            _ => {},
        }
    }
}

/// Collecting a free text run from a text lookahead consumes input.
pub proof fn lemma_sp_free_texts_prog(s: Seq<char>, pos: nat, look: TokenV, acc: Seq<char>)
    requires
        pos <= s.len(),
    ensures
        sp_free_texts(s, pos, look, acc) matches RunOut::Done(t, l, p) ==> p <= s.len() && (
        s.len() - p + (if l is Eof {
            0int
        } else {
            1int
        })) <= (s.len() - pos + (if look is Eof {
            0int
        } else {
            1int
        })) && (look is Text ==> (s.len() - p + (if l is Eof {
            0int
        } else {
            1int
        })) < (s.len() - pos + 1)),
    decreases s.len() - pos, (if look is Eof { 0int } else { 1int }),
{
    lemma_next_token_bounds(s, pos);
    match look {
        TokenV::Text(t) => {
            match spec_next_token(s, pos) {
                LexStep::Fail => {},
                LexStep::Next(l2, p2) => {
                    lemma_sp_free_texts_prog(s, p2, l2, sp_join(acc, t));
                },
            }
        },
        _ => {},
    }
}

/// The title declaration after `#GIMMEH`.
pub open spec fn sp_title(s: Seq<char>, st: PState) -> Result<PState, ErrorKind> {
    match sp_eat(s, st, TokKind::Gimmeh) {
        Err(k) => Err(k),
        Ok(st1) => match sp_eat(s, st1, TokKind::Title) {
            Err(k) => Err(k),
            Ok(st2) => match sp_collect(s, st2, TokKind::Mkay) {
                Err(k) => Err(k),
                Ok((t, st3)) => Ok(
                    PState {
                        html: HtmlV {
                            frags: st.html.frags.push(FragV::Title(spec_trim(t))),
                            ..st.html
                        },
                        ..st3
                    },
                ),
            },
        },
    }
}

/// A comment.
pub open spec fn sp_comment(s: Seq<char>, st: PState) -> Result<PState, ErrorKind> {
    match sp_eat(s, st, TokKind::Obtw) {
        Err(k) => Err(k),
        Ok(st1) => match sp_collect(s, st1, TokKind::Tldr) {
            Err(k) => Err(k),
            Ok((t, st2)) => Ok(
                PState {
                    html: HtmlV {
                        frags: st.html.frags.push(FragV::Comment(spec_trim(t))),
                        ..st.html
                    },
                    ..st2
                },
            ),
        },
    }
}

/// Bold inline text after `#GIMMEH`.
pub open spec fn sp_bold(s: Seq<char>, st: PState) -> Result<PState, ErrorKind> {
    match sp_eat(s, st, TokKind::Bold) {
        Err(k) => Err(k),
        Ok(st1) => match sp_collect(s, st1, TokKind::Mkay) {
            Err(k) => Err(k),
            Ok((t, st2)) => Ok(
                PState {
                    html: HtmlV {
                        frags: after_begin_body(st.html).frags.push(FragV::Bold(spec_trim(t))),
                        ..after_begin_body(st.html)
                    },
                    ..st2
                },
            ),
        },
    }
}

/// Italic inline text after `#GIMMEH`.
pub open spec fn sp_italics(s: Seq<char>, st: PState) -> Result<PState, ErrorKind> {
    match sp_eat(s, st, TokKind::Italics) {
        Err(k) => Err(k),
        Ok(st1) => match sp_collect(s, st1, TokKind::Mkay) {
            Err(k) => Err(k),
            Ok((t, st2)) => Ok(
                PState {
                    html: HtmlV {
                        frags: after_begin_body(st.html).frags.push(FragV::Italics(spec_trim(t))),
                        ..after_begin_body(st.html)
                    },
                    ..st2
                },
            ),
        },
    }
}

/// A line break after `#GIMMEH`.
pub open spec fn sp_newline(s: Seq<char>, st: PState) -> Result<PState, ErrorKind> {
    match sp_eat(s, st, TokKind::Newline) {
        Err(k) => Err(k),
        Ok(st1) => match sp_eat(s, st1, TokKind::Mkay) {
            Err(k) => Err(k),
            Ok(st2) => Ok(
                PState {
                    html: HtmlV {
                        frags: after_begin_body(st.html).frags.push(FragV::Br),
                        ..after_begin_body(st.html)
                    },
                    ..st2
                },
            ),
        },
    }
}

/// An audio element after `#GIMMEH`.
pub open spec fn sp_audio(s: Seq<char>, st: PState) -> Result<PState, ErrorKind> {
    match sp_eat(s, st, TokKind::Soundz) {
        Err(k) => Err(k),
        Ok(st1) => match sp_collect(s, st1, TokKind::Mkay) {
            Err(k) => Err(k),
            Ok((t, st2)) => Ok(
                PState {
                    html: HtmlV {
                        frags: st.html.frags.push(FragV::Audio(spec_trim(t))),
                        ..st.html
                    },
                    ..st2
                },
            ),
        },
    }
}

/// A video embed after `#GIMMEH`.
pub open spec fn sp_video(s: Seq<char>, st: PState) -> Result<PState, ErrorKind> {
    match sp_eat(s, st, TokKind::Vidz) {
        Err(k) => Err(k),
        Ok(st1) => match sp_collect(s, st1, TokKind::Mkay) {
            Err(k) => Err(k),
            Ok((t, st2)) => Ok(
                PState {
                    html: HtmlV {
                        frags: st.html.frags.push(FragV::Video(spec_trim(t))),
                        ..st.html
                    },
                    ..st2
                },
            ),
        },
    }
}

/// A title declared outside the head: parsed, then discarded.
pub open spec fn sp_discard_title(s: Seq<char>, st: PState) -> Result<PState, ErrorKind> {
    match sp_eat(s, st, TokKind::Title) {
        Err(k) => Err(k),
        Ok(st1) => match sp_collect(s, st1, TokKind::Mkay) {
            Err(k) => Err(k),
            Ok((t, st2)) => Ok(st2),
        },
    }
}

/// A run of free text.
pub open spec fn sp_text_item(s: Seq<char>, st: PState) -> Result<PState, ErrorKind> {
    match sp_collect_free(s, st) {
        Err(k) => Err(k),
        Ok((t, st1)) => Ok(
            PState {
                html: HtmlV {
                    frags: after_begin_body(st.html).frags + text_frags(
                        t,
                        after_begin_body(st.html).word_per_line,
                    ),
                    ..after_begin_body(st.html)
                },
                ..st1
            },
        ),
    }
}

/// A variable definition: the binding lands in the innermost frame.
pub open spec fn sp_var_define(s: Seq<char>, st: PState) -> Result<PState, ErrorKind> {
    match sp_eat(s, st, TokKind::IHaz) {
        Err(k) => Err(k),
        Ok(st1) => match sp_eat_text(s, st1) {
            Err(k) => Err(k),
            Ok((n, st2)) => match sp_eat(s, st2, TokKind::ItIz) {
                Err(k) => Err(k),
                Ok(st3) => match sp_collect(s, st3, TokKind::Mkay) {
                    Err(k) => Err(k),
                    Ok((v, st4)) => Ok(
                        PState {
                            scope: st.scope.update(
                                st.scope.len() - 1,
                                st.scope.last().push((n, v)),
                            ),
                            ..st4
                        },
                    ),
                },
            },
        },
    }
}

/// A variable reference: the nearest enclosing value is emitted; a
/// reference with no visible definition is a static-semantic error, distinct
/// from the lexical and syntax kinds.
pub open spec fn sp_var_use(s: Seq<char>, st: PState) -> Result<PState, ErrorKind> {
    match sp_eat(s, st, TokKind::LemmeSee) {
        Err(k) => Err(k),
        Ok(st1) => match sp_eat_text(s, st1) {
            Err(k) => Err(k),
            Ok((n, st2)) => match sp_eat(s, st2, TokKind::Mkay) {
                Err(k) => Err(k),
                Ok(st3) => match spec_resolve(st.scope, n) {
                    None => Err(ErrorKind::Semantic),
                    Some(v) => Ok(
                        PState {
                            html: HtmlV { frags: st.html.frags.push(FragV::Var(v)), ..st.html },
                            ..st3
                        },
                    ),
                },
            },
        },
    }
}


/// Pulling a fresh lookahead consumes input whenever the old one was not the
/// end marker.
pub proof fn lemma_sp_pull_prog(s: Seq<char>, st: PState)
    requires
        st.pos <= s.len(),
    ensures
        sp_pull(s, st) matches Ok(st1) ==> st1.pos <= s.len() && (!(st.look is Eof)
            ==> pmes(s, st1) < pmes(s, st)) && pmes(s, st1) <= pmes(s, st),
{
    lemma_next_token_bounds(s, st.pos);
}

/// Every leaf parse step consumes input.
pub proof fn lemma_sp_leaf_prog(s: Seq<char>, st: PState)
    requires
        st.pos <= s.len(),
    ensures
        sp_title(s, st) matches Ok(st1) ==> st1.pos <= s.len() && pmes(s, st1) < pmes(s, st),
        sp_comment(s, st) matches Ok(st1) ==> st1.pos <= s.len() && pmes(s, st1) < pmes(s, st),
        sp_bold(s, st) matches Ok(st1) ==> st1.pos <= s.len() && pmes(s, st1) < pmes(s, st),
        sp_italics(s, st) matches Ok(st1) ==> st1.pos <= s.len() && pmes(s, st1) < pmes(s, st),
        sp_newline(s, st) matches Ok(st1) ==> st1.pos <= s.len() && pmes(s, st1) < pmes(s, st),
        sp_audio(s, st) matches Ok(st1) ==> st1.pos <= s.len() && pmes(s, st1) < pmes(s, st),
        sp_video(s, st) matches Ok(st1) ==> st1.pos <= s.len() && pmes(s, st1) < pmes(s, st),
        sp_discard_title(s, st) matches Ok(st1) ==> st1.pos <= s.len() && pmes(s, st1) < pmes(
            s,
            st,
        ),
        sp_text_item(s, st) matches Ok(st1) ==> st1.pos <= s.len() && pmes(s, st1) <= pmes(
            s,
            st,
        ),
        st.look is Text ==> (sp_text_item(s, st) matches Ok(st1) ==> pmes(s, st1) < pmes(
            s,
            st,
        )),
        sp_var_define(s, st) matches Ok(st1) ==> st1.pos <= s.len() && pmes(s, st1) < pmes(
            s,
            st,
        ),
        sp_var_use(s, st) matches Ok(st1) ==> st1.pos <= s.len() && pmes(s, st1) < pmes(s, st),
        forall|k: TokKind|
            k != TokKind::Eof && #[trigger] sp_eat(s, st, k) is Ok ==> sp_eat(
                s,
                st,
                k,
            )->Ok_0.pos <= s.len() && pmes(s, sp_eat(s, st, k)->Ok_0) < pmes(s, st),
{
    crate::token::lemma_kind_cases(st.look);
    lemma_sp_pull_prog(s, st);
    lemma_next_token_bounds(s, st.pos);
    if let LexStep::Next(l1, p1) = spec_next_token(s, st.pos) {
        let st1 = PState { pos: p1, look: l1, ..st };
        lemma_sp_pull_prog(s, st1);
        lemma_next_token_bounds(s, p1);
        lemma_sp_texts_prog(s, p1, l1, TokKind::Mkay, Seq::empty());
        lemma_sp_texts_prog(s, p1, l1, TokKind::Tldr, Seq::empty());
        if let LexStep::Next(l2, p2) = spec_next_token(s, p1) {
            let st2 = PState { pos: p2, look: l2, ..st1 };
            lemma_sp_pull_prog(s, st2);
            lemma_next_token_bounds(s, p2);
            lemma_sp_texts_prog(s, p2, l2, TokKind::Mkay, Seq::empty());
            if let LexStep::Next(l3, p3) = spec_next_token(s, p2) {
                lemma_next_token_bounds(s, p3);
                lemma_sp_texts_prog(s, p3, l3, TokKind::Mkay, Seq::empty());
            }
        }
    }
    lemma_sp_free_texts_prog(s, st.pos, st.look, Seq::empty());
}

/// One element of a paragraph's inner text; an unexpected token is a syntax
/// error.
pub open spec fn sp_inner_text(s: Seq<char>, st: PState) -> Result<PState, ErrorKind> {
    let k = kind_of(st.look);
    if k == TokKind::Gimmeh {
        match sp_eat(s, st, TokKind::Gimmeh) {
            Err(k) => Err(k),
            Ok(st1) => {
                let k2 = kind_of(st1.look);
                if k2 == TokKind::Bold {
                    sp_bold(s, st1)
                } else if k2 == TokKind::Italics {
                    sp_italics(s, st1)
                } else if k2 == TokKind::Newline {
                    sp_newline(s, st1)
                } else {
                    Err(ErrorKind::Syntax)
                }
            },
        }
    } else if k == TokKind::LemmeSee {
        sp_var_use(s, st)
    } else if k == TokKind::Text {
        sp_text_item(s, st)
    } else if k == TokKind::Obtw {
        sp_comment(s, st)
    } else if k == TokKind::Mkay {
        sp_eat(s, st, TokKind::Mkay)
    } else {
        Err(ErrorKind::Syntax)
    }
}

/// Inner-text elements consume input.
pub proof fn lemma_sp_inner_text_prog(s: Seq<char>, st: PState)
    requires
        st.pos <= s.len(),
    ensures
        sp_inner_text(s, st) matches Ok(st1) ==> st1.pos <= s.len() && pmes(s, st1) < pmes(
            s,
            st,
        ),
{
    lemma_sp_leaf_prog(s, st);
    if kind_of(st.look) == TokKind::Gimmeh {
        if let Ok(st1) = sp_eat(s, st, TokKind::Gimmeh) {
            lemma_sp_leaf_prog(s, st1);
        }
    }
}

/// A paragraph's inner content, element by element, up to `#OIC`.
pub open spec fn sp_inner_paragraph(s: Seq<char>, st: PState) -> Result<PState, ErrorKind>
    decreases pmes(s, st) when st.pos <= s.len() via sp_inner_paragraph_dec
{
    let k = kind_of(st.look);
    if k == TokKind::Oic || k == TokKind::Eof {
        Ok(st)
    } else {
        match sp_inner_text(s, st) {
            Err(k) => Err(k),
            Ok(st1) => sp_inner_paragraph(s, st1),
        }
    }
}

#[via_fn]
proof fn sp_inner_paragraph_dec(s: Seq<char>, st: PState) {
    lemma_sp_inner_text_prog(s, st);
}

/// Parsing inner content never grows the remaining input.
pub proof fn lemma_sp_inner_paragraph_prog(s: Seq<char>, st: PState)
    requires
        st.pos <= s.len(),
    ensures
        sp_inner_paragraph(s, st) matches Ok(st1) ==> st1.pos <= s.len() && pmes(s, st1)
            <= pmes(s, st),
    decreases pmes(s, st),
{
    lemma_sp_inner_text_prog(s, st);
    let k = kind_of(st.look);
    if k == TokKind::Oic || k == TokKind::Eof {
    } else {
        if let Ok(st1) = sp_inner_text(s, st) {
            lemma_sp_inner_paragraph_prog(s, st1);
        }
    }
}

/// The builder state after opening a paragraph.
pub open spec fn sp_begin_p(h: HtmlV) -> HtmlV {
    HtmlV {
        frags: after_begin_body(h).frags.push(FragV::POpen),
        word_per_line: false,
        ..after_begin_body(h)
    }
}

/// A paragraph after `#MAEK`: fresh frame, optional leading definition, inner
/// content, closing brackets; the frame leaves with the paragraph.
pub open spec fn sp_paragraph(s: Seq<char>, st: PState) -> Result<PState, ErrorKind> {
    match sp_eat(s, st, TokKind::Paragraf) {
        Err(k) => Err(k),
        Ok(st1) => {
            let st2 = PState {
                scope: st1.scope.push(Seq::empty()),
                html: sp_begin_p(st1.html),
                ..st1
            };
            let defined = if kind_of(st2.look) == TokKind::IHaz {
                sp_var_define(s, st2)
            } else {
                Ok(st2)
            };
            match defined {
                Err(k) => Err(k),
                Ok(st3) => match sp_inner_paragraph(s, st3) {
                    Err(k) => Err(k),
                    Ok(st4) => match sp_eat(s, st4, TokKind::Oic) {
                        Err(k) => Err(k),
                        Ok(st5) => Ok(
                            PState {
                                html: HtmlV {
                                    frags: st5.html.frags.push(FragV::PClose),
                                    word_per_line: true,
                                    ..st5.html
                                },
                                scope: st5.scope.drop_last(),
                                ..st5
                            },
                        ),
                    },
                },
            }
        },
    }
}

/// Paragraphs consume input.
pub proof fn lemma_sp_paragraph_prog(s: Seq<char>, st: PState)
    requires
        st.pos <= s.len(),
    ensures
        sp_paragraph(s, st) matches Ok(st1) ==> st1.pos <= s.len() && pmes(s, st1) < pmes(
            s,
            st,
        ),
{
    lemma_sp_leaf_prog(s, st);
    if let Ok(st1) = sp_eat(s, st, TokKind::Paragraf) {
        let st2 = PState {
            scope: st1.scope.push(Seq::empty()),
            html: sp_begin_p(st1.html),
            ..st1
        };
        lemma_sp_leaf_prog(s, st2);
        let defined = if kind_of(st2.look) == TokKind::IHaz {
            sp_var_define(s, st2)
        } else {
            Ok(st2)
        };
        if let Ok(st3) = defined {
            lemma_sp_inner_paragraph_prog(s, st3);
            if let Ok(st4) = sp_inner_paragraph(s, st3) {
                lemma_sp_leaf_prog(s, st4);
            }
        }
    }
}

/// Rich inline content up to a consumed `#MKAY`.
pub open spec fn sp_inline(s: Seq<char>, st: PState) -> Result<PState, ErrorKind>
    decreases pmes(s, st) when st.pos <= s.len() via sp_inline_dec
{
    let k = kind_of(st.look);
    if k == TokKind::Mkay {
        sp_eat(s, st, TokKind::Mkay)
    } else if k == TokKind::Eof {
        Err(ErrorKind::Syntax)
    } else if k == TokKind::Gimmeh {
        match sp_eat(s, st, TokKind::Gimmeh) {
            Err(k) => Err(k),
            Ok(st1) => {
                let k2 = kind_of(st1.look);
                let stepped = if k2 == TokKind::Bold {
                    sp_bold(s, st1)
                } else if k2 == TokKind::Italics {
                    sp_italics(s, st1)
                } else if k2 == TokKind::Newline {
                    sp_newline(s, st1)
                } else {
                    Err(ErrorKind::Syntax)
                };
                match stepped {
                    Err(k) => Err(k),
                    Ok(st2) => sp_inline(s, st2),
                }
            },
        }
    } else if k == TokKind::LemmeSee {
        match sp_var_use(s, st) {
            Err(k) => Err(k),
            Ok(st1) => sp_inline(s, st1),
        }
    } else if k == TokKind::Text {
        match sp_text_item(s, st) {
            Err(k) => Err(k),
            Ok(st1) => sp_inline(s, st1),
        }
    } else if k == TokKind::Obtw {
        match sp_comment(s, st) {
            Err(k) => Err(k),
            Ok(st1) => sp_inline(s, st1),
        }
    } else {
        Err(ErrorKind::Syntax)
    }
}

#[via_fn]
proof fn sp_inline_dec(s: Seq<char>, st: PState) {
    lemma_sp_leaf_prog(s, st);
    if kind_of(st.look) == TokKind::Gimmeh {
        if let Ok(st1) = sp_eat(s, st, TokKind::Gimmeh) {
            lemma_sp_leaf_prog(s, st1);
        }
    }
}

/// Inline runs consume input, the closing `#MKAY` included.
pub proof fn lemma_sp_inline_prog(s: Seq<char>, st: PState)
    requires
        st.pos <= s.len(),
    ensures
        sp_inline(s, st) matches Ok(st1) ==> st1.pos <= s.len() && pmes(s, st1) < pmes(s, st),
    decreases pmes(s, st),
{
    lemma_sp_leaf_prog(s, st);
    let k = kind_of(st.look);
    if k == TokKind::Gimmeh {
        if let Ok(st1) = sp_eat(s, st, TokKind::Gimmeh) {
            lemma_sp_leaf_prog(s, st1);
            let k2 = kind_of(st1.look);
            let stepped = if k2 == TokKind::Bold {
                sp_bold(s, st1)
            } else if k2 == TokKind::Italics {
                sp_italics(s, st1)
            } else if k2 == TokKind::Newline {
                sp_newline(s, st1)
            } else {
                Err(ErrorKind::Syntax)
            };
            if let Ok(st2) = stepped {
                lemma_sp_inline_prog(s, st2);
            }
        }
    } else if k == TokKind::LemmeSee {
        if let Ok(st1) = sp_var_use(s, st) {
            lemma_sp_inline_prog(s, st1);
        }
    } else if k == TokKind::Text {
        if let Ok(st1) = sp_text_item(s, st) {
            lemma_sp_inline_prog(s, st1);
        }
    } else if k == TokKind::Obtw {
        if let Ok(st1) = sp_comment(s, st) {
            lemma_sp_inline_prog(s, st1);
        }
    }
}

/// One list item after `#GIMMEH`.
pub open spec fn sp_list_items(s: Seq<char>, st: PState) -> Result<PState, ErrorKind> {
    match sp_eat(s, st, TokKind::Item) {
        Err(k) => Err(k),
        Ok(st1) => {
            let st2 = PState {
                html: HtmlV { frags: st1.html.frags.push(FragV::LiOpen), ..st1.html },
                ..st1
            };
            match sp_inline(s, st2) {
                Err(k) => Err(k),
                Ok(st3) => Ok(
                    PState {
                        html: HtmlV { frags: st3.html.frags.push(FragV::LiClose), ..st3.html },
                        ..st3
                    },
                ),
            }
        },
    }
}

/// List items consume input.
pub proof fn lemma_sp_list_items_prog(s: Seq<char>, st: PState)
    requires
        st.pos <= s.len(),
    ensures
        sp_list_items(s, st) matches Ok(st1) ==> st1.pos <= s.len() && pmes(s, st1) < pmes(
            s,
            st,
        ),
{
    lemma_sp_leaf_prog(s, st);
    if let Ok(st1) = sp_eat(s, st, TokKind::Item) {
        let st2 = PState {
            html: HtmlV { frags: st1.html.frags.push(FragV::LiOpen), ..st1.html },
            ..st1
        };
        lemma_sp_inline_prog(s, st2);
    }
}

/// The items, breaks and comments of a list, up to a consumed `#OIC`.
pub open spec fn sp_list_body(s: Seq<char>, st: PState) -> Result<PState, ErrorKind>
    decreases pmes(s, st) when st.pos <= s.len() via sp_list_body_dec
{
    let k = kind_of(st.look);
    if k == TokKind::Gimmeh {
        match sp_eat(s, st, TokKind::Gimmeh) {
            Err(k) => Err(k),
            Ok(st1) => {
                let k2 = kind_of(st1.look);
                let stepped = if k2 == TokKind::Item {
                    sp_list_items(s, st1)
                } else if k2 == TokKind::Newline {
                    sp_newline(s, st1)
                } else {
                    Err(ErrorKind::Syntax)
                };
                match stepped {
                    Err(k) => Err(k),
                    Ok(st2) => sp_list_body(s, st2),
                }
            },
        }
    } else if k == TokKind::Obtw {
        match sp_comment(s, st) {
            Err(k) => Err(k),
            Ok(st1) => sp_list_body(s, st1),
        }
    } else if k == TokKind::Oic {
        match sp_eat(s, st, TokKind::Oic) {
            Err(k) => Err(k),
            Ok(st1) => Ok(
                PState {
                    html: HtmlV { frags: st1.html.frags.push(FragV::UlClose), ..st1.html },
                    ..st1
                },
            ),
        }
    } else {
        Err(ErrorKind::Syntax)
    }
}

#[via_fn]
proof fn sp_list_body_dec(s: Seq<char>, st: PState) {
    lemma_sp_leaf_prog(s, st);
    if kind_of(st.look) == TokKind::Gimmeh {
        if let Ok(st1) = sp_eat(s, st, TokKind::Gimmeh) {
            lemma_sp_leaf_prog(s, st1);
            lemma_sp_list_items_prog(s, st1);
        }
    }
}

/// A whole list after `#MAEK`.
pub open spec fn sp_list(s: Seq<char>, st: PState) -> Result<PState, ErrorKind> {
    match sp_eat(s, st, TokKind::List) {
        Err(k) => Err(k),
        Ok(st1) => sp_list_body(
            s,
            PState { html: HtmlV { frags: st1.html.frags.push(FragV::UlOpen), ..st1.html }, ..st1 },
        ),
    }
}

/// The list body consumes input, the closing `#OIC` included.
pub proof fn lemma_sp_list_body_prog(s: Seq<char>, st: PState)
    requires
        st.pos <= s.len(),
    ensures
        sp_list_body(s, st) matches Ok(st1) ==> st1.pos <= s.len() && pmes(s, st1) < pmes(
            s,
            st,
        ),
    decreases pmes(s, st),
{
    lemma_sp_leaf_prog(s, st);
    let k = kind_of(st.look);
    if k == TokKind::Gimmeh {
        if let Ok(st1) = sp_eat(s, st, TokKind::Gimmeh) {
            lemma_sp_leaf_prog(s, st1);
            lemma_sp_list_items_prog(s, st1);
            let k2 = kind_of(st1.look);
            let stepped = if k2 == TokKind::Item {
                sp_list_items(s, st1)
            } else if k2 == TokKind::Newline {
                sp_newline(s, st1)
            } else {
                Err(ErrorKind::Syntax)
            };
            if let Ok(st2) = stepped {
                lemma_sp_list_body_prog(s, st2);
            }
        }
    } else if k == TokKind::Obtw {
        if let Ok(st1) = sp_comment(s, st) {
            lemma_sp_list_body_prog(s, st1);
        }
    }
}

/// Lists consume input.
pub proof fn lemma_sp_list_prog(s: Seq<char>, st: PState)
    requires
        st.pos <= s.len(),
    ensures
        sp_list(s, st) matches Ok(st1) ==> st1.pos <= s.len() && pmes(s, st1) < pmes(s, st),
{
    lemma_sp_leaf_prog(s, st);
    if let Ok(st1) = sp_eat(s, st, TokKind::List) {
        lemma_sp_list_body_prog(
            s,
            PState { html: HtmlV { frags: st1.html.frags.push(FragV::UlOpen), ..st1.html }, ..st1 },
        );
    }
}

/// The head section after `#MAEK`.
pub open spec fn sp_head(s: Seq<char>, st: PState) -> Result<PState, ErrorKind> {
    match sp_eat(s, st, TokKind::Head) {
        Err(k) => Err(k),
        Ok(st1) => {
            let st2 = PState {
                html: HtmlV {
                    frags: st1.html.frags.push(FragV::HeadOpen),
                    head_declared: true,
                    ..st1.html
                },
                ..st1
            };
            if kind_of(st2.look) != TokKind::Gimmeh {
                Err(ErrorKind::Syntax)
            } else {
                match sp_title(s, st2) {
                    Err(k) => Err(k),
                    Ok(st3) => match sp_eat(s, st3, TokKind::Oic) {
                        Err(k) => Err(k),
                        Ok(st4) => Ok(
                            PState {
                                html: HtmlV {
                                    frags: st4.html.frags.push(FragV::HeadClose),
                                    ..st4.html
                                },
                                ..st4
                            },
                        ),
                    },
                }
            }
        },
    }
}

/// One body item; an unexpected token is a syntax error.
pub open spec fn sp_body_item(s: Seq<char>, st: PState) -> Result<PState, ErrorKind> {
    let k = kind_of(st.look);
    if k == TokKind::Maek {
        match sp_eat(s, st, TokKind::Maek) {
            Err(k) => Err(k),
            Ok(st1) => {
                let k2 = kind_of(st1.look);
                if k2 == TokKind::Paragraf {
                    sp_paragraph(s, st1)
                } else if k2 == TokKind::List {
                    sp_list(s, st1)
                } else {
                    Err(ErrorKind::Syntax)
                }
            },
        }
    } else if k == TokKind::Gimmeh {
        match sp_eat(s, st, TokKind::Gimmeh) {
            Err(k) => Err(k),
            Ok(st1) => {
                let k2 = kind_of(st1.look);
                if k2 == TokKind::Newline {
                    sp_newline(s, st1)
                } else if k2 == TokKind::Bold {
                    sp_bold(s, st1)
                } else if k2 == TokKind::Italics {
                    sp_italics(s, st1)
                } else if k2 == TokKind::Soundz {
                    sp_audio(s, st1)
                } else if k2 == TokKind::Vidz {
                    sp_video(s, st1)
                } else if k2 == TokKind::Title {
                    sp_discard_title(s, st1)
                } else {
                    Err(ErrorKind::Syntax)
                }
            },
        }
    } else if k == TokKind::IHaz {
        sp_var_define(s, st)
    } else if k == TokKind::LemmeSee {
        sp_var_use(s, st)
    } else if k == TokKind::Text {
        sp_text_item(s, st)
    } else if k == TokKind::Obtw {
        sp_comment(s, st)
    } else if k == TokKind::Mkay {
        sp_eat(s, st, TokKind::Mkay)
    } else {
        Err(ErrorKind::Syntax)
    }
}

/// Body items consume input.
pub proof fn lemma_sp_body_item_prog(s: Seq<char>, st: PState)
    requires
        st.pos <= s.len(),
    ensures
        sp_body_item(s, st) matches Ok(st1) ==> st1.pos <= s.len() && pmes(s, st1) < pmes(
            s,
            st,
        ),
{
    lemma_sp_leaf_prog(s, st);
    let k = kind_of(st.look);
    if k == TokKind::Maek {
        if let Ok(st1) = sp_eat(s, st, TokKind::Maek) {
            lemma_sp_paragraph_prog(s, st1);
            lemma_sp_list_prog(s, st1);
        }
    } else if k == TokKind::Gimmeh {
        if let Ok(st1) = sp_eat(s, st, TokKind::Gimmeh) {
            lemma_sp_leaf_prog(s, st1);
        }
    }
}

/// The leading comments of a program.
pub open spec fn sp_comments(s: Seq<char>, st: PState) -> Result<PState, ErrorKind>
    decreases pmes(s, st) when st.pos <= s.len() via sp_comments_dec
{
    if kind_of(st.look) == TokKind::Obtw {
        match sp_comment(s, st) {
            Err(k) => Err(k),
            Ok(st1) => sp_comments(s, st1),
        }
    } else {
        Ok(st)
    }
}

#[via_fn]
proof fn sp_comments_dec(s: Seq<char>, st: PState) {
    lemma_sp_leaf_prog(s, st);
}

/// The body items of a program, up to `#KTHXBYE` or the end of input.
pub open spec fn sp_body_items(s: Seq<char>, st: PState) -> Result<PState, ErrorKind>
    decreases pmes(s, st) when st.pos <= s.len() via sp_body_items_dec
{
    let k = kind_of(st.look);
    if k == TokKind::Kthxbye || k == TokKind::Eof {
        Ok(st)
    } else {
        match sp_body_item(s, st) {
            Err(k) => Err(k),
            Ok(st1) => sp_body_items(s, st1),
        }
    }
}

#[via_fn]
proof fn sp_body_items_dec(s: Seq<char>, st: PState) {
    lemma_sp_body_item_prog(s, st);
}

/// The builder state after ensuring the body is open.
pub open spec fn sp_open_body(st: PState) -> PState {
    PState { html: after_begin_body(st.html), ..st }
}

/// The builder state after closing the body.
pub open spec fn sp_end_body(h: HtmlV) -> HtmlV {
    if h.body_opened && !h.body_closed {
        HtmlV { frags: h.frags.push(FragV::BodyClose), body_closed: true, ..h }
    } else {
        h
    }
}

/// Body items from an opened body to the program end tag, body closed.
pub open spec fn sp_program_tail(s: Seq<char>, st: PState) -> Result<PState, ErrorKind> {
    match sp_body_items(s, st) {
        Err(k) => Err(k),
        Ok(st1) => match sp_eat(s, st1, TokKind::Kthxbye) {
            Err(k) => Err(k),
            Ok(st2) => Ok(PState { html: sp_end_body(st2.html), ..st2 }),
        },
    }
}

/// A program's opening: the document brackets, `#HAI`, leading comments, and
/// either a head section or an immediate first `#MAEK` body item, with the
/// body opened.
pub open spec fn sp_preamble(s: Seq<char>, st: PState) -> Result<PState, ErrorKind> {
    let st0 = PState {
        html: HtmlV {
            frags: st.html.frags + seq![FragV::Doctype, FragV::HtmlOpen],
            ..st.html
        },
        ..st
    };
    match sp_eat(s, st0, TokKind::Hai) {
        Err(k) => Err(k),
        Ok(st1) => match sp_comments(s, st1) {
            Err(k) => Err(k),
            Ok(st2) => {
                if kind_of(st2.look) == TokKind::Maek {
                    match sp_eat(s, st2, TokKind::Maek) {
                        Err(k) => Err(k),
                        Ok(st3) => {
                            let k2 = kind_of(st3.look);
                            if k2 == TokKind::Head {
                                match sp_head(s, st3) {
                                    Err(k) => Err(k),
                                    Ok(st4) => Ok(sp_open_body(st4)),
                                }
                            } else if k2 == TokKind::Paragraf {
                                sp_paragraph(s, sp_open_body(st3))
                            } else if k2 == TokKind::List {
                                sp_list(s, sp_open_body(st3))
                            } else {
                                Err(ErrorKind::Syntax)
                            }
                        },
                    }
                } else {
                    Ok(sp_open_body(st2))
                }
            },
        },
    }
}

/// A whole program: `#HAI`, comments, an optional head or an immediate first
/// `#MAEK` body item, body items, `#KTHXBYE`.
pub open spec fn sp_lolcode(s: Seq<char>, st: PState) -> Result<PState, ErrorKind> {
    match sp_preamble(s, st) {
        Err(k) => Err(k),
        Ok(st1) => sp_program_tail(s, st1),
    }
}

/// A fresh parser state over an input: empty builder, one empty global frame,
/// the first token pulled.
pub open spec fn sp_start(s: Seq<char>) -> Result<PState, ErrorKind> {
    match spec_next_token(s, 0) {
        LexStep::Fail => Err(ErrorKind::Lexical),
        LexStep::Next(l, p) => Ok(
            PState {
                pos: p,
                look: l,
                html: HtmlV {
                    frags: Seq::empty(),
                    head_declared: false,
                    body_opened: false,
                    body_closed: false,
                    word_per_line: false,
                },
                scope: seq![Seq::<(Seq<char>, Seq<char>)>::empty()],
            },
        ),
    }
}

/// What a whole compilation returns on an input, when it succeeds: the parse
/// relation composed with the final rendering.  Compilation is a function of
/// the source text alone, so compiling the same source twice yields
/// byte-identical output.
pub open spec fn sp_compile(s: Seq<char>) -> Result<Seq<char>, ErrorKind> {
    match sp_start(s) {
        Err(k) => Err(k),
        Ok(st) => match sp_lolcode(s, st) {
            Err(k) => Err(k),
            Ok(st1) => Ok(spec_render(spec_finish(st1.html))),
        },
    }
}

// ---------------------------------------------------------------------------
// State-relation predicates
// ---------------------------------------------------------------------------

/// The new scope differs from the old at most by bindings appended to the
/// innermost frame.
pub open spec fn scope_extends_top(
    old_sc: Seq<Seq<(Seq<char>, Seq<char>)>>,
    new_sc: Seq<Seq<(Seq<char>, Seq<char>)>>,
) -> bool {
    &&& new_sc.len() == old_sc.len()
    &&& old_sc.len() >= 1
    &&& forall|i: int| 0 <= i < old_sc.len() - 1 ==> new_sc[i] == old_sc[i]
    &&& new_sc.last().len() >= old_sc.last().len()
    &&& new_sc.last().take(old_sc.last().len() as int) == old_sc.last()
}

/// The new builder state extends the old by body fragments only, with the
/// body open, not closed, and the structural flags unchanged.
pub open spec fn body_extend(h0: HtmlV, h1: HtmlV) -> bool {
    &&& h1.frags.len() >= h0.frags.len()
    &&& h1.frags.take(h0.frags.len() as int) == h0.frags
    &&& forall|i: int| h0.frags.len() <= i < h1.frags.len() ==> body_frag(#[trigger] h1.frags[i])
    &&& h1.head_declared == h0.head_declared
    &&& h1.body_opened == h0.body_opened
    &&& h1.body_closed == h0.body_closed
    &&& h1.word_per_line == h0.word_per_line
}


/// The head section a successful head parse appends: the head brackets
/// around exactly one title, with the head declared.
pub open spec fn head_block(h0: HtmlV, h1: HtmlV, t: Seq<char>) -> bool {
    h1 == (HtmlV {
        frags: h0.frags + seq![FragV::HeadOpen, FragV::Title(t), FragV::HeadClose],
        head_declared: true,
        ..h0
    })
}

/// Appending one body fragment, flags untouched, is a body extension.
pub proof fn lemma_body_extend_push(h0: HtmlV, h1: HtmlV, f: FragV)
    requires
        h1 == (HtmlV { frags: h0.frags.push(f), ..h0 }),
        body_frag(f),
    ensures
        body_extend(h0, h1),
{
    assert(h1.frags.take(h0.frags.len() as int) =~= h0.frags);
}

/// Appending body fragments, flags untouched, is a body extension.
pub proof fn lemma_body_extend_append(h0: HtmlV, h1: HtmlV, fs: Seq<FragV>)
    requires
        h1 == (HtmlV { frags: h0.frags + fs, ..h0 }),
        forall|i: int| 0 <= i < fs.len() ==> body_frag(#[trigger] fs[i]),
    ensures
        body_extend(h0, h1),
{
    assert(h1.frags.take(h0.frags.len() as int) =~= h0.frags);
    assert forall|i: int| h0.frags.len() <= i < h1.frags.len() implies body_frag(
        #[trigger] h1.frags[i],
    ) by {
        assert(h1.frags[i] == fs[i - h0.frags.len()]);
    }
}

/// Body extension composes.
pub proof fn lemma_body_extend_trans(h0: HtmlV, h1: HtmlV, h2: HtmlV)
    requires
        body_extend(h0, h1),
        body_extend(h1, h2),
    ensures
        body_extend(h0, h2),
{
    assert(h2.frags.take(h0.frags.len() as int) =~= h1.frags.take(h0.frags.len() as int));
    assert forall|i: int| h0.frags.len() <= i < h2.frags.len() implies body_frag(
        #[trigger] h2.frags[i],
    ) by {
        if i < h1.frags.len() {
            assert(h2.frags.take(h1.frags.len() as int)[i] == h2.frags[i]);
            assert(h1.frags[i] == h2.frags[i]);
        }
    }
}

/// Nothing changed is a body extension.
pub proof fn lemma_body_extend_refl(h: HtmlV)
    ensures
        body_extend(h, h),
{
    assert(h.frags.take(h.frags.len() as int) =~= h.frags);
}


/// Every fragment free text contributes may stand in the body.
pub proof fn lemma_text_frags_body(t: Seq<char>, w: bool)
    ensures
        forall|i: int|
            0 <= i < text_frags(t, w).len() ==> body_frag(#[trigger] text_frags(t, w)[i]),
{
    let fs = text_frags(t, w);
    assert forall|i: int| 0 <= i < fs.len() implies body_frag(#[trigger] fs[i]) by {
        if crate::chars::spec_trim(crate::chars::spec_norm(t)).len() == 0 {
        } else if w {
            assert(fs[i] == FragV::Word(
                crate::chars::spec_words(crate::chars::spec_norm(t), 0)[i],
            ));
        } else {
        }
    }
}

/// An unchanged scope extends its own top frame.
pub proof fn lemma_scope_extends_refl(sc: Seq<Seq<(Seq<char>, Seq<char>)>>)
    requires
        sc.len() >= 1,
    ensures
        scope_extends_top(sc, sc),
{
    assert(sc.last().take(sc.last().len() as int) =~= sc.last());
}

// ---------------------------------------------------------------------------
// The parser

// ---------------------------------------------------------------------------

/// Recursive-descent driver: a pull-based lexer feeding a one-token lookahead
/// buffer, with exclusive ownership of the scope stack and the document
/// builder for one compilation.
pub struct Parser {
    lexer: Lexer,
    look: Token,
    html: Html,
    scope: Scope,
}

impl Parser {
    /// The input characters, immutable for the run.
    pub closed spec fn chars(&self) -> Seq<char> {
        self.lexer@.chars
    }

    /// The cursor position after the lookahead token.
    pub closed spec fn pos(&self) -> nat {
        self.lexer@.pos
    }

    /// The lookahead token.
    pub closed spec fn look(&self) -> TokenV {
        self.look@
    }

    /// The document builder's abstract state.
    pub closed spec fn html_view(&self) -> HtmlV {
        self.html@
    }

    /// The scope stack's abstract state.
    pub closed spec fn scope_view(&self) -> Seq<Seq<(Seq<char>, Seq<char>)>> {
        self.scope@
    }

    /// The parser's whole abstract state.
    pub open spec fn pv(&self) -> PState {
        PState {
            pos: self.pos(),
            look: self.look(),
            html: self.html_view(),
            scope: self.scope_view(),
        }
    }

    /// The cursor stays inside the input and the global frame is present.
    pub open spec fn wf(&self) -> bool {
        &&& self.pos() <= self.chars().len()
        &&& self.scope_view().len() >= 1
    }

    /// How much input can still be consumed: positions left, plus one if the
    /// lookahead is not yet the end marker.
    pub open spec fn measure(&self) -> int {
        self.chars().len() - self.pos() + (if self.look() is Eof {
            0int
        } else {
            1int
        })
    }

    /// Build a parser over the input and pull the first token into the
    /// lookahead buffer.
    pub fn new(input: &str) -> (r: Result<Parser, CompileError>)
        ensures
            match r {
                Ok(p) => {
                    &&& p.wf()
                    &&& p.chars() == input@
                    &&& spec_next_token(input@, 0) matches LexStep::Next(tv, pp) && p.look() == tv
                        && p.pos() == pp
                    &&& p.html_view().frags.len() == 0
                    &&& !p.html_view().head_declared
                    &&& !p.html_view().body_opened
                    &&& !p.html_view().body_closed
                    &&& !p.html_view().word_per_line
                    &&& p.scope_view() =~= seq![Seq::<(Seq<char>, Seq<char>)>::empty()]
                },
                Err(e) => spec_next_token(input@, 0) is Fail && e.kind == ErrorKind::Lexical,
            },
    {
        let mut lexer = Lexer::new(input);
        match lexer.next_token() {
            Ok(t) => Ok(Parser { lexer, look: t, html: Html::new(), scope: Scope::new() }),
            Err(e) => Err(e),
        }
    }

    /// Consume the builder and produce the document string.
    pub fn into_html(self) -> (r: String)
        ensures
            r@ == spec_render(spec_finish(self.html_view())),
    {
        self.html.finish()
    }

    /// The current cursor position, for error reports.
    fn position(&self) -> (p: usize)
        ensures
            p == self.pos(),
    {
        self.lexer.position()
    }

    /// Consume the lookahead if it has the expected kind and pull the next
    /// token; otherwise report a syntax error and leave the state untouched.
    fn eat(&mut self, expected: TokKind) -> (r: Result<(), CompileError>)
        requires
            old(self).wf(),
        ensures
            final(self).wf(),
            final(self).chars() == old(self).chars(),
            final(self).html_view() == old(self).html_view(),
            final(self).scope_view() == old(self).scope_view(),
            match r {
                Ok(()) => {
                    &&& kind_of(old(self).look()) == expected
                    &&& spec_next_token(old(self).chars(), old(self).pos()) matches LexStep::Next(
                        tv,
                        pp,
                    ) && final(self).look() == tv && final(self).pos() == pp
                    &&& old(self).pos() <= final(self).pos()
                    &&& expected != TokKind::Eof ==> final(self).measure() < old(self).measure()
                },
                Err(e) => {
                    &&& kind_of(old(self).look()) != expected ==> e.kind == ErrorKind::Syntax
                        && final(self).look() == old(self).look()
                        && final(self).pos() == old(self).pos()
                    &&& kind_of(old(self).look()) == expected ==> e.kind == ErrorKind::Lexical
                        && spec_next_token(old(self).chars(), old(self).pos()) is Fail
                },
            },
    {
        let k = self.look.kind();
        if k == expected {
            proof {
                lemma_next_token_bounds(self.chars(), self.pos());
            }
            match self.lexer.next_token() {
                Ok(t) => {
                    self.look = t;
                    Ok(())
                },
                Err(e) => Err(e),
            }
        } else {
            Err(CompileError::new(ErrorKind::Syntax, self.position()))
        }
    }

    /// Consume a text token and hand back its payload; anything else is a
    /// syntax error.
    fn eat_any_text(&mut self) -> (r: Result<Vec<char>, CompileError>)
        requires
            old(self).wf(),
        ensures
            final(self).wf(),
            final(self).chars() == old(self).chars(),
            final(self).html_view() == old(self).html_view(),
            final(self).scope_view() == old(self).scope_view(),
            match r {
                Ok(t) => {
                    &&& old(self).look() matches TokenV::Text(p) && t@ == p
                    &&& spec_next_token(old(self).chars(), old(self).pos()) matches LexStep::Next(
                        tv,
                        pp,
                    ) && final(self).look() == tv && final(self).pos() == pp
                    &&& final(self).measure() < old(self).measure()
                },
                Err(e) => {
                    &&& !(old(self).look() is Text) ==> e.kind == ErrorKind::Syntax
                        && final(self).look() == old(self).look()
                        && final(self).pos() == old(self).pos()
                    &&& old(self).look() is Text ==> e.kind == ErrorKind::Lexical
                        && spec_next_token(old(self).chars(), old(self).pos()) is Fail
                },
            },
    {
        let payload = match &self.look {
            Token::Text(t) => t.clone(),
            _ => {
                let at = self.position();
                return Err(CompileError::new(ErrorKind::Syntax, at));
            },
        };
        proof {
            lemma_next_token_bounds(self.chars(), self.pos());
        }
        match self.lexer.next_token() {
            Ok(t) => {
                self.look = t;
                Ok(payload)
            },
            Err(e) => Err(e),
        }
    }

    /// Collect text tokens, space-joined, until the `stop` kind, and consume
    /// the stop token.
    fn collect_texts(&mut self, stop: TokKind) -> (r: Result<Vec<char>, CompileError>)
        requires
            old(self).wf(),
            stop == TokKind::Mkay || stop == TokKind::Tldr,
        ensures
            final(self).wf(),
            final(self).chars() == old(self).chars(),
            final(self).html_view() == old(self).html_view(),
            final(self).scope_view() == old(self).scope_view(),
            match r {
                Ok(t) => {
                    &&& sp_texts(
                        old(self).chars(),
                        old(self).pos(),
                        old(self).look(),
                        stop,
                        Seq::empty(),
                    ) matches RunOut::Done(tt, l2, p2) && t@ == tt && final(self).look() == l2
                        && final(self).pos() == p2
                    &&& final(self).measure() < old(self).measure()
                },
                Err(e) => {
                    &&& sp_texts(
                        old(self).chars(),
                        old(self).pos(),
                        old(self).look(),
                        stop,
                        Seq::empty(),
                    ) is Lex ==> e.kind == ErrorKind::Lexical
                    &&& sp_texts(
                        old(self).chars(),
                        old(self).pos(),
                        old(self).look(),
                        stop,
                        Seq::empty(),
                    ) is Stx ==> e.kind == ErrorKind::Syntax
                    &&& !(sp_texts(
                        old(self).chars(),
                        old(self).pos(),
                        old(self).look(),
                        stop,
                        Seq::empty(),
                    ) is Done)
                },
            },
    {
        let mut out: Vec<char> = Vec::new();
        loop
            invariant
                self.wf(),
                self.chars() == old(self).chars(),
                self.html_view() == old(self).html_view(),
                self.scope_view() == old(self).scope_view(),
                self.measure() <= old(self).measure(),
                stop == TokKind::Mkay || stop == TokKind::Tldr,
                sp_texts(self.chars(), self.pos(), self.look(), stop, out@) == sp_texts(
                    old(self).chars(),
                    old(self).pos(),
                    old(self).look(),
                    stop,
                    Seq::empty(),
                ),
            decreases self.measure(),
        {
            proof {
                crate::token::lemma_kind_cases(self.look());
            }
            let k = self.look.kind();
            if k == stop {
                return match self.eat(stop) {
                    Ok(()) => Ok(out),
                    Err(e) => Err(e),
                };
            }
            if k == TokKind::Eof {
                let at = self.position();
                return Err(CompileError::new(ErrorKind::Syntax, at));
            }
            if k != TokKind::Text {
                let at = self.position();
                return Err(CompileError::new(ErrorKind::Syntax, at));
            }
            let t = match self.eat_any_text() {
                Ok(t) => t,
                Err(e) => {
                    return Err(e);
                },
            };
            let ghost before = out@;
            if out.len() > 0 {
                out.push(' ');
            }
            append_chars(&mut out, &t);
            proof {
                assert(out@ =~= sp_join(before, t@));
            }
        }
    }

    /// Collect a run of consecutive text tokens, space-joined; the first
    /// non-text token stays in the lookahead.
    fn collect_free_texts(&mut self) -> (r: Result<Vec<char>, CompileError>)
        requires
            old(self).wf(),
            old(self).look() is Text,
        ensures
            final(self).wf(),
            final(self).chars() == old(self).chars(),
            final(self).html_view() == old(self).html_view(),
            final(self).scope_view() == old(self).scope_view(),
            match r {
                Ok(t) => {
                    &&& sp_free_texts(
                        old(self).chars(),
                        old(self).pos(),
                        old(self).look(),
                        Seq::empty(),
                    ) matches RunOut::Done(tt, l2, p2) && t@ == tt && final(self).look() == l2
                        && final(self).pos() == p2
                    &&& final(self).measure() < old(self).measure()
                },
                Err(e) => e.kind == ErrorKind::Lexical && sp_free_texts(
                    old(self).chars(),
                    old(self).pos(),
                    old(self).look(),
                    Seq::empty(),
                ) is Lex,
            },
    {
        let mut out: Vec<char> = Vec::new();
        loop
            invariant
                self.wf(),
                self.chars() == old(self).chars(),
                self.html_view() == old(self).html_view(),
                self.scope_view() == old(self).scope_view(),
                self.measure() <= old(self).measure(),
                sp_free_texts(self.chars(), self.pos(), self.look(), out@) == sp_free_texts(
                    old(self).chars(),
                    old(self).pos(),
                    old(self).look(),
                    Seq::empty(),
                ),
                !(self.look() is Text) ==> self.measure() < old(self).measure(),
            decreases self.measure(),
        {
            proof {
                crate::token::lemma_kind_cases(self.look());
            }
            if !self.look.is_text() {
                return Ok(out);
            }
            let t = match self.eat_any_text() {
                Ok(t) => t,
                Err(e) => {
                    return Err(e);
                },
            };
            let ghost before = out@;
            if out.len() > 0 {
                out.push(' ');
            }
            append_chars(&mut out, &t);
            proof {
                assert(out@ =~= sp_join(before, t@));
            }
        }
    }

    /// Parse `TITLE text #MKAY` after `#GIMMEH` and emit the title element.
    pub fn parse_title(&mut self) -> (r: Result<(), CompileError>)
        requires
            old(self).wf(),
            kind_of(old(self).look()) == TokKind::Gimmeh,
        ensures
            (match sp_title(old(self).chars(), old(self).pv()) {
                Ok(st) => r is Ok && final(self).pv() == st,
                Err(k) => r is Err && r->Err_0.kind == k,
            }),
            final(self).wf(),
            final(self).chars() == old(self).chars(),
            final(self).scope_view() == old(self).scope_view(),
            r is Err ==> final(self).html_view() == old(self).html_view(),
            r is Ok ==> {
                &&& spec_next_token(old(self).chars(), old(self).pos()) matches LexStep::Next(
                    l1,
                    p1,
                ) && kind_of(l1) == TokKind::Title && (after_kw_texts(
                    old(self).chars(),
                    p1,
                    TokKind::Mkay,
                ) matches RunOut::Done(t, l2, p2) && final(self).html_view() == (HtmlV {
                    frags: old(self).html_view().frags.push(FragV::Title(spec_trim(t))),
                    ..old(self).html_view()
                }) && final(self).look() == l2 && final(self).pos() == p2)
                &&& final(self).measure() < old(self).measure()
            },
    {
        match self.eat(TokKind::Gimmeh) {
            Ok(()) => {},
            Err(e) => {
                return Err(e);
            },
        }
        match self.eat(TokKind::Title) {
            Ok(()) => {},
            Err(e) => {
                return Err(e);
            },
        }
        let t = match self.collect_texts(TokKind::Mkay) {
            Ok(t) => t,
            Err(e) => {
                return Err(e);
            },
        };
        self.html.title(&t);
        Ok(())
    }

    /// Parse a comment `#OBTW plain text #TLDR` and emit it.
    pub fn parse_comment(&mut self) -> (r: Result<(), CompileError>)
        requires
            old(self).wf(),
            kind_of(old(self).look()) == TokKind::Obtw,
        ensures
            (match sp_comment(old(self).chars(), old(self).pv()) {
                Ok(st) => r is Ok && final(self).pv() == st,
                Err(k) => r is Err && r->Err_0.kind == k,
            }),
            final(self).wf(),
            final(self).chars() == old(self).chars(),
            final(self).scope_view() == old(self).scope_view(),
            final(self).html_view().head_declared == old(self).html_view().head_declared,
            final(self).html_view().body_opened == old(self).html_view().body_opened,
            final(self).html_view().body_closed == old(self).html_view().body_closed,
            final(self).html_view().word_per_line == old(self).html_view().word_per_line,
            r is Err ==> final(self).html_view() == old(self).html_view(),
            r is Ok ==> {
                &&& after_kw_texts(old(self).chars(), old(self).pos(), TokKind::Tldr)
                    matches RunOut::Done(t, l2, p2) && final(self).html_view() == (HtmlV {
                    frags: old(self).html_view().frags.push(FragV::Comment(spec_trim(t))),
                    ..old(self).html_view()
                }) && final(self).look() == l2 && final(self).pos() == p2
                &&& final(self).measure() < old(self).measure()
            },
    {
        match self.eat(TokKind::Obtw) {
            Ok(()) => {},
            Err(e) => {
                return Err(e);
            },
        }
        let t = match self.collect_texts(TokKind::Tldr) {
            Ok(t) => t,
            Err(e) => {
                return Err(e);
            },
        };
        self.html.comment(&t);
        Ok(())
    }

    /// Parse `BOLD text #MKAY` after `#GIMMEH` and emit bold inline text.
    pub fn parse_bold(&mut self) -> (r: Result<(), CompileError>)
        requires
            old(self).wf(),
            kind_of(old(self).look()) == TokKind::Bold,
        ensures
            (match sp_bold(old(self).chars(), old(self).pv()) {
                Ok(st) => r is Ok && final(self).pv() == st,
                Err(k) => r is Err && r->Err_0.kind == k,
            }),
            final(self).wf(),
            final(self).chars() == old(self).chars(),
            final(self).scope_view() == old(self).scope_view(),
            r is Err ==> final(self).html_view() == old(self).html_view(),
            r is Ok ==> {
                &&& after_kw_texts(old(self).chars(), old(self).pos(), TokKind::Mkay)
                    matches RunOut::Done(t, l2, p2) && final(self).html_view() == (HtmlV {
                    frags: after_begin_body(old(self).html_view()).frags.push(
                        FragV::Bold(spec_trim(t)),
                    ),
                    ..after_begin_body(old(self).html_view())
                }) && final(self).look() == l2 && final(self).pos() == p2
                &&& final(self).measure() < old(self).measure()
            },
    {
        match self.eat(TokKind::Bold) {
            Ok(()) => {},
            Err(e) => {
                return Err(e);
            },
        }
        let t = match self.collect_texts(TokKind::Mkay) {
            Ok(t) => t,
            Err(e) => {
                return Err(e);
            },
        };
        self.html.bold(&t);
        Ok(())
    }

    /// Parse `ITALICS text #MKAY` after `#GIMMEH` and emit italic inline text.
    pub fn parse_italics(&mut self) -> (r: Result<(), CompileError>)
        requires
            old(self).wf(),
            kind_of(old(self).look()) == TokKind::Italics,
        ensures
            (match sp_italics(old(self).chars(), old(self).pv()) {
                Ok(st) => r is Ok && final(self).pv() == st,
                Err(k) => r is Err && r->Err_0.kind == k,
            }),
            final(self).wf(),
            final(self).chars() == old(self).chars(),
            final(self).scope_view() == old(self).scope_view(),
            r is Err ==> final(self).html_view() == old(self).html_view(),
            r is Ok ==> {
                &&& after_kw_texts(old(self).chars(), old(self).pos(), TokKind::Mkay)
                    matches RunOut::Done(t, l2, p2) && final(self).html_view() == (HtmlV {
                    frags: after_begin_body(old(self).html_view()).frags.push(
                        FragV::Italics(spec_trim(t)),
                    ),
                    ..after_begin_body(old(self).html_view())
                }) && final(self).look() == l2 && final(self).pos() == p2
                &&& final(self).measure() < old(self).measure()
            },
    {
        match self.eat(TokKind::Italics) {
            Ok(()) => {},
            Err(e) => {
                return Err(e);
            },
        }
        let t = match self.collect_texts(TokKind::Mkay) {
            Ok(t) => t,
            Err(e) => {
                return Err(e);
            },
        };
        self.html.italics(&t);
        Ok(())
    }

    /// Parse `NEWLINE #MKAY` after `#GIMMEH` and emit a line break.
    pub fn parse_newline(&mut self) -> (r: Result<(), CompileError>)
        requires
            old(self).wf(),
            kind_of(old(self).look()) == TokKind::Newline,
        ensures
            (match sp_newline(old(self).chars(), old(self).pv()) {
                Ok(st) => r is Ok && final(self).pv() == st,
                Err(k) => r is Err && r->Err_0.kind == k,
            }),
            final(self).wf(),
            final(self).chars() == old(self).chars(),
            final(self).scope_view() == old(self).scope_view(),
            r is Err ==> final(self).html_view() == old(self).html_view(),
            r is Ok ==> {
                &&& final(self).html_view() == (HtmlV {
                    frags: after_begin_body(old(self).html_view()).frags.push(FragV::Br),
                    ..after_begin_body(old(self).html_view())
                })
                &&& final(self).measure() < old(self).measure()
            },
    {
        match self.eat(TokKind::Newline) {
            Ok(()) => {},
            Err(e) => {
                return Err(e);
            },
        }
        match self.eat(TokKind::Mkay) {
            Ok(()) => {},
            Err(e) => {
                return Err(e);
            },
        }
        self.html.br();
        Ok(())
    }

    /// Parse `SOUNDZ source #MKAY` after `#GIMMEH` and emit an audio element;
    /// the source value is escaped when the document is rendered.
    pub fn parse_audio(&mut self) -> (r: Result<(), CompileError>)
        requires
            old(self).wf(),
            kind_of(old(self).look()) == TokKind::Soundz,
        ensures
            (match sp_audio(old(self).chars(), old(self).pv()) {
                Ok(st) => r is Ok && final(self).pv() == st,
                Err(k) => r is Err && r->Err_0.kind == k,
            }),
            final(self).wf(),
            final(self).chars() == old(self).chars(),
            final(self).scope_view() == old(self).scope_view(),
            r is Err ==> final(self).html_view() == old(self).html_view(),
            r is Ok ==> {
                &&& after_kw_texts(old(self).chars(), old(self).pos(), TokKind::Mkay)
                    matches RunOut::Done(t, l2, p2) && final(self).html_view() == (HtmlV {
                    frags: old(self).html_view().frags.push(FragV::Audio(spec_trim(t))),
                    ..old(self).html_view()
                }) && final(self).look() == l2 && final(self).pos() == p2
                &&& final(self).measure() < old(self).measure()
            },
    {
        match self.eat(TokKind::Soundz) {
            Ok(()) => {},
            Err(e) => {
                return Err(e);
            },
        }
        let t = match self.collect_texts(TokKind::Mkay) {
            Ok(t) => t,
            Err(e) => {
                return Err(e);
            },
        };
        let trimmed = crate::chars::trim_chars(&t);
        self.html.push(Frag::Audio(trimmed));
        Ok(())
    }

    /// Parse `VIDZ source #MKAY` after `#GIMMEH` and emit a video embed; the
    /// source value is escaped when the document is rendered.
    pub fn parse_video(&mut self) -> (r: Result<(), CompileError>)
        requires
            old(self).wf(),
            kind_of(old(self).look()) == TokKind::Vidz,
        ensures
            (match sp_video(old(self).chars(), old(self).pv()) {
                Ok(st) => r is Ok && final(self).pv() == st,
                Err(k) => r is Err && r->Err_0.kind == k,
            }),
            final(self).wf(),
            final(self).chars() == old(self).chars(),
            final(self).scope_view() == old(self).scope_view(),
            r is Err ==> final(self).html_view() == old(self).html_view(),
            r is Ok ==> {
                &&& after_kw_texts(old(self).chars(), old(self).pos(), TokKind::Mkay)
                    matches RunOut::Done(t, l2, p2) && final(self).html_view() == (HtmlV {
                    frags: old(self).html_view().frags.push(FragV::Video(spec_trim(t))),
                    ..old(self).html_view()
                }) && final(self).look() == l2 && final(self).pos() == p2
                &&& final(self).measure() < old(self).measure()
            },
    {
        match self.eat(TokKind::Vidz) {
            Ok(()) => {},
            Err(e) => {
                return Err(e);
            },
        }
        let t = match self.collect_texts(TokKind::Mkay) {
            Ok(t) => t,
            Err(e) => {
                return Err(e);
            },
        };
        let trimmed = crate::chars::trim_chars(&t);
        self.html.push(Frag::Video(trimmed));
        Ok(())
    }

    /// Parse a run of free text tokens and emit it: one fragment per word
    /// outside a paragraph, one whole fragment inside.
    pub fn parse_text(&mut self) -> (r: Result<(), CompileError>)
        requires
            old(self).wf(),
            old(self).look() is Text,
        ensures
            (match sp_text_item(old(self).chars(), old(self).pv()) {
                Ok(st) => r is Ok && final(self).pv() == st,
                Err(k) => r is Err && r->Err_0.kind == k,
            }),
            final(self).wf(),
            final(self).chars() == old(self).chars(),
            final(self).scope_view() == old(self).scope_view(),
            r is Err ==> final(self).html_view() == old(self).html_view(),
            r is Ok ==> {
                &&& sp_free_texts(
                    old(self).chars(),
                    old(self).pos(),
                    old(self).look(),
                    Seq::empty(),
                ) matches RunOut::Done(t, l2, p2) && final(self).html_view() == (HtmlV {
                    frags: after_begin_body(old(self).html_view()).frags + text_frags(
                        t,
                        after_begin_body(old(self).html_view()).word_per_line,
                    ),
                    ..after_begin_body(old(self).html_view())
                }) && final(self).look() == l2 && final(self).pos() == p2
                &&& final(self).measure() < old(self).measure()
            },
    {
        let t = match self.collect_free_texts() {
            Ok(t) => t,
            Err(e) => {
                return Err(e);
            },
        };
        self.html.text(&t);
        Ok(())
    }

    /// Parse `#I HAZ name #IT IZ value #MKAY` and bind the variable in the
    /// innermost frame; nothing is emitted.
    pub fn parse_variable_define(&mut self) -> (r: Result<(), CompileError>)
        requires
            old(self).wf(),
            kind_of(old(self).look()) == TokKind::IHaz,
        ensures
            (match sp_var_define(old(self).chars(), old(self).pv()) {
                Ok(st) => r is Ok && final(self).pv() == st,
                Err(k) => r is Err && r->Err_0.kind == k,
            }),
            final(self).wf(),
            final(self).chars() == old(self).chars(),
            final(self).html_view() == old(self).html_view(),
            r is Err ==> final(self).scope_view() == old(self).scope_view(),
            r is Ok ==> {
                &&& spec_next_token(old(self).chars(), old(self).pos()) matches LexStep::Next(
                    nt,
                    p1,
                ) && nt matches TokenV::Text(n) && (spec_next_token(old(self).chars(), p1)
                    matches LexStep::Next(iz, p2) && kind_of(iz) == TokKind::ItIz && (
                after_kw_texts(old(self).chars(), p2, TokKind::Mkay) matches RunOut::Done(
                    v,
                    l4,
                    p4,
                ) && final(self).scope_view() == old(self).scope_view().update(
                    old(self).scope_view().len() - 1,
                    old(self).scope_view().last().push((n, v)),
                ) && final(self).look() == l4 && final(self).pos() == p4))
                &&& scope_extends_top(old(self).scope_view(), final(self).scope_view())
                &&& final(self).scope_view().last().len() == old(self).scope_view().last().len()
                    + 1
                &&& final(self).measure() < old(self).measure()
            },
    {
        match self.eat(TokKind::IHaz) {
            Ok(()) => {},
            Err(e) => {
                return Err(e);
            },
        }
        let name = match self.eat_any_text() {
            Ok(t) => t,
            Err(e) => {
                return Err(e);
            },
        };
        match self.eat(TokKind::ItIz) {
            Ok(()) => {},
            Err(e) => {
                return Err(e);
            },
        }
        let val = match self.collect_texts(TokKind::Mkay) {
            Ok(t) => t,
            Err(e) => {
                return Err(e);
            },
        };
        let ghost before = self.scope_view();
        self.scope.define(&name, val);
        proof {
            assert(self.scope_view().last() == before.last().push((name@, val@)));
            assert(self.scope_view().last().take(before.last().len() as int) =~= before.last());
        }
        Ok(())
    }

    /// Parse `#LEMME SEE name #MKAY` and emit the nearest enclosing value of
    /// the variable.  A reference with no visible definition is a fatal
    /// semantic error, and exactly then.
    pub fn parse_variable_use(&mut self) -> (r: Result<(), CompileError>)
        requires
            old(self).wf(),
            kind_of(old(self).look()) == TokKind::LemmeSee,
        ensures
            (match sp_var_use(old(self).chars(), old(self).pv()) {
                Ok(st) => r is Ok && final(self).pv() == st,
                Err(k) => r is Err && r->Err_0.kind == k,
            }),
            final(self).wf(),
            final(self).chars() == old(self).chars(),
            final(self).scope_view() == old(self).scope_view(),
            match r {
                Ok(()) => {
                    &&& spec_next_token(old(self).chars(), old(self).pos()) matches LexStep::Next(
                        nt,
                        p1,
                    ) && nt matches TokenV::Text(n) && (spec_resolve(old(self).scope_view(), n)
                        matches Some(v) && final(self).html_view() == (HtmlV {
                        frags: old(self).html_view().frags.push(FragV::Var(v)),
                        ..old(self).html_view()
                    }))
                    &&& final(self).measure() < old(self).measure()
                },
                Err(e) => {
                    &&& final(self).html_view() == old(self).html_view()
                    &&& e.kind == ErrorKind::Semantic ==> (spec_next_token(
                        old(self).chars(),
                        old(self).pos(),
                    ) matches LexStep::Next(nt, p1) && nt matches TokenV::Text(n) && spec_resolve(
                        old(self).scope_view(),
                        n,
                    ) is None)
                },
            },
    {
        match self.eat(TokKind::LemmeSee) {
            Ok(()) => {},
            Err(e) => {
                return Err(e);
            },
        }
        let name = match self.eat_any_text() {
            Ok(t) => t,
            Err(e) => {
                return Err(e);
            },
        };
        match self.eat(TokKind::Mkay) {
            Ok(()) => {},
            Err(e) => {
                return Err(e);
            },
        }
        match self.scope.resolve(&name) {
            Some(v) => {
                self.html.push(Frag::Var(v));
                Ok(())
            },
            None => {
                let at = self.position();
                Err(CompileError::new(ErrorKind::Semantic, at))
            },
        }
    }

    /// Parse one element of a paragraph's inner text: inline markup, a
    /// variable reference, free text, a comment, or a tolerated stray
    /// `#MKAY`.
    pub fn parse_inner_text(&mut self) -> (r: Result<(), CompileError>)
        requires
            old(self).wf(),
            old(self).html_view().body_opened,
            !old(self).html_view().body_closed,
            kind_of(old(self).look()) != TokKind::Oic,
            kind_of(old(self).look()) != TokKind::Eof,
        ensures
            final(self).wf(),
            final(self).chars() == old(self).chars(),
            r is Ok ==> body_extend(old(self).html_view(), final(self).html_view()) && final(self).scope_view() == old(self).scope_view() && final(self).measure() < old(self).measure(),
            (match sp_inner_text(old(self).chars(), old(self).pv()) {
                Ok(st) => r is Ok && final(self).pv() == st,
                Err(k) => r is Err && r->Err_0.kind == k,
            }),
    {
        proof {
            crate::token::lemma_kind_cases(self.look());
        }
        let ghost h0 = self.html_view();
        let k = self.look.kind();
        if k == TokKind::Gimmeh {
            match self.eat(TokKind::Gimmeh) {
                Ok(()) => {},
                Err(e) => {
                    return Err(e);
                },
            }
            proof {
                crate::token::lemma_kind_cases(self.look());
            }
            let k2 = self.look.kind();
            if k2 == TokKind::Bold {
                match self.parse_bold() {
                    Ok(()) => {},
                    Err(e) => {
                        return Err(e);
                    },
                }
            } else if k2 == TokKind::Italics {
                match self.parse_italics() {
                    Ok(()) => {},
                    Err(e) => {
                        return Err(e);
                    },
                }
            } else if k2 == TokKind::Newline {
                match self.parse_newline() {
                    Ok(()) => {},
                    Err(e) => {
                        return Err(e);
                    },
                }
            } else {
                let at = self.position();
                return Err(CompileError::new(ErrorKind::Syntax, at));
            }
            proof {
                assert(after_begin_body(h0) == h0);
                assert(self.html_view().frags.take(h0.frags.len() as int) =~= h0.frags);
            }
        } else if k == TokKind::LemmeSee {
            match self.parse_variable_use() {
                Ok(()) => {},
                Err(e) => {
                    return Err(e);
                },
            }
            proof {
                lemma_body_extend_push(h0, self.html_view(), self.html_view().frags.last());
            }
        } else if k == TokKind::Text {
            match self.parse_text() {
                Ok(()) => {},
                Err(e) => {
                    return Err(e);
                },
            }
            proof {
                assert(after_begin_body(h0) == h0);
                if let RunOut::Done(t, l2, p2) = sp_free_texts(
                    old(self).chars(),
                    old(self).pos(),
                    old(self).look(),
                    Seq::empty(),
                ) {
                    lemma_text_frags_body(t, h0.word_per_line);
                    lemma_body_extend_append(h0, self.html_view(), text_frags(
                        t,
                        h0.word_per_line,
                    ));
                }
            }
        } else if k == TokKind::Obtw {
            match self.parse_comment() {
                Ok(()) => {},
                Err(e) => {
                    return Err(e);
                },
            }
            proof {
                lemma_body_extend_push(h0, self.html_view(), self.html_view().frags.last());
            }
        } else if k == TokKind::Mkay {
            match self.eat(TokKind::Mkay) {
                Ok(()) => {},
                Err(e) => {
                    return Err(e);
                },
            }
            proof {
                lemma_body_extend_refl(h0);
            }
        } else {
            let at = self.position();
            return Err(CompileError::new(ErrorKind::Syntax, at));
        }
        Ok(())
    }

    /// Parse a paragraph's inner content, element by element, up to the
    /// closing `#OIC`.
    pub fn parse_inner_paragraph(&mut self) -> (r: Result<(), CompileError>)
        requires
            old(self).wf(),
            old(self).html_view().body_opened,
            !old(self).html_view().body_closed,
        ensures
            final(self).wf(),
            final(self).chars() == old(self).chars(),
            r is Ok ==> body_extend(old(self).html_view(), final(self).html_view()) && final(self).scope_view() == old(self).scope_view() && final(self).measure() <= old(self).measure(),
            (match sp_inner_paragraph(old(self).chars(), old(self).pv()) {
                Ok(st) => r is Ok && final(self).pv() == st,
                Err(k) => r is Err && r->Err_0.kind == k,
            }),
    {
        proof {
            lemma_body_extend_refl(self.html_view());
        }
        loop
            invariant
                self.wf(),
                self.chars() == old(self).chars(),
                self.scope_view() == old(self).scope_view(),
                old(self).html_view().body_opened,
                !old(self).html_view().body_closed,
                body_extend(old(self).html_view(), self.html_view()),
                self.measure() <= old(self).measure(),
                sp_inner_paragraph(self.chars(), old(self).pv()) == sp_inner_paragraph(
                    self.chars(),
                    self.pv(),
                ),
            decreases self.measure(),
        {
            let k = self.look.kind();
            if k == TokKind::Oic || k == TokKind::Eof {
                return Ok(());
            }
            let ghost mid = self.html_view();
            let ghost stit = self.pv();
            match self.parse_inner_text() {
                Ok(()) => {},
                Err(e) => {
                    return Err(e);
                },
            }
            proof {
                lemma_body_extend_trans(old(self).html_view(), mid, self.html_view());
                assert(sp_inner_paragraph(self.chars(), stit) == sp_inner_paragraph(
                    self.chars(),
                    self.pv(),
                ));
            }
        }
    }

    /// Parse `PARAGRAF ... #OIC` after `#MAEK`: a fresh scope frame, an
    /// optional leading variable definition, inner text, and the paragraph
    /// brackets.  Definitions made inside are invisible outside: the scope
    /// leaves exactly as it entered.
    pub fn parse_paragraph(&mut self) -> (r: Result<(), CompileError>)
        requires
            old(self).wf(),
            kind_of(old(self).look()) == TokKind::Paragraf,
            old(self).html_view().body_opened,
            !old(self).html_view().body_closed,
            old(self).html_view().word_per_line,
        ensures
            final(self).wf(),
            final(self).chars() == old(self).chars(),
            r is Ok ==> body_extend(old(self).html_view(), final(self).html_view()) && final(self).scope_view() =~= old(self).scope_view() && final(self).measure() < old(self).measure(),
            (match sp_paragraph(old(self).chars(), old(self).pv()) {
                Ok(st) => r is Ok && final(self).pv() == st,
                Err(k) => r is Err && r->Err_0.kind == k,
            }),
    {
        let ghost h0 = old(self).html_view();
        let ghost sc0 = old(self).scope_view();
        match self.eat(TokKind::Paragraf) {
            Ok(()) => {},
            Err(e) => {
                return Err(e);
            },
        }
        self.scope.push();
        let ghost sc1 = self.scope_view();
        self.html.begin_p();
        let ghost h1 = self.html_view();
        proof {
            assert(after_begin_body(h0) == h0);
            assert(h1.frags == h0.frags.push(FragV::POpen));
        }
        if self.look.kind() == TokKind::IHaz {
            proof {
                crate::token::lemma_kind_cases(self.look());
            }
            match self.parse_variable_define() {
                Ok(()) => {},
                Err(e) => {
                    return Err(e);
                },
            }
        }
        let ghost sc2 = self.scope_view();
        let ghost h1b = self.html_view();
        match self.parse_inner_paragraph() {
            Ok(()) => {},
            Err(e) => {
                return Err(e);
            },
        }
        let ghost h2 = self.html_view();
        match self.eat(TokKind::Oic) {
            Ok(()) => {},
            Err(e) => {
                return Err(e);
            },
        }
        self.html.end_p();
        self.scope.pop();
        proof {
            // the scope frame pushed on entry leaves on exit, bindings and all
            assert(self.scope_view() =~= sc0);
            // the builder gained the paragraph brackets and body fragments only
            let hf = self.html_view();
            assert(hf.frags == h2.frags.push(FragV::PClose));
            assert(h2.frags.take(h1.frags.len() as int) == h1.frags);
            assert forall|i: int| 0 <= i < h0.frags.len() implies hf.frags[i] == h0.frags[i] by {
                assert(h2.frags.take(h1.frags.len() as int)[i] == h2.frags[i]);
                assert(h1.frags[i] == h0.frags[i]);
            }
            assert(hf.frags.take(h0.frags.len() as int) =~= h0.frags);
            assert forall|i: int| h0.frags.len() <= i < hf.frags.len() implies body_frag(
                #[trigger] hf.frags[i],
            ) by {
                if i == h0.frags.len() {
                    assert(h2.frags.take(h1.frags.len() as int)[i] == h2.frags[i]);
                    assert(h1.frags[i] == FragV::POpen);
                    assert(hf.frags[i] == FragV::POpen);
                } else if i < h2.frags.len() {
                    assert(hf.frags[i] == h2.frags[i]);
                } else {
                    assert(hf.frags[i] == FragV::PClose);
                }
            }
        }
        Ok(())
    }

    /// Parse rich inline content up to a terminating `#MKAY`, which is
    /// consumed.
    pub fn parse_inline_until_mkay(&mut self) -> (r: Result<(), CompileError>)
        requires
            old(self).wf(),
            old(self).html_view().body_opened,
            !old(self).html_view().body_closed,
        ensures
            final(self).wf(),
            final(self).chars() == old(self).chars(),
            r is Ok ==> body_extend(old(self).html_view(), final(self).html_view()) && final(self).scope_view() == old(self).scope_view() && final(self).measure() < old(self).measure(),
            (match sp_inline(old(self).chars(), old(self).pv()) {
                Ok(st) => r is Ok && final(self).pv() == st,
                Err(k) => r is Err && r->Err_0.kind == k,
            }),
    {
        proof {
            lemma_body_extend_refl(self.html_view());
        }
        loop
            invariant
                self.wf(),
                self.chars() == old(self).chars(),
                self.scope_view() == old(self).scope_view(),
                old(self).html_view().body_opened,
                !old(self).html_view().body_closed,
                body_extend(old(self).html_view(), self.html_view()),
                self.measure() <= old(self).measure(),
                sp_inline(self.chars(), old(self).pv()) == sp_inline(self.chars(), self.pv()),
            decreases self.measure(),
        {
            proof {
                crate::token::lemma_kind_cases(self.look());
            }
            let ghost mid = self.html_view();
            let ghost stit = self.pv();
            let ghost ml = self.look();
            let ghost mp = self.pos();
            let k = self.look.kind();
            if k == TokKind::Mkay {
                return match self.eat(TokKind::Mkay) {
                    Ok(()) => Ok(()),
                    Err(e) => Err(e),
                };
            }
            if k == TokKind::Eof {
                let at = self.position();
                return Err(CompileError::new(ErrorKind::Syntax, at));
            }
            if k == TokKind::Gimmeh {
                match self.eat(TokKind::Gimmeh) {
                    Ok(()) => {},
                    Err(e) => {
                        return Err(e);
                    },
                }
                proof {
                    crate::token::lemma_kind_cases(self.look());
                }
                let k2 = self.look.kind();
                if k2 == TokKind::Bold {
                    match self.parse_bold() {
                        Ok(()) => {},
                        Err(e) => {
                            return Err(e);
                        },
                    }
                } else if k2 == TokKind::Italics {
                    match self.parse_italics() {
                        Ok(()) => {},
                        Err(e) => {
                            return Err(e);
                        },
                    }
                } else if k2 == TokKind::Newline {
                    match self.parse_newline() {
                        Ok(()) => {},
                        Err(e) => {
                            return Err(e);
                        },
                    }
                } else {
                    let at = self.position();
                    return Err(CompileError::new(ErrorKind::Syntax, at));
                }
                proof {
                    assert(after_begin_body(mid) == mid);
                    assert(self.html_view().frags.take(mid.frags.len() as int) =~= mid.frags);
                    lemma_body_extend_trans(old(self).html_view(), mid, self.html_view());
                    assert(sp_inline(self.chars(), stit) == sp_inline(self.chars(), self.pv()));
                }
            } else if k == TokKind::LemmeSee {
                match self.parse_variable_use() {
                    Ok(()) => {},
                    Err(e) => {
                        return Err(e);
                    },
                }
                proof {
                    lemma_body_extend_push(mid, self.html_view(), self.html_view().frags.last());
                    lemma_body_extend_trans(old(self).html_view(), mid, self.html_view());
                    assert(sp_inline(self.chars(), stit) == sp_inline(self.chars(), self.pv()));
                }
            } else if k == TokKind::Text {
                match self.parse_text() {
                    Ok(()) => {},
                    Err(e) => {
                        return Err(e);
                    },
                }
                proof {
                    assert(after_begin_body(mid) == mid);
                    if let RunOut::Done(t, l2, p2) = sp_free_texts(
                        self.chars(),
                        mp,
                        ml,
                        Seq::empty(),
                    ) {
                        lemma_text_frags_body(t, mid.word_per_line);
                        lemma_body_extend_append(mid, self.html_view(), text_frags(
                            t,
                            mid.word_per_line,
                        ));
                    }
                    lemma_body_extend_trans(old(self).html_view(), mid, self.html_view());
                    assert(sp_inline(self.chars(), stit) == sp_inline(self.chars(), self.pv()));
                }
            } else if k == TokKind::Obtw {
                match self.parse_comment() {
                    Ok(()) => {},
                    Err(e) => {
                        return Err(e);
                    },
                }
                proof {
                    lemma_body_extend_push(mid, self.html_view(), self.html_view().frags.last());
                    lemma_body_extend_trans(old(self).html_view(), mid, self.html_view());
                    assert(sp_inline(self.chars(), stit) == sp_inline(self.chars(), self.pv()));
                }
            } else {
                let at = self.position();
                return Err(CompileError::new(ErrorKind::Syntax, at));
            }
        }
    }

    /// Parse one list item `ITEM inline #MKAY` after `#GIMMEH` and emit it.
    pub fn parse_list_items(&mut self) -> (r: Result<(), CompileError>)
        requires
            old(self).wf(),
            kind_of(old(self).look()) == TokKind::Item,
            old(self).html_view().body_opened,
            !old(self).html_view().body_closed,
        ensures
            final(self).wf(),
            final(self).chars() == old(self).chars(),
            r is Ok ==> body_extend(old(self).html_view(), final(self).html_view())
                && final(self).scope_view() == old(self).scope_view()
                && final(self).measure() < old(self).measure(),
            (match sp_list_items(old(self).chars(), old(self).pv()) {
                Ok(st) => r is Ok && final(self).pv() == st,
                Err(k) => r is Err && r->Err_0.kind == k,
            }),
    {
        let ghost h0 = self.html_view();
        match self.eat(TokKind::Item) {
            Ok(()) => {},
            Err(e) => {
                return Err(e);
            },
        }
        self.html.push(Frag::LiOpen);
        let ghost h1 = self.html_view();
        proof {
            lemma_body_extend_push(h0, h1, FragV::LiOpen);
        }
        match self.parse_inner_list() {
            Ok(()) => {},
            Err(e) => {
                return Err(e);
            },
        }
        let ghost h2 = self.html_view();
        self.html.push(Frag::LiClose);
        proof {
            lemma_body_extend_trans(h0, h1, h2);
            lemma_body_extend_push(h2, self.html_view(), FragV::LiClose);
            lemma_body_extend_trans(h0, h2, self.html_view());
        }
        Ok(())
    }

    /// Parse the inline content of one list item, up to its `#MKAY`.
    pub fn parse_inner_list(&mut self) -> (r: Result<(), CompileError>)
        requires
            old(self).wf(),
            old(self).html_view().body_opened,
            !old(self).html_view().body_closed,
        ensures
            final(self).wf(),
            final(self).chars() == old(self).chars(),
            r is Ok ==> body_extend(old(self).html_view(), final(self).html_view())
                && final(self).scope_view() == old(self).scope_view()
                && final(self).measure() < old(self).measure(),
            (match sp_inline(old(self).chars(), old(self).pv()) {
                Ok(st) => r is Ok && final(self).pv() == st,
                Err(k) => r is Err && r->Err_0.kind == k,
            }),
    {
        self.parse_inline_until_mkay()
    }

    /// Parse `LIST ... #OIC` after `#MAEK`: items, line breaks and comments
    /// between unordered-list brackets.
    pub fn parse_list(&mut self) -> (r: Result<(), CompileError>)
        requires
            old(self).wf(),
            kind_of(old(self).look()) == TokKind::List,
            old(self).html_view().body_opened,
            !old(self).html_view().body_closed,
        ensures
            final(self).wf(),
            final(self).chars() == old(self).chars(),
            r is Ok ==> body_extend(old(self).html_view(), final(self).html_view())
                && final(self).scope_view() == old(self).scope_view()
                && final(self).measure() < old(self).measure(),
            (match sp_list(old(self).chars(), old(self).pv()) {
                Ok(st) => r is Ok && final(self).pv() == st,
                Err(k) => r is Err && r->Err_0.kind == k,
            }),
    {
        let ghost h0 = self.html_view();
        match self.eat(TokKind::List) {
            Ok(()) => {},
            Err(e) => {
                return Err(e);
            },
        }
        self.html.push(Frag::UlOpen);
        proof {
            lemma_body_extend_push(h0, self.html_view(), FragV::UlOpen);
        }
        loop
            invariant
                self.wf(),
                self.chars() == old(self).chars(),
                self.scope_view() == old(self).scope_view(),
                old(self).html_view().body_opened,
                !old(self).html_view().body_closed,
                body_extend(old(self).html_view(), self.html_view()),
                self.measure() < old(self).measure(),
                sp_list(self.chars(), old(self).pv()) == sp_list_body(self.chars(), self.pv()),
            decreases self.measure(),
        {
            proof {
                crate::token::lemma_kind_cases(self.look());
            }
            let ghost mid = self.html_view();
            let k = self.look.kind();
            if k == TokKind::Gimmeh {
                match self.eat(TokKind::Gimmeh) {
                    Ok(()) => {},
                    Err(e) => {
                        return Err(e);
                    },
                }
                proof {
                    crate::token::lemma_kind_cases(self.look());
                }
                let k2 = self.look.kind();
                if k2 == TokKind::Item {
                    match self.parse_list_items() {
                        Ok(()) => {},
                        Err(e) => {
                            return Err(e);
                        },
                    }
                } else if k2 == TokKind::Newline {
                    match self.parse_newline() {
                        Ok(()) => {},
                        Err(e) => {
                            return Err(e);
                        },
                    }
                    proof {
                        assert(after_begin_body(mid) == mid);
                        assert(self.html_view().frags.take(mid.frags.len() as int)
                            =~= mid.frags);
                    }
                } else {
                    let at = self.position();
                    return Err(CompileError::new(ErrorKind::Syntax, at));
                }
                proof {
                    lemma_body_extend_trans(old(self).html_view(), mid, self.html_view());
                    assert(sp_list(self.chars(), old(self).pv()) == sp_list_body(
                        self.chars(),
                        self.pv(),
                    ));
                }
            } else if k == TokKind::Obtw {
                match self.parse_comment() {
                    Ok(()) => {},
                    Err(e) => {
                        return Err(e);
                    },
                }
                proof {
                    lemma_body_extend_push(mid, self.html_view(), self.html_view().frags.last());
                    lemma_body_extend_trans(old(self).html_view(), mid, self.html_view());
                    assert(sp_list(self.chars(), old(self).pv()) == sp_list_body(
                        self.chars(),
                        self.pv(),
                    ));
                }
            } else if k == TokKind::Oic {
                match self.eat(TokKind::Oic) {
                    Ok(()) => {},
                    Err(e) => {
                        return Err(e);
                    },
                }
                self.html.push(Frag::UlClose);
                proof {
                    lemma_body_extend_push(mid, self.html_view(), FragV::UlClose);
                    lemma_body_extend_trans(old(self).html_view(), mid, self.html_view());
                }
                return Ok(());
            } else {
                let at = self.position();
                return Err(CompileError::new(ErrorKind::Syntax, at));
            }
        }
    }

    /// Parse `HEAD #GIMMEH TITLE ... #MKAY #OIC` after `#MAEK`: the head
    /// section holding exactly one title.
    pub fn parse_head(&mut self) -> (r: Result<(), CompileError>)
        requires
            old(self).wf(),
            kind_of(old(self).look()) == TokKind::Head,
        ensures
            final(self).wf(),
            final(self).chars() == old(self).chars(),
            r is Ok ==> final(self).scope_view() == old(self).scope_view()
                && final(self).measure() < old(self).measure()
                && exists|t: Seq<char>|
                    head_block(old(self).html_view(), final(self).html_view(), t),
            (match sp_head(old(self).chars(), old(self).pv()) {
                Ok(st) => r is Ok && final(self).pv() == st,
                Err(k) => r is Err && r->Err_0.kind == k,
            }),
    {
        let ghost h0 = self.html_view();
        match self.eat(TokKind::Head) {
            Ok(()) => {},
            Err(e) => {
                return Err(e);
            },
        }
        self.html.begin_head();
        let ghost mp = self.pos();
        proof {
            crate::token::lemma_kind_cases(self.look());
        }
        if self.look.kind() != TokKind::Gimmeh {
            let at = self.position();
            return Err(CompileError::new(ErrorKind::Syntax, at));
        }
        match self.parse_title() {
            Ok(()) => {},
            Err(e) => {
                return Err(e);
            },
        }
        match self.eat(TokKind::Oic) {
            Ok(()) => {},
            Err(e) => {
                return Err(e);
            },
        }
        self.html.end_head();
        proof {
            if let LexStep::Next(l1, p1) = spec_next_token(self.chars(), mp) {
                if let RunOut::Done(t, l2, p2) = after_kw_texts(self.chars(), p1, TokKind::Mkay) {
                    let tt = spec_trim(t);
                    assert(head_block(h0, self.html_view(), tt)) by {
                        assert(h0.frags.push(FragV::HeadOpen).push(FragV::Title(tt)).push(
                            FragV::HeadClose,
                        ) =~= h0.frags + seq![
                            FragV::HeadOpen,
                            FragV::Title(tt),
                            FragV::HeadClose,
                        ]);
                    }
                }
            }
        }
        Ok(())
    }

    /// Parse one body item: a paragraph or list after `#MAEK`; a line break,
    /// inline markup, media embed or discarded stray title after `#GIMMEH`; a
    /// variable definition or reference; free text; a comment; or a tolerated
    /// stray `#MKAY`.
    pub fn parse_body(&mut self) -> (r: Result<(), CompileError>)
        requires
            old(self).wf(),
            old(self).html_view().body_opened,
            !old(self).html_view().body_closed,
            old(self).html_view().word_per_line,
            kind_of(old(self).look()) != TokKind::Kthxbye,
            kind_of(old(self).look()) != TokKind::Eof,
        ensures
            final(self).wf(),
            final(self).chars() == old(self).chars(),
            r is Ok ==> body_extend(old(self).html_view(), final(self).html_view())
                && scope_extends_top(old(self).scope_view(), final(self).scope_view())
                && final(self).measure() < old(self).measure(),
            (match sp_body_item(old(self).chars(), old(self).pv()) {
                Ok(st) => r is Ok && final(self).pv() == st,
                Err(k) => r is Err && r->Err_0.kind == k,
            }),
    {
        proof {
            crate::token::lemma_kind_cases(self.look());
        }
        let ghost h0 = self.html_view();
        let ghost sc0 = self.scope_view();
        let k = self.look.kind();
        if k == TokKind::Maek {
            match self.eat(TokKind::Maek) {
                Ok(()) => {},
                Err(e) => {
                    return Err(e);
                },
            }
            proof {
                crate::token::lemma_kind_cases(self.look());
            }
            let k2 = self.look.kind();
            if k2 == TokKind::Paragraf {
                match self.parse_paragraph() {
                    Ok(()) => {},
                    Err(e) => {
                        return Err(e);
                    },
                }
            } else if k2 == TokKind::List {
                match self.parse_list() {
                    Ok(()) => {},
                    Err(e) => {
                        return Err(e);
                    },
                }
            } else {
                let at = self.position();
                return Err(CompileError::new(ErrorKind::Syntax, at));
            }
            proof {
                lemma_scope_extends_refl(sc0);
            }
        } else if k == TokKind::Gimmeh {
            match self.eat(TokKind::Gimmeh) {
                Ok(()) => {},
                Err(e) => {
                    return Err(e);
                },
            }
            proof {
                crate::token::lemma_kind_cases(self.look());
            }
            let k2 = self.look.kind();
            if k2 == TokKind::Newline {
                match self.parse_newline() {
                    Ok(()) => {},
                    Err(e) => {
                        return Err(e);
                    },
                }
            } else if k2 == TokKind::Bold {
                match self.parse_bold() {
                    Ok(()) => {},
                    Err(e) => {
                        return Err(e);
                    },
                }
            } else if k2 == TokKind::Italics {
                match self.parse_italics() {
                    Ok(()) => {},
                    Err(e) => {
                        return Err(e);
                    },
                }
            } else if k2 == TokKind::Soundz {
                match self.parse_audio() {
                    Ok(()) => {},
                    Err(e) => {
                        return Err(e);
                    },
                }
            } else if k2 == TokKind::Vidz {
                match self.parse_video() {
                    Ok(()) => {},
                    Err(e) => {
                        return Err(e);
                    },
                }
            } else if k2 == TokKind::Title {
                // a title declared outside a head is recognized and discarded:
                // no title element may appear outside the head section
                match self.eat(TokKind::Title) {
                    Ok(()) => {},
                    Err(e) => {
                        return Err(e);
                    },
                }
                let _discarded = match self.collect_texts(TokKind::Mkay) {
                    Ok(t) => t,
                    Err(e) => {
                        return Err(e);
                    },
                };
            } else {
                let at = self.position();
                return Err(CompileError::new(ErrorKind::Syntax, at));
            }
            proof {
                assert(after_begin_body(h0) == h0);
                assert(self.html_view().frags.take(h0.frags.len() as int) =~= h0.frags);
                lemma_scope_extends_refl(sc0);
            }
        } else if k == TokKind::IHaz {
            match self.parse_variable_define() {
                Ok(()) => {},
                Err(e) => {
                    return Err(e);
                },
            }
            proof {
                lemma_body_extend_refl(h0);
            }
        } else if k == TokKind::LemmeSee {
            match self.parse_variable_use() {
                Ok(()) => {},
                Err(e) => {
                    return Err(e);
                },
            }
            proof {
                lemma_body_extend_push(h0, self.html_view(), self.html_view().frags.last());
                lemma_scope_extends_refl(sc0);
            }
        } else if k == TokKind::Text {
            let ghost ml = self.look();
            let ghost mp = self.pos();
            match self.parse_text() {
                Ok(()) => {},
                Err(e) => {
                    return Err(e);
                },
            }
            proof {
                assert(after_begin_body(h0) == h0);
                if let RunOut::Done(t, l2, p2) = sp_free_texts(
                    self.chars(),
                    mp,
                    ml,
                    Seq::empty(),
                ) {
                    lemma_text_frags_body(t, h0.word_per_line);
                    lemma_body_extend_append(h0, self.html_view(), text_frags(
                        t,
                        h0.word_per_line,
                    ));
                }
                lemma_scope_extends_refl(sc0);
            }
        } else if k == TokKind::Obtw {
            match self.parse_comment() {
                Ok(()) => {},
                Err(e) => {
                    return Err(e);
                },
            }
            proof {
                lemma_body_extend_push(h0, self.html_view(), self.html_view().frags.last());
                lemma_scope_extends_refl(sc0);
            }
        } else if k == TokKind::Mkay {
            match self.eat(TokKind::Mkay) {
                Ok(()) => {},
                Err(e) => {
                    return Err(e);
                },
            }
            proof {
                lemma_body_extend_refl(h0);
                lemma_scope_extends_refl(sc0);
            }
        } else {
            let at = self.position();
            return Err(CompileError::new(ErrorKind::Syntax, at));
        }
        Ok(())
    }

    /// Parse a whole program: `#HAI`, leading comments, an optional head,
    /// body items, `#KTHXBYE`.  On success the builder holds a well-formed
    /// document trace, lacking only the closing tag that `finish` appends.
    #[verifier::rlimit(100)]
    pub fn parse_lolcode(&mut self) -> (r: Result<(), CompileError>)
        requires
            old(self).wf(),
            old(self).html_view().frags.len() == 0,
            !old(self).html_view().head_declared,
            !old(self).html_view().body_opened,
            !old(self).html_view().body_closed,
        ensures
            final(self).wf(),
            r is Ok ==> doc_trace_wf(final(self).html_view().frags.push(FragV::HtmlClose))
                && final(self).html_view().body_opened && final(self).html_view().body_closed,
            (match sp_lolcode(old(self).chars(), old(self).pv()) {
                Ok(st) => r is Ok && final(self).pv() == st,
                Err(k) => r is Err && r->Err_0.kind == k,
            }),
    {
        let ghost st0 = PState {
            html: HtmlV {
                frags: old(self).html_view().frags + seq![FragV::Doctype, FragV::HtmlOpen],
                ..old(self).html_view()
            },
            ..old(self).pv()
        };
        self.html.begin_html();
        proof {
            assert(self.pv() == st0);
        }
        match self.eat(TokKind::Hai) {
            Ok(()) => {},
            Err(e) => {
                return Err(e);
            },
        }
        let ghost st_a = self.pv();
        proof {
            assert(sp_eat(self.chars(), st0, TokKind::Hai) == Ok::<PState, ErrorKind>(st_a));
            assert(self.html_view().frags.len() == 2);
            assert(self.html_view().frags[0] is Doctype);
            assert(self.html_view().frags[1] is HtmlOpen);
        }
        while matches!(self.look, Token::HashObtW)
            invariant
                self.wf(),
                self.chars() == old(self).chars(),
                self.scope_view().len() >= 1,
                self.html_view().frags.len() >= 2,
                self.html_view().frags[0] is Doctype,
                self.html_view().frags[1] is HtmlOpen,
                forall|i: int|
                    2 <= i < self.html_view().frags.len()
                        ==> #[trigger] self.html_view().frags[i] is Comment,
                !self.html_view().head_declared,
                !self.html_view().body_opened,
                !self.html_view().body_closed,
                st0 == (PState {
                    html: HtmlV {
                        frags: old(self).html_view().frags + seq![
                            FragV::Doctype,
                            FragV::HtmlOpen,
                        ],
                        ..old(self).html_view()
                    },
                    ..old(self).pv()
                }),
                sp_eat(self.chars(), st0, TokKind::Hai) == Ok::<PState, ErrorKind>(st_a),
                sp_comments(self.chars(), st_a) == sp_comments(self.chars(), self.pv()),
            decreases self.measure(),
        {
            proof {
                crate::token::lemma_kind_cases(self.look());
            }
            let ghost mid = self.html_view();
            let ghost stit = self.pv();
            match self.parse_comment() {
                Ok(()) => {},
                Err(e) => {
                    return Err(e);
                },
            }
            proof {
                assert(self.html_view().frags == mid.frags.push(
                    self.html_view().frags.last(),
                ));
                assert(sp_comments(self.chars(), stit) == sp_comments(
                    self.chars(),
                    self.pv(),
                ));
            }
        }
        proof {
            crate::token::lemma_kind_cases(self.look());
            assert(sp_comments(self.chars(), st_a) == Ok::<PState, ErrorKind>(self.pv()));
        }
        let ghost m: int = self.html_view().frags.len() as int - 2;
        let ghost mut k: int = 0;
        let ghost mut pre: Seq<FragV> = Seq::empty();
        if self.look.kind() == TokKind::Maek {
            proof {
                crate::token::lemma_kind_cases(self.look());
            }
            match self.eat(TokKind::Maek) {
                Ok(()) => {},
                Err(e) => {
                    return Err(e);
                },
            }
            proof {
                crate::token::lemma_kind_cases(self.look());
            }
            let k2 = self.look.kind();
            if k2 == TokKind::Head {
                match self.parse_head() {
                    Ok(()) => {},
                    Err(e) => {
                        return Err(e);
                    },
                }
                proof {
                    k = self.html_view().frags.len() as int;
                    assert(head_region_split(self.html_view().frags.subrange(2, k), m));
                }
                self.html.begin_body();
                proof {
                    pre = self.html_view().frags;
                    assert(sp_preamble(self.chars(), old(self).pv()) == Ok::<PState, ErrorKind>(self.pv()));
                }
            } else if k2 == TokKind::Paragraf || k2 == TokKind::List {
                // the program opens with a body item: there is no head section
                proof {
                    k = self.html_view().frags.len() as int;
                    assert(head_region_split(self.html_view().frags.subrange(2, k), m));
                }
                self.html.begin_body();
                proof {
                    pre = self.html_view().frags;
                }
                let ghost st_open = self.pv();
                let ghost mid = self.html_view();
                if k2 == TokKind::Paragraf {
                    match self.parse_paragraph() {
                        Ok(()) => {},
                        Err(e) => {
                            return Err(e);
                        },
                    }
                } else {
                    match self.parse_list() {
                        Ok(()) => {},
                        Err(e) => {
                            return Err(e);
                        },
                    }
                }
                proof {
                    assert(self.html_view().frags.take(k + 1) =~= mid.frags.take(k + 1));
                    assert forall|i: int|
                        k < i < self.html_view().frags.len() implies body_frag(
                        #[trigger] self.html_view().frags[i],
                    ) by {
                        if i < mid.frags.len() {
                            assert(self.html_view().frags.take(mid.frags.len() as int)[i]
                                == self.html_view().frags[i]);
                            assert(mid.frags[i] == self.html_view().frags[i]);
                        }
                    }
                    assert(sp_preamble(self.chars(), old(self).pv()) == Ok::<PState, ErrorKind>(self.pv()));
                }
            } else {
                let at = self.position();
                return Err(CompileError::new(ErrorKind::Syntax, at));
            }
        } else {
            proof {
                k = self.html_view().frags.len() as int;
                assert(head_region_split(self.html_view().frags.subrange(2, k), m));
            }
            self.html.begin_body();
            proof {
                pre = self.html_view().frags;
                assert(sp_preamble(self.chars(), old(self).pv()) == Ok::<PState, ErrorKind>(self.pv()));
            }
        }
        let ghost st_b = self.pv();
        proof {
            assert(pre[k] is BodyOpen);
            assert(pre.subrange(2, k) =~= pre.take(k).subrange(2, k));
            assert(self.html_view().frags.take(k + 1) =~= pre);
        }
        while !matches!(self.look, Token::HashKthxbye | Token::Eof)
            invariant
                self.wf(),
                self.chars() == old(self).chars(),
                2 <= k,
                k + 1 == pre.len(),
                self.html_view().frags.len() >= pre.len(),
                self.html_view().frags.take(k + 1) == pre,
                forall|i: int|
                    k < i < self.html_view().frags.len() ==> body_frag(
                        #[trigger] self.html_view().frags[i],
                    ),
                self.html_view().body_opened,
                !self.html_view().body_closed,
                self.html_view().word_per_line,
                sp_preamble(self.chars(), old(self).pv()) == Ok::<PState, ErrorKind>(st_b),
                sp_body_items(self.chars(), st_b) == sp_body_items(self.chars(), self.pv()),
            decreases self.measure(),
        {
            proof {
                crate::token::lemma_kind_cases(self.look());
            }
            let ghost mid = self.html_view();
            let ghost stit = self.pv();
            match self.parse_body() {
                Ok(()) => {},
                Err(e) => {
                    return Err(e);
                },
            }
            proof {
                assert(self.html_view().frags.take(k + 1) =~= mid.frags.take(k + 1));
                assert forall|i: int| k < i < self.html_view().frags.len() implies body_frag(
                    #[trigger] self.html_view().frags[i],
                ) by {
                    if i < mid.frags.len() {
                        assert(self.html_view().frags.take(mid.frags.len() as int)[i]
                            == self.html_view().frags[i]);
                        assert(mid.frags[i] == self.html_view().frags[i]);
                    }
                }
                assert(sp_body_items(self.chars(), stit) == sp_body_items(
                    self.chars(),
                    self.pv(),
                ));
            }
        }
        proof {
            crate::token::lemma_kind_cases(self.look());
            assert(sp_body_items(self.chars(), st_b) == Ok::<PState, ErrorKind>(self.pv()));
        }
        match self.eat(TokKind::Kthxbye) {
            Ok(()) => {},
            Err(e) => {
                return Err(e);
            },
        }
        let ghost st2g = self.pv();
        let ghost before_close = self.html_view().frags;
        self.html.end_body();
        proof {
            assert(self.html_view() == sp_end_body(st2g.html));
            assert(self.pv() == (PState { html: sp_end_body(st2g.html), ..st2g }));
            let fs = self.html_view().frags.push(FragV::HtmlClose);
            assert(self.html_view().frags == before_close.push(FragV::BodyClose));
            assert forall|i: int| 0 <= i <= k implies fs[i] == pre[i] by {
                assert(before_close.take(k + 1)[i] == before_close[i]);
            }
            assert(fs.len() >= 5);
            assert(fs[0] is Doctype);
            assert(fs[1] is HtmlOpen);
            assert(fs[fs.len() - 1] is HtmlClose);
            assert(fs[fs.len() - 2] is BodyClose);
            assert(fs[k] is BodyOpen);
            assert(fs.subrange(2, k) =~= pre.subrange(2, k));
            assert(head_region_split(fs.subrange(2, k), m));
            assert forall|i: int| k < i < fs.len() - 2 implies body_frag(#[trigger] fs[i]) by {
                assert(fs[i] == before_close[i]);
            }
            assert(doc_trace_wf(fs));
        }
        Ok(())
    }
}


/// The whole front end: building it keeps the source; running it compiles
/// the source to the document string or the first fatal error.
pub struct FrontEnd {
    source: Vec<char>,
}

impl FrontEnd {
    /// The source text held for the run.
    pub closed spec fn source_view(&self) -> Seq<char> {
        self.source@
    }

    pub fn new(input: &str) -> (f: FrontEnd)
        ensures
            f.source_view() == input@,
    {
        FrontEnd { source: str_to_chars(input) }
    }

    /// Compile the source: on success the result renders a well-formed
    /// fragment trace; on error no output is produced.
    pub fn run(self) -> (r: Result<String, CompileError>)
        ensures
            r is Ok ==> exists|fs: Seq<FragV>|
                #[trigger] doc_trace_wf(fs) && r->Ok_0@ == spec_render(fs),
            (match sp_compile(self.source_view()) {
                Ok(doc) => r is Ok && r->Ok_0@ == doc,
                Err(k) => r is Err && r->Err_0.kind == k,
            }),
    {
        let source = chars_to_string(&self.source);
        let mut p = match Parser::new(source.as_str()) {
            Ok(p) => p,
            Err(e) => {
                return Err(e);
            },
        };
        proof {
            assert(p.html_view().frags =~= Seq::<FragV>::empty());
            assert(p.scope_view() =~= seq![Seq::<(Seq<char>, Seq<char>)>::empty()]);
            assert(sp_start(self.source_view()) == Ok::<PState, ErrorKind>(p.pv()));
        }
        let ghost st_entry = p.pv();
        match p.parse_lolcode() {
            Ok(()) => {},
            Err(e) => {
                return Err(e);
            },
        }
        proof {
            assert(sp_lolcode(self.source_view(), st_entry) == Ok::<PState, ErrorKind>(p.pv()));
        }
        let ghost fs = p.html_view().frags.push(FragV::HtmlClose);
        proof {
            assert(spec_finish(p.html_view()) == fs);
        }
        let out = p.into_html();
        proof {
            assert(doc_trace_wf(fs) && out@ == spec_render(fs));
        }
        Ok(out)
    }
}

/// Append the characters of `t` to `out`.
fn append_chars(out: &mut Vec<char>, t: &Vec<char>)
    ensures
        final(out)@ == old(out)@ + t@,
{
    let n = t.len();
    let mut i: usize = 0;
    while i < n
        invariant
            i <= n,
            n == t@.len(),
            out@ == old(out)@ + t@.take(i as int),
        decreases n - i,
    {
        let c = t[i];
        out.push(c);
        proof {
            assert(out@ =~= old(out)@ + t@.take(i + 1));
        }
        i += 1;
    }
    proof {
        assert(t@.take(n as int) =~= t@);
        assert(out@ =~= old(out)@ + t@);
    }
}

} // verus!
