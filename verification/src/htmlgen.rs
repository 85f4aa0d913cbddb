//! Incremental document assembly.  The builder collects an ordered sequence
//! of typed fragments and tracks three structural facts: whether a head was
//! declared, whether the body has been opened and closed, and whether free
//! text is rendered one word per line.  `finish` guarantees a well-formed
//! document: exactly one body, closed exactly once, then the closing tag.

use vstd::prelude::*;

use crate::chars::{
    chars_to_string, escape_chars, norm_chars, spec_escape, spec_norm, spec_trim, spec_words,
    split_words, trim_chars,
};

verus! {

/// One unit of output: an element, a word of free text, or a raw value.
pub enum Frag {
    Doctype,
    HtmlOpen,
    HtmlClose,
    HeadOpen,
    HeadClose,
    Title(Vec<char>),
    BodyOpen,
    BodyClose,
    Comment(Vec<char>),
    POpen,
    PClose,
    Br,
    Bold(Vec<char>),
    Italics(Vec<char>),
    /// One whitespace-delimited word of free text, emitted on its own line.
    Word(Vec<char>),
    /// A whole trimmed run of free text inside a paragraph.
    Block(Vec<char>),
    /// The resolved value of a variable reference.
    Var(Vec<char>),
    UlOpen,
    UlClose,
    LiOpen,
    LiClose,
    /// An audio element; the source attribute is escaped when rendered.
    Audio(Vec<char>),
    /// A video embed; the source attribute is escaped when rendered.
    Video(Vec<char>),
}

/// The mathematical value of a fragment.
pub enum FragV {
    Doctype,
    HtmlOpen,
    HtmlClose,
    HeadOpen,
    HeadClose,
    Title(Seq<char>),
    BodyOpen,
    BodyClose,
    Comment(Seq<char>),
    POpen,
    PClose,
    Br,
    Bold(Seq<char>),
    Italics(Seq<char>),
    Word(Seq<char>),
    Block(Seq<char>),
    Var(Seq<char>),
    UlOpen,
    UlClose,
    LiOpen,
    LiClose,
    Audio(Seq<char>),
    Video(Seq<char>),
}

impl View for Frag {
    type V = FragV;

    open spec fn view(&self) -> FragV {
        match self {
            Frag::Doctype => FragV::Doctype,
            Frag::HtmlOpen => FragV::HtmlOpen,
            Frag::HtmlClose => FragV::HtmlClose,
            Frag::HeadOpen => FragV::HeadOpen,
            Frag::HeadClose => FragV::HeadClose,
            Frag::Title(t) => FragV::Title(t@),
            Frag::BodyOpen => FragV::BodyOpen,
            Frag::BodyClose => FragV::BodyClose,
            Frag::Comment(t) => FragV::Comment(t@),
            Frag::POpen => FragV::POpen,
            Frag::PClose => FragV::PClose,
            Frag::Br => FragV::Br,
            Frag::Bold(t) => FragV::Bold(t@),
            Frag::Italics(t) => FragV::Italics(t@),
            Frag::Word(t) => FragV::Word(t@),
            Frag::Block(t) => FragV::Block(t@),
            Frag::Var(t) => FragV::Var(t@),
            Frag::UlOpen => FragV::UlOpen,
            Frag::UlClose => FragV::UlClose,
            Frag::LiOpen => FragV::LiOpen,
            Frag::LiClose => FragV::LiClose,
            Frag::Audio(t) => FragV::Audio(t@),
            Frag::Video(t) => FragV::Video(t@),
        }
    }
}

/// How one fragment appears in the output.  Inline text (title, comment,
/// bold, italics, words, blocks, variable values) is emitted verbatim; only
/// the two media source attributes are escaped.
pub open spec fn frag_str(f: FragV) -> Seq<char> {
    match f {
        FragV::Doctype => "<!doctype html>"@,
        FragV::HtmlOpen => "<html>"@,
        FragV::HtmlClose => "</html>"@,
        FragV::HeadOpen => "<head>"@,
        FragV::HeadClose => "</head>"@,
        FragV::Title(t) => "<title>"@ + t + "</title>"@,
        FragV::BodyOpen => "<body>"@,
        FragV::BodyClose => "</body>"@,
        FragV::Comment(t) => "<!-- "@ + t + " -->"@,
        FragV::POpen => "<p>"@,
        FragV::PClose => "</p>"@,
        FragV::Br => "<br>"@,
        FragV::Bold(t) => "<b>"@ + t + "</b>"@,
        FragV::Italics(t) => "<i>"@ + t + "</i>"@,
        FragV::Word(t) => t,
        FragV::Block(t) => t,
        FragV::Var(t) => t,
        FragV::UlOpen => "<ul>"@,
        FragV::UlClose => "</ul>"@,
        FragV::LiOpen => "<li>"@,
        FragV::LiClose => "</li>"@,
        FragV::Audio(t) => "<audio controls><source src=\""@ + spec_escape(t) + "\" /></audio>"@,
        FragV::Video(t) => "<iframe src=\""@ + spec_escape(t)
            + "\" allowfullscreen loading=\"lazy\"></iframe>"@,
    }
}

/// The fragments joined with newline separators.
pub open spec fn spec_render(fs: Seq<FragV>) -> Seq<char>
    decreases fs.len(),
{
    if fs.len() == 0 {
        Seq::empty()
    } else if fs.len() == 1 {
        frag_str(fs[0])
    } else {
        frag_str(fs[0]) + seq!['\n'] + spec_render(fs.drop_first())
    }
}

pub proof fn lemma_render_take(fs: Seq<FragV>, i: int)
    requires
        0 <= i < fs.len(),
    ensures
        spec_render(fs.take(i + 1)) == if i == 0 {
            frag_str(fs[0])
        } else {
            spec_render(fs.take(i)) + seq!['\n'] + frag_str(fs[i])
        },
    decreases i,
{
    if i == 0 {
        assert(fs.take(1)[0] == fs[0]);
    } else {
        lemma_render_take(fs.drop_first(), i - 1);
        assert(fs.take(i + 1).drop_first() =~= fs.drop_first().take(i));
        assert(fs.take(i).drop_first() =~= fs.drop_first().take(i - 1));
        assert(fs.take(i + 1)[0] == fs[0]);
        assert(fs.take(i)[0] == fs[0]);
        assert(fs.drop_first()[i - 1] == fs[i]);
        if i == 1 {
            assert(spec_render(fs.take(2)) == frag_str(fs[0]) + seq!['\n'] + frag_str(fs[1]));
            assert(spec_render(fs.take(1)) == frag_str(fs[0]));
        } else {
            assert(frag_str(fs[0]) + seq!['\n'] + (spec_render(fs.drop_first().take(i - 1))
                + seq!['\n'] + frag_str(fs[i])) =~= (frag_str(fs[0]) + seq!['\n'] + spec_render(
                fs.drop_first().take(i - 1),
            )) + seq!['\n'] + frag_str(fs[i]));
        }
    }
}

/// Render one fragment.
pub fn frag_to_string(f: &Frag) -> (s: String)
    ensures
        s@ == frag_str(f@),
{
    match f {
        Frag::Doctype => "<!doctype html>".to_owned(),
        Frag::HtmlOpen => "<html>".to_owned(),
        Frag::HtmlClose => "</html>".to_owned(),
        Frag::HeadOpen => "<head>".to_owned(),
        Frag::HeadClose => "</head>".to_owned(),
        Frag::Title(t) => {
            let mut s = "<title>".to_owned();
            s.append(chars_to_string(t).as_str());
            s.append("</title>");
            s
        },
        Frag::BodyOpen => "<body>".to_owned(),
        Frag::BodyClose => "</body>".to_owned(),
        Frag::Comment(t) => {
            let mut s = "<!-- ".to_owned();
            s.append(chars_to_string(t).as_str());
            s.append(" -->");
            s
        },
        Frag::POpen => "<p>".to_owned(),
        Frag::PClose => "</p>".to_owned(),
        Frag::Br => "<br>".to_owned(),
        Frag::Bold(t) => {
            let mut s = "<b>".to_owned();
            s.append(chars_to_string(t).as_str());
            s.append("</b>");
            s
        },
        Frag::Italics(t) => {
            let mut s = "<i>".to_owned();
            s.append(chars_to_string(t).as_str());
            s.append("</i>");
            s
        },
        Frag::Word(t) => chars_to_string(t),
        Frag::Block(t) => chars_to_string(t),
        Frag::Var(t) => chars_to_string(t),
        Frag::UlOpen => "<ul>".to_owned(),
        Frag::UlClose => "</ul>".to_owned(),
        Frag::LiOpen => "<li>".to_owned(),
        Frag::LiClose => "</li>".to_owned(),
        Frag::Audio(t) => {
            let mut s = "<audio controls><source src=\"".to_owned();
            s.append(chars_to_string(&escape_chars(t)).as_str());
            s.append("\" /></audio>");
            s
        },
        Frag::Video(t) => {
            let mut s = "<iframe src=\"".to_owned();
            s.append(chars_to_string(&escape_chars(t)).as_str());
            s.append("\" allowfullscreen loading=\"lazy\"></iframe>");
            s
        },
    }
}

/// The abstract state of the document builder.
pub struct HtmlV {
    pub frags: Seq<FragV>,
    pub head_declared: bool,
    pub body_opened: bool,
    pub body_closed: bool,
    pub word_per_line: bool,
}

/// Ordered collector of output fragments with structural flags.
pub struct Html {
    frags: Vec<Frag>,
    head_declared: bool,
    body_opened: bool,
    body_closed: bool,
    word_per_line: bool,
}

impl View for Html {
    type V = HtmlV;

    closed spec fn view(&self) -> HtmlV {
        HtmlV {
            frags: Seq::new(self.frags@.len(), |i: int| self.frags@[i]@),
            head_declared: self.head_declared,
            body_opened: self.body_opened,
            body_closed: self.body_closed,
            word_per_line: self.word_per_line,
        }
    }
}

/// The builder state after ensuring the body is open: opening the body has an
/// effect only the first time, and switches free text to word-per-line mode.
pub open spec fn after_begin_body(h: HtmlV) -> HtmlV {
    if !h.body_opened {
        HtmlV {
            frags: h.frags.push(FragV::BodyOpen),
            body_opened: true,
            word_per_line: true,
            ..h
        }
    } else {
        h
    }
}

/// The fragments one run of free text contributes: nothing when blank, one
/// fragment per word in word-per-line mode, one trimmed block otherwise.
pub open spec fn text_frags(t: Seq<char>, word_per_line: bool) -> Seq<FragV> {
    let n = spec_norm(t);
    if spec_trim(n).len() == 0 {
        Seq::empty()
    } else if word_per_line {
        spec_words(n, 0).map_values(|w: Seq<char>| FragV::Word(w))
    } else {
        seq![FragV::Block(spec_trim(n))]
    }
}

/// Whether the trace already ends on a closing body element.
pub open spec fn last_closes_body(fs: Seq<FragV>) -> bool {
    fs.len() > 0 && fs.last() is BodyClose
}

/// The final fragment trace: a body is synthesized if it never opened; a body
/// still open is closed, unless the last fragment already closes it; the
/// document is closed exactly once.
pub open spec fn spec_finish(h: HtmlV) -> Seq<FragV> {
    if !h.body_opened {
        h.frags + seq![FragV::BodyOpen, FragV::BodyClose, FragV::HtmlClose]
    } else if !h.body_closed && !last_closes_body(h.frags) {
        h.frags + seq![FragV::BodyClose, FragV::HtmlClose]
    } else {
        h.frags.push(FragV::HtmlClose)
    }
}

impl Html {
    /// A fresh builder: no fragments, no head, no body, word-per-line off.
    pub fn new() -> (h: Html)
        ensures
            h@.frags =~= Seq::<FragV>::empty(),
            !h@.head_declared,
            !h@.body_opened,
            !h@.body_closed,
            !h@.word_per_line,
    {
        Html {
            frags: Vec::new(),
            head_declared: false,
            body_opened: false,
            body_closed: false,
            word_per_line: false,
        }
    }

    /// Append one fragment directly; the structural flags are untouched.
    /// Callers injecting raw fragments (lists, media embeds) must ensure the
    /// body has been opened first.
    pub fn push(&mut self, f: Frag)
        ensures
            final(self)@ == (HtmlV { frags: old(self)@.frags.push(f@), ..old(self)@ }),
    {
        self.frags.push(f);
        proof {
            assert(final(self)@.frags =~= old(self)@.frags.push(f@));
        }
    }

    /// Open the document: the doctype line and the root element.
    pub fn begin_html(&mut self)
        ensures
            final(self)@ == (HtmlV {
                frags: old(self)@.frags + seq![FragV::Doctype, FragV::HtmlOpen],
                ..old(self)@
            }),
    {
        self.push(Frag::Doctype);
        self.push(Frag::HtmlOpen);
        proof {
            assert(final(self)@.frags =~= old(self)@.frags + seq![
                FragV::Doctype,
                FragV::HtmlOpen,
            ]);
        }
    }

    /// Close the root element.
    pub fn end_html(&mut self)
        ensures
            final(self)@ == (HtmlV {
                frags: old(self)@.frags.push(FragV::HtmlClose),
                ..old(self)@
            }),
    {
        self.push(Frag::HtmlClose);
    }

    /// Declare and open the head section.
    pub fn begin_head(&mut self)
        ensures
            final(self)@ == (HtmlV {
                frags: old(self)@.frags.push(FragV::HeadOpen),
                head_declared: true,
                ..old(self)@
            }),
    {
        self.head_declared = true;
        self.push(Frag::HeadOpen);
    }

    /// Close the head section.
    pub fn end_head(&mut self)
        ensures
            final(self)@ == (HtmlV {
                frags: old(self)@.frags.push(FragV::HeadClose),
                ..old(self)@
            }),
    {
        self.push(Frag::HeadClose);
    }

    /// Emit a title element with trimmed content.
    pub fn title(&mut self, t: &Vec<char>)
        ensures
            final(self)@ == (HtmlV {
                frags: old(self)@.frags.push(FragV::Title(spec_trim(t@))),
                ..old(self)@
            }),
    {
        let trimmed = trim_chars(t);
        self.push(Frag::Title(trimmed));
    }

    /// Open the body.  Only the first invocation has an effect; it also sets
    /// the default word-per-line rendering mode for plain body text.
    pub fn begin_body(&mut self)
        ensures
            final(self)@ == after_begin_body(old(self)@),
    {
        if !self.body_opened {
            self.body_opened = true;
            self.word_per_line = true;
            self.push(Frag::BodyOpen);
        }
    }

    /// Close the body.  Guarded: the body is closed at most once, and only if
    /// it was opened.
    pub fn end_body(&mut self)
        ensures
            final(self)@ == if old(self)@.body_opened && !old(self)@.body_closed {
                HtmlV {
                    frags: old(self)@.frags.push(FragV::BodyClose),
                    body_closed: true,
                    ..old(self)@
                }
            } else {
                old(self)@
            },
    {
        if self.body_opened && !self.body_closed {
            self.body_closed = true;
            self.push(Frag::BodyClose);
        }
    }

    /// Emit a comment with trimmed content.
    pub fn comment(&mut self, t: &Vec<char>)
        ensures
            final(self)@ == (HtmlV {
                frags: old(self)@.frags.push(FragV::Comment(spec_trim(t@))),
                ..old(self)@
            }),
    {
        let trimmed = trim_chars(t);
        self.push(Frag::Comment(trimmed));
    }

    /// Open a paragraph: ensures the body is open, then switches free text to
    /// whole-block rendering for the paragraph's duration.
    pub fn begin_p(&mut self)
        ensures
            final(self)@ == (HtmlV {
                frags: after_begin_body(old(self)@).frags.push(FragV::POpen),
                word_per_line: false,
                ..after_begin_body(old(self)@)
            }),
    {
        self.begin_body();
        self.push(Frag::POpen);
        self.word_per_line = false;
    }

    /// Close a paragraph and restore word-per-line rendering.
    pub fn end_p(&mut self)
        ensures
            final(self)@ == (HtmlV {
                frags: old(self)@.frags.push(FragV::PClose),
                word_per_line: true,
                ..old(self)@
            }),
    {
        self.push(Frag::PClose);
        self.word_per_line = true;
    }

    /// Emit a line break, opening the body if needed.
    pub fn br(&mut self)
        ensures
            final(self)@ == (HtmlV {
                frags: after_begin_body(old(self)@).frags.push(FragV::Br),
                ..after_begin_body(old(self)@)
            }),
    {
        self.begin_body();
        self.push(Frag::Br);
    }

    /// Emit bold inline text, trimmed, unescaped; opens the body if needed.
    pub fn bold(&mut self, t: &Vec<char>)
        ensures
            final(self)@ == (HtmlV {
                frags: after_begin_body(old(self)@).frags.push(FragV::Bold(spec_trim(t@))),
                ..after_begin_body(old(self)@)
            }),
    {
        self.begin_body();
        let trimmed = trim_chars(t);
        self.push(Frag::Bold(trimmed));
    }

    /// Emit italic inline text, trimmed, unescaped; opens the body if needed.
    pub fn italics(&mut self, t: &Vec<char>)
        ensures
            final(self)@ == (HtmlV {
                frags: after_begin_body(old(self)@).frags.push(FragV::Italics(spec_trim(t@))),
                ..after_begin_body(old(self)@)
            }),
    {
        self.begin_body();
        let trimmed = trim_chars(t);
        self.push(Frag::Italics(trimmed));
    }

    /// Emit free running text; opens the body if needed.  Line breaks are
    /// normalized to spaces; blank text is a no-op.  In word-per-line mode
    /// each word becomes its own fragment; otherwise the whole trimmed text
    /// is one fragment.
    pub fn text(&mut self, t: &Vec<char>)
        ensures
            final(self)@ == (HtmlV {
                frags: after_begin_body(old(self)@).frags + text_frags(
                    t@,
                    after_begin_body(old(self)@).word_per_line,
                ),
                ..after_begin_body(old(self)@)
            }),
    {
        self.begin_body();
        let normalized = norm_chars(t);
        let trimmed = trim_chars(&normalized);
        if trimmed.len() == 0 {
            proof {
                assert(final(self)@.frags =~= after_begin_body(old(self)@).frags + text_frags(
                    t@,
                    after_begin_body(old(self)@).word_per_line,
                ));
            }
            return ;
        }
        if self.word_per_line {
            let words = split_words(&normalized);
            let ghost base = self@.frags;
            let n = words.len();
            let mut i: usize = 0;
            while i < n
                invariant
                    i <= n,
                    n == words@.len(),
                    words.deep_view() == spec_words(spec_norm(t@), 0),
                    self@ == (HtmlV {
                        frags: base + words.deep_view().take(i as int).map_values(
                            |w: Seq<char>| FragV::Word(w),
                        ),
                        ..self@
                    }),
                    self@.head_declared == old(self)@.head_declared,
                    self@.body_opened,
                    self@.body_closed == old(self)@.body_closed,
                    self@.word_per_line,
                    base == after_begin_body(old(self)@).frags,
                decreases n - i,
            {
                let w = words[i].clone();
                proof {
                    assert(w@ == words.deep_view()[i as int]);
                }
                let ghost before = self@.frags;
                self.push(Frag::Word(w));
                proof {
                    assert(words.deep_view().take(i + 1).map_values(
                        |w: Seq<char>| FragV::Word(w),
                    ) =~= words.deep_view().take(i as int).map_values(
                        |w: Seq<char>| FragV::Word(w),
                    ).push(FragV::Word(w@)));
                    assert(self@.frags =~= base + words.deep_view().take(i + 1).map_values(
                        |w: Seq<char>| FragV::Word(w),
                    ));
                }
                i += 1;
            }
            proof {
                assert(words.deep_view().take(n as int) =~= words.deep_view());
                assert(self@.frags =~= after_begin_body(old(self)@).frags + text_frags(
                    t@,
                    after_begin_body(old(self)@).word_per_line,
                ));
            }
        } else {
            self.push(Frag::Block(trimmed));
            proof {
                assert(text_frags(t@, false) =~= seq![FragV::Block(spec_trim(spec_norm(t@)))]);
                assert(self@.frags =~= after_begin_body(old(self)@).frags + text_frags(
                    t@,
                    after_begin_body(old(self)@).word_per_line,
                ));
            }
        }
    }

    /// Consume the builder and return the document string.  A body that never
    /// opened is synthesized empty; a body still open is closed, unless the
    /// last fragment already closes it; the closing document element is
    /// always appended; fragments are joined by newlines.
    pub fn finish(self) -> (r: String)
        ensures
            r@ == spec_render(spec_finish(self@)),
    {
        let mut b = self;
        let ghost start = b@;
        let n0 = b.frags.len();
        let already_closed = n0 > 0 && matches!(b.frags[n0 - 1], Frag::BodyClose);
        proof {
            assert(already_closed == last_closes_body(start.frags));
        }
        if !b.body_opened {
            b.frags.push(Frag::BodyOpen);
            b.frags.push(Frag::BodyClose);
        } else if !b.body_closed && !already_closed {
            b.frags.push(Frag::BodyClose);
        }
        b.frags.push(Frag::HtmlClose);
        proof {
            assert(b@.frags =~= spec_finish(start));
        }
        let ghost fs = b@.frags;
        let n = b.frags.len();
        let mut out = String::new();
        let mut i: usize = 0;
        while i < n
            invariant
                i <= n,
                n == b.frags@.len(),
                fs == b@.frags,
                fs.len() == n,
                out@ == spec_render(fs.take(i as int)),
            decreases n - i,
        {
            if i > 0 {
                out.append("\n");
            }
            let fr = frag_to_string(&b.frags[i]);
            out.append(fr.as_str());
            proof {
                assert(b.frags@[i as int]@ == fs[i as int]);
                lemma_render_take(fs, i as int);
                reveal_strlit("\n");
                assert("\n"@ =~= seq!['\n']);
                if i > 0 {
                    assert((spec_render(fs.take(i as int)) + "\n"@) + fr@ =~= spec_render(
                        fs.take(i as int),
                    ) + seq!['\n'] + frag_str(fs[i as int]));
                }
            }
            i += 1;
        }
        proof {
            assert(fs.take(n as int) =~= fs);
        }
        out
    }
}

// ---------------------------------------------------------------------------
// Document well-formedness
// ---------------------------------------------------------------------------

/// Fragment kinds that may appear between the body tags.
pub open spec fn body_frag(f: FragV) -> bool {
    match f {
        FragV::Doctype | FragV::HtmlOpen | FragV::HtmlClose | FragV::HeadOpen | FragV::HeadClose
            | FragV::Title(_) | FragV::BodyOpen | FragV::BodyClose => false,
        _ => true,
    }
}

/// The region between the root element and the body: comments, optionally
/// followed by a complete head section holding exactly one title.
pub open spec fn head_region_split(hs: Seq<FragV>, m: int) -> bool {
    &&& 0 <= m <= hs.len()
    &&& forall|i: int| 0 <= i < m ==> #[trigger] hs[i] is Comment
    &&& (hs.len() == m || (hs.len() == m + 3 && hs[m] is HeadOpen && hs[m + 1] is Title && hs[m
        + 2] is HeadClose))
}

pub open spec fn head_region_wf(hs: Seq<FragV>) -> bool {
    exists|m: int| head_region_split(hs, m)
}

/// A well-formed fragment trace: the doctype and root element first, then a
/// head region, then exactly one body holding only body fragments, then the
/// closing body and root tags.
pub open spec fn doc_trace_wf(fs: Seq<FragV>) -> bool {
    &&& fs.len() >= 5
    &&& fs[0] is Doctype
    &&& fs[1] is HtmlOpen
    &&& fs[fs.len() - 1] is HtmlClose
    &&& fs[fs.len() - 2] is BodyClose
    &&& exists|k: int|
        {
            &&& 2 <= k <= fs.len() - 3
            &&& #[trigger] fs[k] is BodyOpen
            &&& head_region_wf(fs.subrange(2, k))
            &&& forall|i: int| k < i < fs.len() - 2 ==> #[trigger] body_frag(fs[i])
        }
}

/// In a well-formed trace the body opens exactly once: any two body-opening
/// fragments are the same one.
pub proof fn lemma_doc_trace_one_body(fs: Seq<FragV>, i: int, j: int)
    requires
        doc_trace_wf(fs),
        0 <= i < fs.len(),
        0 <= j < fs.len(),
        fs[i] is BodyOpen,
        fs[j] is BodyOpen,
    ensures
        i == j,
{
    let k = choose|k: int|
        {
            &&& 2 <= k <= fs.len() - 3
            &&& #[trigger] fs[k] is BodyOpen
            &&& head_region_wf(fs.subrange(2, k))
            &&& forall|i: int| k < i < fs.len() - 2 ==> #[trigger] body_frag(fs[i])
        };
    let hs = fs.subrange(2, k);
    let m = choose|m: int| head_region_split(hs, m);
    assert forall|x: int| 0 <= x < fs.len() && #[trigger] fs[x] is BodyOpen implies x == k by {
        if 2 <= x < k {
            assert(hs[x - 2] == fs[x]);
            if x - 2 < m {
                assert(hs[x - 2] is Comment);
            }
        }
        if k < x < fs.len() - 2 {
            assert(body_frag(fs[x]));
        }
    }
}

/// In a well-formed trace a title stands only inside the head section, before
/// the body opens.
pub proof fn lemma_doc_trace_title_only_in_head(fs: Seq<FragV>, i: int)
    requires
        doc_trace_wf(fs),
        0 <= i < fs.len(),
        fs[i] is Title,
    ensures
        exists|k: int| 0 <= k < fs.len() && #[trigger] fs[k] is BodyOpen && i < k,
{
    let k = choose|k: int|
        {
            &&& 2 <= k <= fs.len() - 3
            &&& #[trigger] fs[k] is BodyOpen
            &&& head_region_wf(fs.subrange(2, k))
            &&& forall|i: int| k < i < fs.len() - 2 ==> #[trigger] body_frag(fs[i])
        };
    if k < i < fs.len() - 2 {
        assert(body_frag(fs[i]));
    }
    assert(fs[k] is BodyOpen && i < k);
}

} // verus!
