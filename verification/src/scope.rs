//! Nested variable scopes: a stack of name-to-value frames.  `define` writes
//! into the innermost frame; `resolve` searches innermost to outermost.  The
//! global frame is never popped, even by unmatched `pop` calls.

use vstd::prelude::*;

verus! {

/// One binding: a name and its value.
pub type Binding = (Vec<char>, Vec<char>);

/// A stack of frames, each an ordered list of bindings; a later binding for
/// the same name shadows an earlier one.
pub struct Scope {
    frames: Vec<Vec<Binding>>,
}

/// One frame as a sequence of (name, value) pairs.
pub open spec fn frame_view(f: Seq<Binding>) -> Seq<(Seq<char>, Seq<char>)> {
    Seq::new(f.len(), |i: int| (f[i].0@, f[i].1@))
}

/// The nearest binding of `name` within one frame: the last one defined.
pub open spec fn frame_lookup(f: Seq<(Seq<char>, Seq<char>)>, name: Seq<char>) -> Option<
    Seq<char>,
>
    decreases f.len(),
{
    if f.len() == 0 {
        None
    } else if f.last().0 == name {
        Some(f.last().1)
    } else {
        frame_lookup(f.drop_last(), name)
    }
}

/// The nearest enclosing binding of `name`: innermost frame first.
pub open spec fn spec_resolve(
    frames: Seq<Seq<(Seq<char>, Seq<char>)>>,
    name: Seq<char>,
) -> Option<Seq<char>>
    decreases frames.len(),
{
    if frames.len() == 0 {
        None
    } else {
        match frame_lookup(frames.last(), name) {
            Some(v) => Some(v),
            None => spec_resolve(frames.drop_last(), name),
        }
    }
}

impl View for Scope {
    type V = Seq<Seq<(Seq<char>, Seq<char>)>>;

    closed spec fn view(&self) -> Seq<Seq<(Seq<char>, Seq<char>)>> {
        Seq::new(self.frames@.len(), |i: int| frame_view(self.frames@[i]@))
    }
}

impl Scope {
    /// At least the global frame is always present.
    pub open spec fn wf(&self) -> bool {
        self@.len() >= 1
    }

    /// A scope holding only the empty global frame.
    pub fn new() -> (s: Scope)
        ensures
            s.wf(),
            s@ =~= seq![Seq::<(Seq<char>, Seq<char>)>::empty()],
    {
        let mut frames: Vec<Vec<Binding>> = Vec::new();
        frames.push(Vec::new());
        let s = Scope { frames };
        proof {
            assert(frame_view(s.frames@[0]@) =~= Seq::<(Seq<char>, Seq<char>)>::empty());
        }
        s
    }

    /// Enter a nesting level: push an empty frame.
    pub fn push(&mut self)
        ensures
            final(self)@ =~= old(self)@.push(Seq::<(Seq<char>, Seq<char>)>::empty()),
            final(self).wf(),
    {
        self.frames.push(Vec::new());
        proof {
            assert(frame_view(self.frames@.last()@) =~= Seq::<(Seq<char>, Seq<char>)>::empty());
            assert forall|i: int| 0 <= i < old(self)@.len() implies self@[i] == old(self)@[i] by {
                assert(self.frames@[i] == old(self).frames@[i]);
            }
        }
    }

    /// Leave a nesting level: pop the innermost frame.  The global frame is
    /// kept even if an unmatched `pop` asks to remove it.
    pub fn pop(&mut self)
        requires
            old(self).wf(),
        ensures
            final(self).wf(),
            old(self)@.len() > 1 ==> final(self)@ =~= old(self)@.drop_last(),
            old(self)@.len() == 1 ==> final(self)@ =~= old(self)@,
    {
        if self.frames.len() > 1 {
            let _ = self.frames.pop();
            proof {
                assert forall|i: int| 0 <= i < self@.len() implies self@[i] == old(self)@[i] by {
                    assert(self.frames@[i] == old(self).frames@[i]);
                }
            }
        }
    }

    /// Bind `name` to `value` in the innermost frame, shadowing any earlier
    /// binding of the same name.
    pub fn define(&mut self, name: &Vec<char>, value: Vec<char>)
        requires
            old(self).wf(),
        ensures
            final(self).wf(),
            final(self)@.len() == old(self)@.len(),
            final(self)@ =~= old(self)@.update(
                old(self)@.len() - 1,
                old(self)@.last().push((name@, value@)),
            ),
    {
        let ghost old_frames = self.frames@;
        let mut top = match self.frames.pop() {
            Some(t) => t,
            None => Vec::new(),
        };
        let n = name.clone();
        top.push((n, value));
        self.frames.push(top);
        proof {
            assert(n@ == name@);
            assert(frame_view(self.frames@.last()@) =~= frame_view(old_frames.last()@).push(
                (name@, value@),
            ));
            assert forall|i: int| 0 <= i < self@.len() - 1 implies self@[i] == old(self)@[i] by {
                assert(self.frames@[i] == old_frames[i]);
            }
        }
    }

    /// The nearest enclosing binding of `name`, or `None` when no frame binds
    /// it.  `None` is a static-semantic condition for the caller to report.
    pub fn resolve(&self, name: &Vec<char>) -> (r: Option<Vec<char>>)
        ensures
            match r {
                Some(v) => spec_resolve(self@, name@) == Some(v@),
                None => spec_resolve(self@, name@) is None,
            },
    {
        let mut fi: usize = self.frames.len();
        proof {
            assert(self@.take(self@.len() as int) =~= self@);
        }
        while fi > 0
            invariant
                fi <= self.frames@.len(),
                self@.len() == self.frames@.len(),
                spec_resolve(self@, name@) == spec_resolve(self@.take(fi as int), name@),
            decreases fi,
        {
            fi -= 1;
            let frame = &self.frames[fi];
            let ghost fv = frame_view(frame@);
            proof {
                assert(self@[fi as int] == fv);
            }
            let mut bi: usize = frame.len();
            proof {
                assert(fv.take(fv.len() as int) =~= fv);
            }
            while bi > 0
                invariant
                    bi <= frame@.len(),
                    fv == frame_view(frame@),
                    fv.len() == frame@.len(),
                    fi < self@.len(),
                    self@.len() == self.frames@.len(),
                    self@[fi as int] == fv,
                    spec_resolve(self@, name@) == spec_resolve(self@.take(fi + 1), name@),
                    frame_lookup(fv, name@) == frame_lookup(fv.take(bi as int), name@),
                decreases bi,
            {
                bi -= 1;
                proof {
                    assert(fv.take(bi + 1).last() == fv[bi as int]);
                    assert(fv.take(bi + 1).drop_last() =~= fv.take(bi as int));
                }
                if ceq_chars(&frame[bi].0, name) {
                    let v = frame[bi].1.clone();
                    proof {
                        assert(fv[bi as int].0 == name@);
                        assert(frame_lookup(fv, name@) == Some(fv[bi as int].1));
                        assert(self@.take(fi + 1).last() == fv);
                        assert(self@.take(fi + 1).drop_last() =~= self@.take(fi as int));
                        assert(spec_resolve(self@.take(fi + 1), name@) == Some(fv[bi as int].1));
                        assert(v@ == fv[bi as int].1);
                    }
                    return Some(v);
                }
                proof {
                    assert(fv[bi as int].0 != name@);
                }
            }
            proof {
                assert(fv.take(0) =~= Seq::<(Seq<char>, Seq<char>)>::empty());
                assert(frame_lookup(fv, name@) is None);
                assert(self@.take(fi + 1).last() == fv);
                assert(self@.take(fi + 1).drop_last() =~= self@.take(fi as int));
            }
        }
        proof {
            assert(self@.take(0) =~= Seq::<Seq<(Seq<char>, Seq<char>)>>::empty());
        }
        None
    }
}

/// Compare two character vectors.
pub fn ceq_chars(a: &Vec<char>, b: &Vec<char>) -> (r: bool)
    ensures
        r == (a@ == b@),
{
    if a.len() != b.len() {
        return false;
    }
    let mut i: usize = 0;
    while i < a.len()
        invariant
            i <= a@.len(),
            a@.len() == b@.len(),
            forall|j: int| 0 <= j < i ==> a@[j] == b@[j],
        decreases a@.len() - i,
    {
        if a[i] != b[i] {
            return false;
        }
        i += 1;
    }
    proof {
        assert(a@ =~= b@);
    }
    true
}

} // verus!
