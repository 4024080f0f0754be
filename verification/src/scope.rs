//! The scope stack: one frame per open lexical block, plus a flat list of
//! every name the open frames introduced, kept for constant-depth shadow
//! queries.  Popping a frame removes exactly the names that frame introduced.

use vstd::prelude::*;

use crate::names::{contains_name, no_dup_names, views_of};

verus! {

/// Mathematical content of one lexical frame.
#[verifier::ext_equal]
pub ghost struct FrameModel {
    /// Names this frame introduced, in order of introduction.
    pub names: Seq<Seq<char>>,
    /// Whether this frame sits under (or carries) a test-only marker.
    pub test_only: bool,
}

/// One lexical frame: a function body, a module body, or the file root.
pub struct Frame {
    /// Names locally introduced by this frame.
    pub names: Vec<String>,
    /// Whether this frame is behind a test marker, inherited or its own.
    pub test_only: bool,
}

impl View for Frame {
    type V = FrameModel;

    open spec fn view(&self) -> FrameModel {
        FrameModel { names: views_of(self.names@), test_only: self.test_only }
    }
}

/// `name` is introduced by some frame of `scopes`.
pub open spec fn spec_shadowed(scopes: Seq<FrameModel>, name: Seq<char>) -> bool {
    exists|i: int, j: int|
        0 <= i < scopes.len() && 0 <= j < scopes[i].names.len() && #[trigger] scopes[i].names[j]
            == name
}

/// Well-formedness of the frame sequence: every frame's list is free of
/// repeats, no name sits in two frames, and the test-only flag never turns
/// off while descending the stack.
pub open spec fn scopes_inv(scopes: Seq<FrameModel>) -> bool {
    &&& forall|i: int, j1: int, j2: int|
        0 <= i < scopes.len() && 0 <= j1 < j2 < scopes[i].names.len()
            ==> #[trigger] scopes[i].names[j1] != #[trigger] scopes[i].names[j2]
    &&& forall|i1: int, j1: int, i2: int, j2: int|
        0 <= i1 < i2 < scopes.len() && 0 <= j1 < scopes[i1].names.len() && 0 <= j2
            < scopes[i2].names.len() ==> #[trigger] scopes[i1].names[j1]
            != #[trigger] scopes[i2].names[j2]
    &&& forall|i1: int, i2: int|
        0 <= i1 < i2 < scopes.len() && #[trigger] scopes[i1].test_only
            ==> #[trigger] scopes[i2].test_only
}

/// A name is shadowed exactly when the innermost frame introduced it or an
/// outer frame did.
pub proof fn lemma_shadowed_split(scopes: Seq<FrameModel>, name: Seq<char>)
    requires
        scopes.len() >= 1,
    ensures
        spec_shadowed(scopes, name) == (spec_shadowed(scopes.drop_last(), name)
            || scopes.last().names.contains(name)),
{
    let li = scopes.len() - 1;
    if spec_shadowed(scopes, name) {
        let (i, j) = choose|i: int, j: int|
            0 <= i < scopes.len() && 0 <= j < scopes[i].names.len() && #[trigger] scopes[i].names[j]
                == name;
        if i < li {
            assert(scopes.drop_last()[i].names[j] == name);
            assert(spec_shadowed(scopes.drop_last(), name));
        } else {
            assert(scopes.last().names[j] == name);
        }
    }
    if spec_shadowed(scopes.drop_last(), name) {
        let (i, j) = choose|i: int, j: int|
            0 <= i < scopes.drop_last().len() && 0 <= j < scopes.drop_last()[i].names.len()
                && #[trigger] scopes.drop_last()[i].names[j] == name;
        assert(scopes[i].names[j] == name);
    }
    if scopes.last().names.contains(name) {
        let j = choose|j: int| 0 <= j < scopes.last().names.len() && scopes.last().names[j] == name;
        assert(scopes[li].names[j] == name);
    }
}

/// What `declare_local` does to the frame sequence: a first declaration
/// joins the top frame, a shadowed one is a silent no-op.
pub open spec fn spec_declare(scopes: Seq<FrameModel>, name: Seq<char>) -> Seq<FrameModel>
    recommends
        scopes.len() >= 1,
{
    if spec_shadowed(scopes, name) {
        scopes
    } else {
        let top = scopes.last();
        scopes.update(
            scopes.len() - 1,
            FrameModel { names: top.names.push(name), test_only: top.test_only },
        )
    }
}

/// After a declaration the name is shadowed.
pub proof fn lemma_declare_shadows(scopes: Seq<FrameModel>, name: Seq<char>)
    requires
        scopes.len() >= 1,
    ensures
        spec_shadowed(spec_declare(scopes, name), name),
{
    let d = spec_declare(scopes, name);
    if !spec_shadowed(scopes, name) {
        let li = scopes.len() - 1;
        assert(d[li].names[d[li].names.len() - 1] == name);
    }
}

/// What `push` does: a fresh frame whose effective test-only flag is the
/// marker or the parent's flag.
pub open spec fn spec_push(scopes: Seq<FrameModel>, is_test_marker: bool) -> Seq<FrameModel>
    recommends
        scopes.len() >= 1,
{
    scopes.push(
        FrameModel { names: Seq::empty(), test_only: is_test_marker || scopes.last().test_only },
    )
}

/// The stack of open lexical frames together with the flat shadow list.
pub struct ScopeStack {
    /// Open frames, root first, innermost last.
    pub frames: Vec<Frame>,
    /// Every name introduced by some open frame; the shadow set.
    pub shadow: Vec<String>,
}

impl View for ScopeStack {
    type V = Seq<FrameModel>;

    open spec fn view(&self) -> Seq<FrameModel> {
        self.frames@.map_values(|f: Frame| f@)
    }
}

impl ScopeStack {
    /// The flat shadow list and the frames agree, and the frames are
    /// well-formed.  Never empty: the root frame is created at start and
    /// never popped.
    pub open spec fn wf(&self) -> bool {
        &&& self@.len() >= 1
        &&& scopes_inv(self@)
        &&& no_dup_names(self.shadow@)
        &&& forall|n: Seq<char>| views_of(self.shadow@).contains(n) == spec_shadowed(self@, n)
    }

    /// A stack holding only the root frame, with nothing yet in scope.
    pub fn new() -> (r: ScopeStack)
        ensures
            r.wf(),
            r@ =~~= seq![FrameModel { names: Seq::<Seq<char>>::empty(), test_only: false }],
    {
        let mut frames: Vec<Frame> = Vec::new();
        frames.push(Frame { names: Vec::new(), test_only: false });
        let r = ScopeStack { frames, shadow: Vec::new() };
        proof {
            assert(r@.len() == 1);
            assert(r@[0].names =~= Seq::<Seq<char>>::empty());
            assert(r@ =~~= seq![
                FrameModel { names: Seq::<Seq<char>>::empty(), test_only: false },
            ]);
            assert forall|n: Seq<char>| !spec_shadowed(r@, n) by {
                assert(r@[0].names.len() == 0);
            }
            assert(views_of(r.shadow@).len() == 0);
        }
        r
    }

    /// Exactly one frame remains: the file root.
    pub fn is_root(&self) -> (r: bool)
        requires
            self.wf(),
        ensures
            r == (self@.len() == 1),
    {
        self.frames.len() == 1
    }

    /// The innermost frame's effective test-only flag.
    pub fn current_is_test_only(&self) -> (r: bool)
        requires
            self.wf(),
        ensures
            r == self@.last().test_only,
    {
        self.frames[self.frames.len() - 1].test_only
    }

    /// Whether `name` is currently shadowed by some local declaration.
    pub fn is_shadowed(&self, name: &String) -> (r: bool)
        requires
            self.wf(),
        ensures
            r == spec_shadowed(self@, name@),
    {
        contains_name(&self.shadow, name)
    }

    /// Opens a new frame; its effective flag inherits the parent's.
    pub fn push(&mut self, is_test_marker: bool)
        requires
            old(self).wf(),
        ensures
            final(self).wf(),
            final(self)@ == spec_push(old(self)@, is_test_marker),
    {
        let test = is_test_marker || self.current_is_test_only();
        self.frames.push(Frame { names: Vec::new(), test_only: test });
        proof {
            let s = self@;
            assert(s.last().names =~= Seq::<Seq<char>>::empty());
            assert(s =~~= spec_push(old(self)@, is_test_marker));
            assert forall|n: Seq<char>|
                views_of(self.shadow@).contains(n) == spec_shadowed(s, n) by {
                if spec_shadowed(s, n) {
                    let (i, j) = choose|i: int, j: int|
                        0 <= i < s.len() && 0 <= j < s[i].names.len() && #[trigger] s[i].names[j]
                            == n;
                    assert(i < old(self)@.len());
                    assert(old(self)@[i].names[j] == n);
                    assert(spec_shadowed(old(self)@, n));
                }
                if spec_shadowed(old(self)@, n) {
                    let (i, j) = choose|i: int, j: int|
                        0 <= i < old(self)@.len() && 0 <= j < old(self)@[i].names.len()
                            && #[trigger] old(self)@[i].names[j] == n;
                    assert(s[i].names[j] == n);
                }
            }
        }
    }

    /// Introduces `name` in the innermost frame unless it is already
    /// shadowed; re-declaration is a silent no-op.
    pub fn declare_local(&mut self, name: &String)
        requires
            old(self).wf(),
        ensures
            final(self).wf(),
            final(self)@ == spec_declare(old(self)@, name@),
    {
        if self.is_shadowed(name) {
            return ;
        }
        let mut top = self.frames.pop().unwrap();
        top.names.push(name.clone());
        self.frames.push(top);
        self.shadow.push(name.clone());
        proof {
            let olds = old(self)@;
            let news = self@;
            let li = olds.len() - 1;
            assert forall|i: int| 0 <= i < li implies news[i] == olds[i] by {
                assert(self.frames@[i] == old(self).frames@[i]);
            }
            assert(self.frames@[li].names@ == old(self).frames@[li].names@.push(*name));
            assert(news[li].names =~= olds[li].names.push(name@));
            assert(news =~~= spec_declare(olds, name@));
            assert forall|i: int, j1: int, j2: int|
                0 <= i < news.len() && 0 <= j1 < j2 < news[i].names.len() implies #[trigger] news[i].names[j1]
                != #[trigger] news[i].names[j2] by {
                if i == li && j2 == news[i].names.len() - 1 {
                    assert(news[i].names[j1] == olds[i].names[j1]);
                    if olds[i].names[j1] == name@ {
                        assert(spec_shadowed(olds, name@));
                    }
                } else {
                    assert(news[i].names[j1] == olds[i].names[j1]);
                    assert(news[i].names[j2] == olds[i].names[j2]);
                }
            }
            assert forall|i1: int, j1: int, i2: int, j2: int|
                0 <= i1 < i2 < news.len() && 0 <= j1 < news[i1].names.len() && 0 <= j2
                    < news[i2].names.len() implies #[trigger] news[i1].names[j1]
                != #[trigger] news[i2].names[j2] by {
                if i2 == li && j2 == news[i2].names.len() - 1 {
                    assert(news[i1].names[j1] == olds[i1].names[j1]);
                    if olds[i1].names[j1] == name@ {
                        assert(spec_shadowed(olds, name@));
                    }
                } else {
                    assert(news[i1].names[j1] == olds[i1].names[j1]);
                    assert(news[i2].names[j2] == olds[i2].names[j2]);
                }
            }
            assert forall|i1: int, i2: int|
                0 <= i1 < i2 < news.len() && #[trigger] news[i1].test_only implies #[trigger] news[i2].test_only by {
                assert(news[i1].test_only == olds[i1].test_only);
                assert(news[i2].test_only == olds[i2].test_only);
            }
            assert(views_of(self.shadow@) =~= views_of(old(self).shadow@).push(name@));
            assert forall|n: Seq<char>|
                views_of(self.shadow@).contains(n) == spec_shadowed(news, n) by {
                let sh = views_of(self.shadow@);
                let osh = views_of(old(self).shadow@);
                if sh.contains(n) {
                    let k = choose|k: int| 0 <= k < sh.len() && sh[k] == n;
                    if k < osh.len() {
                        assert(osh[k] == n);
                        assert(osh.contains(n));
                        assert(spec_shadowed(olds, n));
                        let (i, j) = choose|i: int, j: int|
                            0 <= i < olds.len() && 0 <= j < olds[i].names.len()
                                && #[trigger] olds[i].names[j] == n;
                        assert(news[i].names[j] == n);
                        assert(spec_shadowed(news, n));
                    } else {
                        assert(n == name@);
                        assert(news[li].names[news[li].names.len() - 1] == name@);
                        assert(spec_shadowed(news, n));
                    }
                }
                if spec_shadowed(news, n) {
                    let (i, j) = choose|i: int, j: int|
                        0 <= i < news.len() && 0 <= j < news[i].names.len()
                            && #[trigger] news[i].names[j] == n;
                    if i == li && j == news[i].names.len() - 1 {
                        assert(n == name@);
                        assert(sh[sh.len() - 1] == name@);
                        assert(sh.contains(n));
                    } else {
                        assert(olds[i].names[j] == n);
                        assert(spec_shadowed(olds, n));
                        assert(osh.contains(n));
                        let k = choose|k: int| 0 <= k < osh.len() && osh[k] == n;
                        assert(sh[k] == n);
                        assert(sh.contains(n));
                    }
                }
            }
            assert forall|i: int, j: int|
                0 <= i < j < self.shadow@.len() implies #[trigger] self.shadow@[i]@
                != #[trigger] self.shadow@[j]@ by {
                let sh = views_of(self.shadow@);
                let osh = views_of(old(self).shadow@);
                assert(sh[i] == self.shadow@[i]@);
                assert(sh[j] == self.shadow@[j]@);
                if j == self.shadow@.len() - 1 {
                    assert(sh[j] == name@);
                    assert(osh[i] == sh[i]);
                    if sh[i] == name@ {
                        assert(osh.contains(name@));
                        assert(spec_shadowed(olds, name@));
                    }
                } else {
                    assert(osh[i] == sh[i]);
                    assert(osh[j] == sh[j]);
                    assert(old(self).shadow@[i]@ != old(self).shadow@[j]@);
                }
            }
        }
    }

    /// Closes the innermost frame, withdrawing every name it introduced so
    /// that any outer meaning of those names becomes visible again.  The
    /// root frame is never popped.
    pub fn pop(&mut self)
        requires
            old(self).wf(),
            old(self)@.len() >= 2,
        ensures
            final(self).wf(),
            final(self)@ == old(self)@.drop_last(),
    {
        let top = self.frames.pop().unwrap();
        let ghost olds = old(self)@;
        let ghost topm = olds.last();
        proof {
            assert(self@ =~= olds.drop_last());
            assert(topm == old(self).frames@[olds.len() - 1]@);
            assert(topm.names == views_of(top.names@));
            assert forall|n: Seq<char>|
                #[trigger] views_of(self.shadow@).contains(n) == (spec_shadowed(self@, n)
                    || topm.names.skip(0).contains(n)) by {
                lemma_shadowed_split(olds, n);
                assert(topm.names.skip(0) =~= topm.names);
            }
        }
        let mut k: usize = 0;
        while k < top.names.len()
            invariant
                0 <= k <= top.names@.len(),
                topm.names == views_of(top.names@),
                topm == olds.last(),
                self@ == olds.drop_last(),
                scopes_inv(olds),
                olds.len() >= 2,
                no_dup_names(self.shadow@),
                forall|n: Seq<char>|
                    #[trigger] views_of(self.shadow@).contains(n) == (spec_shadowed(self@, n)
                        || topm.names.skip(k as int).contains(n)),
            decreases top.names@.len() - k,
        {
            let ghost pre = views_of(self.shadow@);
            let ghost nm = top.names@[k as int]@;
            proof {
                assert(topm.names.len() == top.names@.len());
                assert(topm.names[k as int] == nm);
                assert(topm.names.skip(k as int)[0] == nm);
                assert(topm.names.skip(k as int).contains(nm));
                assert(pre.contains(nm));
            }
            // find and remove the one occurrence of the popped name
            let mut idx: usize = 0;
            let mut found: bool = false;
            while idx < self.shadow.len() && !found
                invariant
                    0 <= idx <= self.shadow@.len(),
                    k < top.names@.len(),
                    nm == top.names@[k as int]@,
                    views_of(self.shadow@) == pre,
                    !found ==> forall|t: int| 0 <= t < idx ==> #[trigger] pre[t] != nm,
                    found ==> idx < pre.len() && pre[idx as int] == nm,
                    pre.contains(nm),
                decreases self.shadow@.len() - idx + (if found {
                    0int
                } else {
                    1int
                }),
            {
                proof {
                    assert(pre[idx as int] == self.shadow@[idx as int]@);
                }
                if string_eq_at(&self.shadow, idx, &top.names, k) {
                    found = true;
                } else {
                    idx = idx + 1;
                }
            }
            proof {
                if !found {
                    let t = choose|t: int| 0 <= t < pre.len() && pre[t] == nm;
                    assert(false);
                }
            }
            self.shadow.remove(idx);
            proof {
                let post = views_of(self.shadow@);
                assert(post =~= pre.subrange(0, idx as int) + pre.subrange(
                    idx + 1,
                    pre.len() as int,
                ));
                lemma_remove_one(pre, post, idx as int, nm);
                assert forall|i: int, j: int|
                    0 <= i < j < self.shadow@.len() implies #[trigger] self.shadow@[i]@
                    != #[trigger] self.shadow@[j]@ by {
                    assert(post[i] == self.shadow@[i]@);
                    assert(post[j] == self.shadow@[j]@);
                    let pi: int = if i < idx { i } else { i + 1 };
                    let pj: int = if j < idx { j } else { j + 1 };
                    assert(post[i] == pre[pi]);
                    assert(post[j] == pre[pj]);
                }
                assert forall|n: Seq<char>|
                    #[trigger] post.contains(n) == (spec_shadowed(self@, n) || topm.names.skip(
                        k + 1,
                    ).contains(n)) by {
                    if post.contains(n) {
                        let t = choose|t: int| 0 <= t < post.len() && post[t] == n;
                        let pt: int = if t < idx { t } else { t + 1 };
                        assert(pre[pt] == n);
                        assert(pre.contains(n));
                        if n == nm {
                            // nm occurred only at idx, which was removed
                            assert(pre[idx as int] == nm);
                            assert(pt != idx);
                            assert(false);
                        }
                        assert(spec_shadowed(self@, n) || topm.names.skip(k as int).contains(n));
                        if topm.names.skip(k as int).contains(n) {
                            let t2 = choose|t2: int|
                                0 <= t2 < topm.names.skip(k as int).len()
                                    && #[trigger] topm.names.skip(k as int)[t2] == n;
                            assert(t2 != 0);
                            assert(topm.names.skip(k + 1)[t2 - 1] == n);
                            assert(topm.names.skip(k + 1).contains(n));
                        }
                    }
                    if spec_shadowed(self@, n) || topm.names.skip(k + 1).contains(n) {
                        if topm.names.skip(k + 1).contains(n) {
                            let t = choose|t: int|
                                0 <= t < topm.names.skip(k + 1).len()
                                    && #[trigger] topm.names.skip(k + 1)[t] == n;
                            assert(topm.names.skip(k as int)[t + 1] == n);
                            assert(topm.names.skip(k as int).contains(n));
                        }
                        assert(pre.contains(n));
                        // n is not the removed name: the frame lists are
                        // repeat-free and disjoint, so nm sits nowhere else
                        if n == nm {
                            if spec_shadowed(self@, n) {
                                let (i, j) = choose|i: int, j: int|
                                    0 <= i < self@.len() && 0 <= j < self@[i].names.len()
                                        && #[trigger] self@[i].names[j] == n;
                                assert(olds[i].names[j] == nm);
                                assert(olds[olds.len() - 1].names[k as int] == nm);
                                assert(false);
                            }
                            if topm.names.skip(k + 1).contains(nm) {
                                let t = choose|t: int|
                                    0 <= t < topm.names.skip(k + 1).len()
                                        && #[trigger] topm.names.skip(k + 1)[t] == nm;
                                assert(topm.names[k + 1 + t] == nm);
                                assert(topm.names[k as int] == nm);
                                assert(olds[olds.len() - 1].names[k + 1 + t] == olds[olds.len()
                                    - 1].names[k as int]);
                                assert(false);
                            }
                            assert(false);
                        }
                        let t = choose|t: int| 0 <= t < pre.len() && pre[t] == n;
                        assert(t != idx);
                        let pt: int = if t < idx { t } else { t - 1 };
                        assert(post[pt] == n);
                        assert(post.contains(n));
                    }
                }
            }
            k = k + 1;
        }
        proof {
            assert(topm.names.skip(top.names@.len() as int) =~= Seq::<Seq<char>>::empty());
            assert forall|n: Seq<char>|
                views_of(self.shadow@).contains(n) == spec_shadowed(self@, n) by {
                assert(!topm.names.skip(top.names@.len() as int).contains(n));
            }
            assert(scopes_inv(self@)) by {
                assert forall|i: int, j1: int, j2: int|
                    0 <= i < self@.len() && 0 <= j1 < j2 < self@[i].names.len() implies
                    #[trigger] self@[i].names[j1] != #[trigger] self@[i].names[j2] by {
                    assert(self@[i] == olds[i]);
                }
                assert forall|i1: int, j1: int, i2: int, j2: int|
                    0 <= i1 < i2 < self@.len() && 0 <= j1 < self@[i1].names.len() && 0 <= j2
                        < self@[i2].names.len() implies #[trigger] self@[i1].names[j1]
                    != #[trigger] self@[i2].names[j2] by {
                    assert(self@[i1] == olds[i1]);
                    assert(self@[i2] == olds[i2]);
                }
                assert forall|i1: int, i2: int|
                    0 <= i1 < i2 < self@.len() && #[trigger] self@[i1].test_only implies
                    #[trigger] self@[i2].test_only by {
                    assert(self@[i1] == olds[i1]);
                    assert(self@[i2] == olds[i2]);
                }
            }
        }
    }
}

/// Equality of `a[i]` and `b[j]` as identifiers.
fn string_eq_at(a: &Vec<String>, i: usize, b: &Vec<String>, j: usize) -> (r: bool)
    requires
        i < a@.len(),
        j < b@.len(),
    ensures
        r == (a@[i as int]@ == b@[j as int]@),
{
    a[i] == b[j]
}

/// After removing position `idx` from `pre`, every remaining entry is an
/// entry of `pre` at the position shifted over `idx`.
proof fn lemma_remove_one(pre: Seq<Seq<char>>, post: Seq<Seq<char>>, idx: int, nm: Seq<char>)
    requires
        0 <= idx < pre.len(),
        post == pre.subrange(0, idx) + pre.subrange(idx + 1, pre.len() as int),
    ensures
        forall|t: int|
            0 <= t < post.len() ==> #[trigger] post[t] == pre[if t < idx {
                t
            } else {
                t + 1
            }],
{
    assert forall|t: int|
        0 <= t < post.len() implies #[trigger] post[t] == pre[if t < idx {
        t
    } else {
        t + 1
    }] by {
        if t < idx {
            assert(post[t] == pre.subrange(0, idx)[t]);
        } else {
            assert(post[t] == pre.subrange(idx + 1, pre.len() as int)[t - idx]);
        }
    }
}

} // verus!
