//! A resumable traversal of a route tree that yields every node a path
//! matches, in lookup order (literal, regex, `*`, `**`, depth first).

use vstd::prelude::*;

use crate::url::node::children::lemma_resume;
use crate::url::node::partial::PartialState;
use crate::url::node::NodeV;
use crate::url::root::{first_hit, is_candidate, links_ok, reaches, tree_wf, walk_at, walk_str_spec, UrlRoot};
use crate::url::split::{split_slash, strs_view};

verus! {

/// Which child table a frame iterates: the root table, or a node's.
#[derive(Clone, Copy, Debug, PartialEq, Eq, Structural)]
pub enum FrameNode {
    Root,
    Node(usize),
}

/// One in-progress child search; the frame at stack index `i` matches
/// segment `i`.
#[derive(Clone, Copy, Debug, PartialEq, Eq, Structural)]
pub struct WalkFrame {
    pub node: FrameNode,
    pub state: PartialState,
}

/// The tree index of the table a frame iterates (the root table is 0).
pub open spec fn frame_id(f: WalkFrame) -> usize {
    match f.node {
        FrameNode::Root => 0,
        FrameNode::Node(id) => id,
    }
}

/// Every match that a search from node `id` for segment `d`, resuming
/// after state `st`, still has to yield, in order.
pub open spec fn hits_at<H, P>(
    t: Seq<NodeV<H, P>>,
    id: usize,
    segs: Seq<Seq<char>>,
    d: int,
    st: PartialState,
) -> Seq<usize>
    decreases segs.len() - d, 1int, 0int,
{
    if d < 0 || d >= segs.len() || id >= t.len() {
        Seq::empty()
    } else {
        hits_from(t, t[id as int].children.candidates(segs[d], st), segs, d)
    }
}

/// Every match reached through the candidates `cs` of segment `d`: a
/// candidate for the last segment, or a catch-all, is a match itself; any
/// other is searched below.
pub open spec fn hits_from<H, P>(
    t: Seq<NodeV<H, P>>,
    cs: Seq<(usize, PartialState)>,
    segs: Seq<Seq<char>>,
    d: int,
) -> Seq<usize>
    decreases segs.len() - d, 0int, cs.len(),
{
    if cs.len() == 0 || d < 0 || d >= segs.len() {
        Seq::empty()
    } else {
        let c = cs[0].0;
        (if d + 1 >= segs.len() || t[c as int].path is AnyPath {
            seq![c]
        } else {
            hits_at(t, c, segs, d + 1, PartialState::NotStart)
        }) + hits_from(t, cs.drop_first(), segs, d)
    }
}

/// The matches a stack of frames still has to yield: the top frame's
/// first, then those of the frames below.
pub open spec fn pending<H, P>(t: Seq<NodeV<H, P>>, frames: Seq<WalkFrame>, segs: Seq<Seq<char>>) -> Seq<
    usize,
>
    decreases frames.len(),
{
    if frames.len() == 0 {
        Seq::empty()
    } else {
        hits_at(t, frame_id(frames.last()), segs, frames.len() - 1, frames.last().state) + pending(
            t,
            frames.drop_last(),
            segs,
        )
    }
}

/// The steps a search from node `id` for segment `d` still takes.
pub open spec fn work_at<H, P>(
    t: Seq<NodeV<H, P>>,
    id: usize,
    segs: Seq<Seq<char>>,
    d: int,
    st: PartialState,
) -> nat
    decreases segs.len() - d, 1int, 0int,
{
    if d < 0 || d >= segs.len() || id >= t.len() {
        1
    } else {
        1 + work_from(t, t[id as int].children.candidates(segs[d], st), segs, d)
    }
}

/// The steps the candidates `cs` of segment `d` still take.
pub open spec fn work_from<H, P>(
    t: Seq<NodeV<H, P>>,
    cs: Seq<(usize, PartialState)>,
    segs: Seq<Seq<char>>,
    d: int,
) -> nat
    decreases segs.len() - d, 0int, cs.len(),
{
    if cs.len() == 0 || d < 0 || d >= segs.len() {
        0
    } else {
        let c = cs[0].0;
        (if d + 1 >= segs.len() || t[c as int].path is AnyPath {
            1
        } else {
            1 + work_at(t, c, segs, d + 1, PartialState::NotStart)
        }) + work_from(t, cs.drop_first(), segs, d)
    }
}

/// The steps a stack of frames still takes.
pub open spec fn work<H, P>(t: Seq<NodeV<H, P>>, frames: Seq<WalkFrame>, segs: Seq<Seq<char>>) -> nat
    decreases frames.len(),
{
    if frames.len() == 0 {
        0
    } else {
        work_at(t, frame_id(frames.last()), segs, frames.len() - 1, frames.last().state) + work(
            t,
            frames.drop_last(),
            segs,
        )
    }
}

/// The first element of a sequence, if any.
pub open spec fn first_of(s: Seq<usize>) -> Option<usize> {
    if s.len() > 0 {
        Some(s[0])
    } else {
        None
    }
}

/// The first match a search yields is the node the walk returns.
pub proof fn lemma_first_hit_is_walk<H, P>(
    t: Seq<NodeV<H, P>>,
    id: usize,
    segs: Seq<Seq<char>>,
    d: int,
    st: PartialState,
)
    requires
        0 <= d < segs.len(),
    ensures
        first_of(hits_at(t, id, segs, d, st)) == walk_at(t, id, segs, d, st),
    decreases segs.len() - d, 1int, 0int,
{
    if id < t.len() {
        lemma_first_hit_is_walk_from(t, t[id as int].children.candidates(segs[d], st), segs, d);
    }
}

/// The first match reached through candidates `cs` is the walk's choice.
pub proof fn lemma_first_hit_is_walk_from<H, P>(
    t: Seq<NodeV<H, P>>,
    cs: Seq<(usize, PartialState)>,
    segs: Seq<Seq<char>>,
    d: int,
)
    requires
        0 <= d < segs.len(),
    ensures
        first_of(hits_from(t, cs, segs, d)) == first_hit(t, cs, segs, d),
    decreases segs.len() - d, 0int, cs.len(),
{
    if cs.len() > 0 {
        let c = cs[0].0;
        lemma_first_hit_is_walk_from(t, cs.drop_first(), segs, d);
        if d + 1 < segs.len() && !(t[c as int].path is AnyPath) {
            lemma_first_hit_is_walk(t, c, segs, d + 1, PartialState::NotStart);
            let x = hits_at(t, c, segs, d + 1, PartialState::NotStart);
            let rest = hits_from(t, cs.drop_first(), segs, d);
            assert(hits_from(t, cs, segs, d) == x + rest);
            if x.len() > 0 {
                assert((x + rest)[0] == x[0]);
            } else {
                assert(x + rest =~= rest);
            }
        } else {
            let rest = hits_from(t, cs.drop_first(), segs, d);
            assert((seq![c] + rest)[0] == c);
        }
    }
}

proof fn lemma_hits_from_reach<H, P>(
    t: Seq<NodeV<H, P>>,
    id: usize,
    cs: Seq<(usize, PartialState)>,
    segs: Seq<Seq<char>>,
    d: int,
)
    requires
        0 <= d < segs.len(),
        id < t.len(),
        forall|i: int| 0 <= i < cs.len() ==> is_candidate(t, id, segs[d], #[trigger] cs[i].0),
    ensures
        forall|i: int| 0 <= i < hits_from(t, cs, segs, d).len() ==> reaches(t, id, segs, d, #[trigger] hits_from(t, cs, segs, d)[i]),
    decreases segs.len() - d, 0int, cs.len(),
{
    if cs.len() > 0 {
        let c = cs[0].0;
        assert(is_candidate(t, id, segs[d], c));
        let rest = hits_from(t, cs.drop_first(), segs, d);
        assert forall|i: int| 0 <= i < cs.drop_first().len() implies is_candidate(t, id, segs[d], #[trigger] cs.drop_first()[i].0) by {
            assert(cs.drop_first()[i] == cs[i + 1]);
        }
        lemma_hits_from_reach(t, id, cs.drop_first(), segs, d);
        let head = if d + 1 >= segs.len() || t[c as int].path is AnyPath {
            seq![c]
        } else {
            hits_at(t, c, segs, d + 1, PartialState::NotStart)
        };
        if d + 1 >= segs.len() || t[c as int].path is AnyPath {
            if d + 1 >= segs.len() {
                assert(reaches(t, c, segs, d + 1, c));
            }
        } else {
            lemma_hits_reach(t, c, segs, d + 1);
        }
        let all = hits_from(t, cs, segs, d);
        assert(all == head + rest);
        assert forall|i: int| 0 <= i < all.len() implies reaches(t, id, segs, d, #[trigger] all[i]) by {
            if i < head.len() {
                assert(all[i] == head[i]);
                if d + 1 < segs.len() && !(t[c as int].path is AnyPath) {
                    assert(reaches(t, c, segs, d + 1, head[i]));
                }
            } else {
                assert(all[i] == rest[i - head.len()]);
            }
        }
    }
}

/// Every node a search yields is reached by the whole path: each segment
/// in turn matches a child on the way, and only a catch-all ends a route
/// while segments remain.
pub proof fn lemma_hits_reach<H, P>(t: Seq<NodeV<H, P>>, id: usize, segs: Seq<Seq<char>>, d: int)
    requires
        0 <= d,
    ensures
        forall|i: int| 0 <= i < hits_at(t, id, segs, d, PartialState::NotStart).len() ==> reaches(
            t,
            id,
            segs,
            d,
            #[trigger] hits_at(t, id, segs, d, PartialState::NotStart)[i],
        ),
    decreases segs.len() - d, 1int, 0int,
{
    if d < segs.len() && id < t.len() {
        let cs = t[id as int].children.candidates(segs[d], PartialState::NotStart);
        assert forall|i: int| 0 <= i < cs.len() implies is_candidate(t, id, segs[d], #[trigger] cs[i].0) by {}
        lemma_hits_from_reach(t, id, cs, segs, d);
        assert(hits_at(t, id, segs, d, PartialState::NotStart) == hits_from(t, cs, segs, d));
    }
}

/// Every node that a fresh cursor over a non-empty path yields is reached
/// by the whole path.
pub proof fn lemma_cursor_hits_reach<H, P>(t: Seq<NodeV<H, P>>, path: Seq<char>)
    requires
        path.len() > 0,
    ensures
        forall|i: int|
            0 <= i < pending(
                t,
                seq![WalkFrame { node: FrameNode::Root, state: PartialState::NotStart }],
                split_slash(path),
            ).len() ==> reaches(
                t,
                0,
                split_slash(path),
                0,
                #[trigger] pending(
                    t,
                    seq![WalkFrame { node: FrameNode::Root, state: PartialState::NotStart }],
                    split_slash(path),
                )[i],
            ),
{
    let segs = split_slash(path);
    let fs = seq![WalkFrame { node: FrameNode::Root, state: PartialState::NotStart }];
    assert(fs.drop_last() =~= Seq::<WalkFrame>::empty());
    assert(frame_id(fs.last()) == 0);
    assert(pending(t, fs.drop_last(), segs) == Seq::<usize>::empty());
    assert(pending(t, fs, segs) =~= hits_at(t, 0, segs, 0, PartialState::NotStart));
    lemma_hits_reach(t, 0, segs, 0);
}

/// The first node a fresh cursor over a non-empty path yields is the node
/// that walking the path reaches.
pub proof fn lemma_cursor_starts_with_walk<H, P>(t: Seq<NodeV<H, P>>, endpoint: Option<usize>, path: Seq<char>)
    requires
        path.len() > 0,
    ensures
        first_of(
            pending(
                t,
                seq![WalkFrame { node: FrameNode::Root, state: PartialState::NotStart }],
                split_slash(path),
            ),
        ) == walk_str_spec(t, endpoint, path),
{
    crate::url::split::lemma_split_join(path);
    let segs = split_slash(path);
    let fs = seq![WalkFrame { node: FrameNode::Root, state: PartialState::NotStart }];
    assert(fs.drop_last() =~= Seq::<WalkFrame>::empty());
    assert(fs.len() == 1 && fs.last() == WalkFrame { node: FrameNode::Root, state: PartialState::NotStart });
    assert(frame_id(fs.last()) == 0);
    assert(pending(t, fs.drop_last(), segs) == Seq::<usize>::empty());
    assert(pending(t, fs, segs) =~= hits_at(t, 0, segs, 0, PartialState::NotStart));
    lemma_first_hit_is_walk(t, 0, segs, 0, PartialState::NotStart);
}

/// A resumable traversal: a stack of frames, frame `i` searching the
/// children of its node for segment `i`.
pub struct WalkCursor {
    frames: Vec<WalkFrame>,
}

impl WalkCursor {
    /// The frames, bottom first.
    pub closed spec fn stack(self) -> Seq<WalkFrame> {
        self.frames@
    }

    /// Every frame names a node of tree `t` and a state that can be
    /// resumed.
    pub open spec fn valid<H, P>(self, t: Seq<NodeV<H, P>>) -> bool {
        forall|i: int|
            0 <= i < self.stack().len() ==> {
                let f = #[trigger] self.stack()[i];
                &&& frame_id(f) < t.len()
                &&& f.state matches PartialState::Reg(j) ==> j < usize::MAX
            }
    }

    /// A cursor that yields nothing.
    pub fn empty() -> (r: WalkCursor)
        ensures
            r.stack().len() == 0,
    {
        WalkCursor { frames: Vec::new() }
    }

    /// A cursor over the children of the root table.
    pub fn from_root() -> (r: WalkCursor)
        ensures
            r.stack() == seq![WalkFrame { node: FrameNode::Root, state: PartialState::NotStart }],
    {
        let mut frames = Vec::new();
        frames.push(WalkFrame { node: FrameNode::Root, state: PartialState::NotStart });
        WalkCursor { frames }
    }

    /// A cursor over the children of node `id`.
    pub fn from_node(id: usize) -> (r: WalkCursor)
        ensures
            r.stack() == seq![WalkFrame { node: FrameNode::Node(id), state: PartialState::NotStart }],
    {
        let mut frames = Vec::new();
        frames.push(WalkFrame { node: FrameNode::Node(id), state: PartialState::NotStart });
        WalkCursor { frames }
    }

    /// The frames, bottom first.
    pub fn frames(&self) -> (r: &[WalkFrame])
        ensures
            r@ == self.stack(),
    {
        self.frames.as_slice()
    }

    /// The next node that `segments` match, or `None` once every match was
    /// yielded. `segments` must be the same across the calls of one
    /// traversal.
    pub fn find_next<H, P>(&mut self, root: &UrlRoot<H, P>, segments: &[String]) -> (r: Option<usize>)
        requires
            root.wf(),
            old(self).valid(root.tree()),
        ensures
            final(self).valid(root.tree()),
            r == first_of(pending(root.tree(), old(self).stack(), strs_view(segments@))),
            r is Some ==> pending(root.tree(), final(self).stack(), strs_view(segments@)) == pending(
                root.tree(),
                old(self).stack(),
                strs_view(segments@),
            ).drop_first(),
            r is None ==> pending(root.tree(), final(self).stack(), strs_view(segments@)).len() == 0,
    {
        let ghost t = root.tree();
        let ghost sv = strs_view(segments@);
        let ghost orig = pending(t, self.frames@, sv);
        proof {
            root.lemma_tree_wf();
        }
        while self.frames.len() > 0
            invariant
                root.wf(),
                tree_wf(t),
                t == root.tree(),
                sv == strs_view(segments@),
                self.valid(t),
                pending(t, self.frames@, sv) == orig,
                orig == pending(t, old(self).stack(), sv),
            decreases work(t, self.frames@, sv),
        {
            let idx = self.frames.len() - 1;
            let ghost fs = self.frames@;
            let ghost top = fs[idx as int];
            assert(fs.drop_last().len() == idx);
            if idx >= segments.len() {
                self.frames.pop();
                assert(self.frames@ =~= fs.drop_last());
                assert(work(t, fs, sv) == 1 + work(t, fs.drop_last(), sv));
                continue;
            }
            let frame = self.frames[idx];
            let node_id: usize = match frame.node {
                FrameNode::Root => 0,
                FrameNode::Node(id) => id,
            };
            let segment = segments[idx].as_str();
            assert(segment@ == sv[idx as int]);
            let ghost c = t[node_id as int].children;
            let ghost cs = c.candidates(segment@, frame.state);
            proof {
                assert(links_ok(t, c));
                crate::url::root::lemma_candidates_valid(t, c, segment@, frame.state);
                if cs.len() > 0 {
                    lemma_resume(c, segment@, frame.state);
                }
            }
            let (matched, next_state) = root.node(node_id).children().match_step(segment, frame.state);
            self.frames.set(idx, WalkFrame { node: frame.node, state: next_state });
            let ghost fs1 = self.frames@;
            assert(fs1.drop_last() =~= fs.drop_last());
            match matched {
                None => {
                    self.frames.pop();
                    assert(self.frames@ =~= fs.drop_last());
                    assert(cs.len() == 0);
                    assert(work_at(t, node_id, sv, idx as int, frame.state) == 1);
                    assert(work(t, fs, sv) == 1 + work(t, fs.drop_last(), sv));
                },
                Some(child) => {
                    let ghost tail = hits_from(t, cs.drop_first(), sv, idx as int);
                    if idx + 1 == segments.len() || root.node(child).path().is_any_path() {
                        assert(hits_at(t, node_id, sv, idx as int, frame.state) == seq![child] + tail);
                        assert(pending(t, fs, sv) =~= seq![child] + pending(t, fs1, sv));
                        assert(orig.len() > 0 && orig[0] == child);
                        assert(pending(t, fs1, sv) =~= orig.drop_first());
                        return Some(child);
                    }
                    self.frames.push(WalkFrame { node: FrameNode::Node(child), state: PartialState::NotStart });
                    assert(self.frames@.drop_last() =~= fs1);
                    assert(hits_at(t, node_id, sv, idx as int, frame.state) == hits_at(
                        t,
                        child,
                        sv,
                        idx + 1,
                        PartialState::NotStart,
                    ) + tail);
                    let ghost nf = self.frames@;
                    let ghost rest = pending(t, fs.drop_last(), sv);
                    let ghost xc = hits_at(t, child, sv, idx + 1, PartialState::NotStart);
                    assert(frame_id(nf.last()) == child && nf.len() - 1 == idx + 1);
                    assert(frame_id(fs1.last()) == node_id && fs1.last().state == next_state);
                    assert(frame_id(fs.last()) == node_id && fs.last().state == frame.state);
                    assert(hits_at(t, node_id, sv, idx as int, next_state) == tail);
                    assert(pending(t, fs1, sv) == tail + rest);
                    assert(pending(t, nf, sv) == xc + pending(t, fs1, sv));
                    assert(pending(t, fs, sv) == (xc + tail) + rest);
                    assert(pending(t, nf, sv) =~= pending(t, fs, sv));
                    let ghost wtail = work_from(t, cs.drop_first(), sv, idx as int);
                    let ghost wc = work_at(t, child, sv, idx + 1, PartialState::NotStart);
                    assert(work_at(t, node_id, sv, idx as int, frame.state) == 1 + (1 + wc) + wtail);
                    assert(work_at(t, node_id, sv, idx as int, next_state) == 1 + wtail);
                    assert(work(t, fs1, sv) == 1 + wtail + work(t, fs.drop_last(), sv));
                    assert(work(t, fs, sv) == 2 + wc + wtail + work(t, fs.drop_last(), sv));
                    assert(work(t, self.frames@, sv) == wc + work(t, fs1, sv));
                },
            }
        }
        None
    }
}

impl<H, P> UrlRoot<H, P> {
    /// A cursor over every node that `path` matches; the empty path gives
    /// an empty cursor (its node is the root endpoint).
    pub fn walk_cursor(&self, path: &str) -> (r: WalkCursor)
        ensures
            path@.len() == 0 ==> r.stack().len() == 0,
            path@.len() > 0 ==> r.stack() == seq![WalkFrame { node: FrameNode::Root, state: PartialState::NotStart }],
    {
        if path.is_empty() {
            WalkCursor::empty()
        } else {
            WalkCursor::from_root()
        }
    }
}

} // verus!
