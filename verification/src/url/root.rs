//! The route tree: nodes held by index, a segmentless root dispatch table,
//! the root endpoint for the empty path, registration and lookup.

use vstd::prelude::*;

use crate::url::node::children::{
    lemma_lit_find_at, lemma_regex_cands_states, lemma_regex_find_at, lemma_resume, lit_find,
    regex_find, regex_without, ChildrenV,
};
use crate::url::node::partial::PartialState;
use crate::url::node::stepname::StepName;
use crate::url::params::StrMap;
use crate::url::node::{NodeV, UrlNode};
use crate::url::error::UrlError;
use crate::url::lexer::lex;
use crate::url::node::stepname::{names_map, opt_view};
use crate::url::parser::{names_view, parse, pattern_error_message, patterns_of, patterns_view};
use crate::url::split::{drop_empty, path_segments, split_path, split_slash, strs_view};
use crate::url::pattern::{PathPattern, PatternV};

verus! {

/// Every link of a child table leads to a node (never the root table, index
/// 0) whose pattern is the pattern it is registered under.
pub open spec fn links_ok<H, P>(t: Seq<NodeV<H, P>>, c: ChildrenV) -> bool {
    &&& c.wf()
    &&& forall|q: PatternV|
        #[trigger] c.find(q) is Some ==> 0 < c.find(q)->0 < t.len() && t[c.find(q)->0 as int].path == q
}

/// A well-formed tree: a root table at index 0 and valid links everywhere.
pub open spec fn tree_wf<H, P>(t: Seq<NodeV<H, P>>) -> bool {
    &&& t.len() >= 1
    &&& forall|i: int| 0 <= i < t.len() ==> links_ok(t, #[trigger] t[i].children)
}

/// The node reached from `id` by following the exact patterns `ps`.
pub open spec fn find_path<H, P>(t: Seq<NodeV<H, P>>, id: usize, ps: Seq<PatternV>) -> Option<usize>
    decreases ps.len(),
{
    if ps.len() == 0 {
        Some(id)
    } else if id >= t.len() {
        None
    } else {
        match t[id as int].children.find(ps[0]) {
            Some(c) => find_path(t, c, ps.drop_first()),
            None => None,
        }
    }
}

/// The node that segments `segs[d..]` reach from node `id`, the search at
/// this depth resuming after state `st`: candidates are tried in lookup
/// order; a candidate with segments left after it (and not a catch-all) is
/// descended into, and the next candidate is tried when that finds nothing.
pub open spec fn walk_at<H, P>(
    t: Seq<NodeV<H, P>>,
    id: usize,
    segs: Seq<Seq<char>>,
    d: int,
    st: PartialState,
) -> Option<usize>
    decreases segs.len() - d, 1int, 0int,
{
    if d >= segs.len() {
        Some(id)
    } else if d < 0 || id >= t.len() {
        None
    } else {
        first_hit(t, t[id as int].children.candidates(segs[d], st), segs, d)
    }
}

/// The first of the candidates `cs` for segment `d` that leads to a match.
pub open spec fn first_hit<H, P>(
    t: Seq<NodeV<H, P>>,
    cs: Seq<(usize, PartialState)>,
    segs: Seq<Seq<char>>,
    d: int,
) -> Option<usize>
    decreases segs.len() - d, 0int, cs.len(),
{
    if cs.len() == 0 || d < 0 || d >= segs.len() {
        None
    } else {
        let c = cs[0].0;
        if d + 1 < segs.len() && !(t[c as int].path is AnyPath) {
            match walk_at(t, c, segs, d + 1, PartialState::NotStart) {
                Some(r) => Some(r),
                None => first_hit(t, cs.drop_first(), segs, d),
            }
        } else {
            Some(c)
        }
    }
}

/// Whether `c` is one of the children of node `id` that segment `seg`
/// matches.
pub open spec fn is_candidate<H, P>(t: Seq<NodeV<H, P>>, id: usize, seg: Seq<char>, c: usize) -> bool {
    exists|k: int|
        0 <= k < t[id as int].children.candidates(seg, PartialState::NotStart).len()
            && #[trigger] t[id as int].children.candidates(seg, PartialState::NotStart)[k].0 == c
}

/// Node `r` is reached from node `id` by the segments from index `d` on:
/// with no segment left it is `id` itself; otherwise the next segment
/// matches a child of `id`, and either that child is a catch-all and is `r`,
/// or `r` is reached from that child by the remaining segments. Only a
/// catch-all ends a walk while segments remain.
pub open spec fn reaches<H, P>(t: Seq<NodeV<H, P>>, id: usize, segs: Seq<Seq<char>>, d: int, r: usize) -> bool
    decreases segs.len() - d,
{
    if d >= segs.len() {
        r == id
    } else if d < 0 || id >= t.len() {
        false
    } else {
        exists|c: usize|
            #[trigger] is_candidate(t, id, segs[d], c) && ((t[c as int].path is AnyPath && r == c) || reaches(
                t,
                c,
                segs,
                d + 1,
                r,
            ))
    }
}

/// `t2` grows `t`: no node disappears or changes its pattern, and every
/// link of `t` is still there.
pub open spec fn extends<H, P>(t: Seq<NodeV<H, P>>, t2: Seq<NodeV<H, P>>) -> bool {
    &&& t2.len() >= t.len()
    &&& forall|i: int| 0 <= i < t.len() ==> (#[trigger] t2[i]).path == t[i].path
    &&& forall|i: int, q: PatternV|
        0 <= i < t.len() && (#[trigger] t[i].children.find(q)) is Some ==> t2[i].children.find(q)
            == t[i].children.find(q)
}

/// Every node of `t` other than `n` keeps its handler, route parameters
/// and capture names.
pub open spec fn keeps_bindings<H, P>(t: Seq<NodeV<H, P>>, t2: Seq<NodeV<H, P>>, n: usize) -> bool {
    forall|i: int|
        0 <= i < t.len() && i != n ==> (#[trigger] t2[i]).handler == t[i].handler && t2[i].names
            == t[i].names && t2[i].params == t[i].params
}

/// Registration of `binding`, `params` and `names` at the end of path `ps`
/// from node `id` turned tree `t` into `t2`, the binding landing on node
/// `n`: `t2` grows `t`, `ps` now leads to `n`, `n` carries the binding, and
/// no other node changed its handler, parameters or names. When `ps` led to
/// a node already, `n` is that node, `params` are merged over its
/// parameters, and it keeps its names if `names` is empty; otherwise `n` is
/// new with exactly `params` and `names`.
pub open spec fn registered<H, P>(
    t: Seq<NodeV<H, P>>,
    t2: Seq<NodeV<H, P>>,
    id: usize,
    ps: Seq<PatternV>,
    n: usize,
    binding: Option<H>,
    params: Map<Seq<char>, P>,
    names: Map<Seq<char>, usize>,
) -> bool {
    &&& extends(t, t2)
    &&& keeps_bindings(t, t2, n)
    &&& 0 < n < t2.len()
    &&& find_path(t2, id, ps) == Some(n)
    &&& t2[n as int].handler == binding
    &&& find_path(t, id, ps) matches Some(m) ==> n == m && t2[n as int].names == (if names.len() == 0 {
        t[n as int].names
    } else {
        names
    }) && t2[n as int].params == t[n as int].params.union_prefer_right(params)
    &&& find_path(t, id, ps) is None ==> n >= t.len() && t2[n as int].names == names && t2[n as int].params
        == params
}

/// Child table `c2` is `c` with child `id` linked under pattern `q`,
/// replacing what was linked under `q`: lookups of every other pattern are
/// unchanged, the other buckets are unchanged, and a regex link moves to the
/// end of the regex order.
pub open spec fn child_added(c: ChildrenV, c2: ChildrenV, q: PatternV, id: usize) -> bool {
    &&& c2.wf()
    &&& forall|p: PatternV| #[trigger] c2.find(p) == if p == q {
        Some(id)
    } else {
        c.find(p)
    }
    &&& q matches PatternV::Regex(src) ==> c2.regex == regex_without(c.regex, src).push((src, id))
    &&& !(q is Regex) ==> c2.regex == c.regex
    &&& !(q is Literal) ==> c2.literals == c.literals
    &&& !(q is Any) ==> c2.any == c.any
    &&& !(q is AnyPath) ==> c2.any_path == c.any_path
}

/// A child table without children.
pub open spec fn no_children() -> ChildrenV {
    ChildrenV { literals: Seq::empty(), regex: Seq::empty(), any: None, any_path: None }
}

/// A node for pattern `q` without children, carrying `handler`, `params`
/// and `names`.
pub open spec fn leaf_node<H, P>(
    q: PatternV,
    handler: Option<H>,
    params: Map<Seq<char>, P>,
    names: Map<Seq<char>, usize>,
) -> NodeV<H, P> {
    NodeV { path: q, children: no_children(), handler, params, names }
}

/// `t2` is `t` with child `c` linked under `q` in the table of `parent`;
/// nothing else changes.
pub open spec fn relinked<H, P>(t: Seq<NodeV<H, P>>, t2: Seq<NodeV<H, P>>, parent: usize, q: PatternV, c: usize) -> bool {
    &&& t2.len() == t.len()
    &&& parent < t.len()
    &&& forall|i: int| 0 <= i < t.len() && i != parent ==> #[trigger] t2[i] == t[i]
    &&& t2[parent as int].path == t[parent as int].path
    &&& t2[parent as int].handler == t[parent as int].handler
    &&& t2[parent as int].params == t[parent as int].params
    &&& t2[parent as int].names == t[parent as int].names
    &&& child_added(t[parent as int].children, t2[parent as int].children, q, c)
}

/// `t2` is `t` with node `n` rebound: it carries `binding`, `params` merged
/// over its parameters, and `names` unless those are empty; nothing else
/// changes.
pub open spec fn rebound<H, P>(
    t: Seq<NodeV<H, P>>,
    t2: Seq<NodeV<H, P>>,
    n: usize,
    binding: Option<H>,
    params: Map<Seq<char>, P>,
    names: Map<Seq<char>, usize>,
) -> bool {
    &&& t2.len() == t.len()
    &&& n < t.len()
    &&& forall|i: int| 0 <= i < t.len() && i != n ==> #[trigger] t2[i] == t[i]
    &&& t2[n as int].path == t[n as int].path
    &&& t2[n as int].children == t[n as int].children
    &&& t2[n as int].handler == binding
    &&& t2[n as int].params == t[n as int].params.union_prefer_right(params)
    &&& t2[n as int].names == (if names.len() == 0 {
        t[n as int].names
    } else {
        names
    })
}

/// `t2` is `t` with a new node for `q`, without children, handler or
/// names, appended and linked under `q` in the table of `parent`.
pub open spec fn linked_fresh<H, P>(t: Seq<NodeV<H, P>>, t2: Seq<NodeV<H, P>>, parent: usize, q: PatternV) -> bool {
    relinked(t.push(leaf_node(q, None, Map::empty(), Map::empty())), t2, parent, q, t.len() as usize)
}

/// Exactly what registering `binding` and `names` along `ps` from node `id`
/// does to tree `t`, giving `t2` with the binding on node `n`: following
/// `ps`, an existing child is entered unchanged and a missing one is created
/// empty and linked; at the last pattern, an existing child is rebound and
/// linked again, a missing one is created with the binding and linked.
/// Nothing else changes.
pub open spec fn grown_to<H, P>(
    t: Seq<NodeV<H, P>>,
    t2: Seq<NodeV<H, P>>,
    id: usize,
    ps: Seq<PatternV>,
    n: usize,
    binding: Option<H>,
    params: Map<Seq<char>, P>,
    names: Map<Seq<char>, usize>,
) -> bool
    decreases ps.len(),
{
    if ps.len() == 0 || id >= t.len() {
        false
    } else if ps.len() == 1 {
        match t[id as int].children.find(ps[0]) {
            Some(c) => n == c && exists|t1: Seq<NodeV<H, P>>|
                #[trigger] rebound(t, t1, c, binding, params, names) && relinked(t1, t2, id, ps[0], c),
            None => n == t.len() && relinked(t.push(leaf_node(ps[0], binding, params, names)), t2, id, ps[0], n),
        }
    } else {
        match t[id as int].children.find(ps[0]) {
            Some(c) => grown_to(t, t2, c, ps.drop_first(), n, binding, params, names),
            None => exists|t1: Seq<NodeV<H, P>>|
                #[trigger] linked_fresh(t, t1, id, ps[0]) && grown_to(
                    t1,
                    t2,
                    t.len() as usize,
                    ps.drop_first(),
                    n,
                    binding,
                    params,
                    names,
                ),
        }
    }
}

/// Registration gives a handler only to its target: every other node keeps
/// its handler, parameters and names, and every node it creates on the way
/// carries no handler, parameters or names.
pub proof fn lemma_grown_bindings<H, P>(
    t: Seq<NodeV<H, P>>,
    t2: Seq<NodeV<H, P>>,
    id: usize,
    ps: Seq<PatternV>,
    n: usize,
    binding: Option<H>,
    params: Map<Seq<char>, P>,
    names: Map<Seq<char>, usize>,
)
    requires
        grown_to(t, t2, id, ps, n, binding, params, names),
        t2.len() <= usize::MAX,
    ensures
        t2.len() >= t.len(),
        n < t2.len(),
        forall|i: int| 0 <= i < t.len() && i != n ==> (#[trigger] t2[i]).handler == t[i].handler
            && t2[i].names == t[i].names && t2[i].params == t[i].params,
        forall|j: int| t.len() <= j < t2.len() && j != n ==> (#[trigger] t2[j]).handler is None
            && t2[j].names == Map::<Seq<char>, usize>::empty() && t2[j].params == Map::<Seq<char>, P>::empty(),
        t[id as int].children.find(ps[0]) is None ==> n >= t.len(),
    decreases ps.len(),
{
    if ps.len() == 1 {
        match t[id as int].children.find(ps[0]) {
            Some(c) => {
                let t1 = choose|t1: Seq<NodeV<H, P>>|
                    #[trigger] rebound(t, t1, c, binding, params, names) && relinked(t1, t2, id, ps[0], c);
                assert forall|i: int| 0 <= i < t.len() && i != n implies (#[trigger] t2[i]).handler
                    == t[i].handler && t2[i].names == t[i].names by {
                    assert(t1[i] == t[i]);
                    if i != id {
                        assert(t2[i] == t1[i]);
                    }
                }
            },
            None => {
                let t0 = t.push(leaf_node(ps[0], binding, params, names));
                assert forall|i: int| 0 <= i < t.len() && i != n implies (#[trigger] t2[i]).handler
                    == t[i].handler && t2[i].names == t[i].names by {
                    assert(t0[i] == t[i]);
                    if i != id {
                        assert(t2[i] == t0[i]);
                    }
                }
            },
        }
    } else {
        match t[id as int].children.find(ps[0]) {
            Some(c) => {
                lemma_grown_bindings(t, t2, c, ps.drop_first(), n, binding, params, names);
            },
            None => {
                let t1 = choose|t1: Seq<NodeV<H, P>>|
                    #[trigger] linked_fresh(t, t1, id, ps[0]) && grown_to(
                        t1,
                        t2,
                        t.len() as usize,
                        ps.drop_first(),
                        n,
                        binding,
                        params,
                        names,
                    );
                let t0 = t.push(leaf_node(ps[0], None, Map::empty(), Map::empty()));
                assert(t1[t.len() as int] == t0[t.len() as int]);
                let q = ps.drop_first()[0];
                assert(no_children().find(q) is None) by {
                    match q {
                        PatternV::Literal(k) => {},
                        PatternV::Regex(r) => {},
                        _ => {},
                    }
                }
                lemma_grown_bindings(t1, t2, t.len() as usize, ps.drop_first(), n, binding, params, names);
                assert forall|i: int| 0 <= i < t.len() && i != n implies (#[trigger] t2[i]).handler
                    == t[i].handler && t2[i].names == t[i].names by {
                    assert(t0[i] == t[i]);
                    if i != id {
                        assert(t1[i] == t0[i]);
                    }
                    assert(t2[i].handler == t1[i].handler);
                }
                assert forall|j: int| t.len() <= j < t2.len() && j != n implies (#[trigger] t2[j]).handler is None
                    && t2[j].names == Map::<Seq<char>, usize>::empty() by {
                    if j == t.len() {
                        assert(t2[j].handler == t1[j].handler);
                    }
                }
            },
        }
    }
}

/// Registration only grows the tree: no node disappears or changes its
/// pattern, and every link stays.
pub proof fn lemma_grown_extends<H, P>(
    t: Seq<NodeV<H, P>>,
    t2: Seq<NodeV<H, P>>,
    id: usize,
    ps: Seq<PatternV>,
    n: usize,
    binding: Option<H>,
    params: Map<Seq<char>, P>,
    names: Map<Seq<char>, usize>,
)
    requires
        grown_to(t, t2, id, ps, n, binding, params, names),
        tree_wf(t),
        t2.len() <= usize::MAX,
    ensures
        extends(t, t2),
    decreases ps.len(),
{
    if ps.len() == 1 {
        match t[id as int].children.find(ps[0]) {
            Some(c) => {
                let t1 = choose|t1: Seq<NodeV<H, P>>|
                    #[trigger] rebound(t, t1, c, binding, params, names) && relinked(t1, t2, id, ps[0], c);
                assert forall|i: int| 0 <= i < t.len() implies (#[trigger] t2[i]).path == t[i].path by {
                    if i != c {
                        assert(t1[i] == t[i]);
                    }
                    if i != id {
                        assert(t2[i] == t1[i]);
                    }
                }
                assert forall|i: int, q: PatternV|
                    0 <= i < t.len() && (#[trigger] t[i].children.find(q)) is Some implies t2[i].children.find(q)
                    == t[i].children.find(q) by {
                    if i != c {
                        assert(t1[i] == t[i]);
                    }
                    if i != id {
                        assert(t2[i] == t1[i]);
                    }
                }
            },
            None => {
                let t0 = t.push(leaf_node(ps[0], binding, params, names));
                assert forall|i: int| 0 <= i < t.len() implies (#[trigger] t2[i]).path == t[i].path by {
                    assert(t0[i] == t[i]);
                    if i != id {
                        assert(t2[i] == t0[i]);
                    }
                }
                assert forall|i: int, q: PatternV|
                    0 <= i < t.len() && (#[trigger] t[i].children.find(q)) is Some implies t2[i].children.find(q)
                    == t[i].children.find(q) by {
                    assert(t0[i] == t[i]);
                    if i != id {
                        assert(t2[i] == t0[i]);
                    }
                }
            },
        }
    } else {
        match t[id as int].children.find(ps[0]) {
            Some(c) => {
                lemma_grown_extends(t, t2, c, ps.drop_first(), n, binding, params, names);
            },
            None => {
                let t1 = choose|t1: Seq<NodeV<H, P>>|
                    #[trigger] linked_fresh(t, t1, id, ps[0]) && grown_to(
                        t1,
                        t2,
                        t.len() as usize,
                        ps.drop_first(),
                        n,
                        binding,
                        params,
                        names,
                    );
                lemma_grown_bindings(t1, t2, t.len() as usize, ps.drop_first(), n, binding, params, names);
                lemma_linked_fresh_wf(t, t1, id, ps[0]);
                lemma_grown_extends(t1, t2, t.len() as usize, ps.drop_first(), n, binding, params, names);
                let t0 = t.push(leaf_node(ps[0], None, Map::empty(), Map::empty()));
                assert forall|i: int| 0 <= i < t.len() implies (#[trigger] t1[i]).path == t[i].path by {
                    assert(t0[i] == t[i]);
                    if i != id {
                        assert(t1[i] == t0[i]);
                    }
                }
                assert forall|i: int, q: PatternV|
                    0 <= i < t.len() && (#[trigger] t[i].children.find(q)) is Some implies t1[i].children.find(q)
                    == t[i].children.find(q) by {
                    assert(t0[i] == t[i]);
                    if i != id {
                        assert(t1[i] == t0[i]);
                    }
                }
                assert(extends(t, t1));
                lemma_extends_trans(t, t1, t2);
            },
        }
    }
}

/// Linking a fresh node keeps a tree well formed.
proof fn lemma_linked_fresh_wf<H, P>(t: Seq<NodeV<H, P>>, t1: Seq<NodeV<H, P>>, parent: usize, q: PatternV)
    requires
        tree_wf(t),
        linked_fresh(t, t1, parent, q),
        parent < t.len() < usize::MAX,
    ensures
        tree_wf(t1),
{
    let t0 = t.push(leaf_node(q, None, Map::empty(), Map::empty()));
    assert forall|i: int| 0 <= i < t1.len() implies links_ok(t1, #[trigger] t1[i].children) by {
        if i == t.len() {
            assert(t1[i] == t0[i]);
            assert forall|p: PatternV| #[trigger] t1[i].children.find(p) is None by {
                match p {
                    PatternV::Literal(k) => {},
                    PatternV::Regex(r) => {},
                    _ => {},
                }
            }
        } else {
            assert(links_ok(t, t[i].children));
            assert(t0[i] == t[i]);
            assert forall|p: PatternV| #[trigger] t1[i].children.find(p) is Some implies 0 < t1[i].children.find(p)->0
                < t1.len() && t1[t1[i].children.find(p)->0 as int].path == p by {
                let c = t1[i].children.find(p)->0;
                if i == parent && p == q {
                    assert(c == t.len());
                    assert(t1[c as int] == t0[c as int]);
                } else {
                    if i != parent {
                        assert(t1[i] == t[i]);
                    }
                    assert(t[i].children.find(p) == Some(c));
                    assert(t0[c as int] == t[c as int]);
                    if c != parent {
                        assert(t1[c as int] == t0[c as int]);
                    }
                }
            }
        }
    }
}

/// Registering a path whose first pattern is new at `id` creates one node
/// per pattern, numbered in order after the existing nodes: the `k`-th
/// prefix of the path leads to node `t.len() + k - 1`, and the target is
/// the last of them.
pub proof fn lemma_grown_fresh_path<H, P>(
    t: Seq<NodeV<H, P>>,
    t2: Seq<NodeV<H, P>>,
    id: usize,
    ps: Seq<PatternV>,
    n: usize,
    binding: Option<H>,
    params: Map<Seq<char>, P>,
    names: Map<Seq<char>, usize>,
)
    requires
        grown_to(t, t2, id, ps, n, binding, params, names),
        tree_wf(t),
        t2.len() <= usize::MAX,
        t[id as int].children.find(ps[0]) is None,
    ensures
        n == t.len() + ps.len() - 1,
        t2.len() == t.len() + ps.len(),
        forall|k: int| 1 <= k <= ps.len() ==> #[trigger] find_path(t2, id, ps.take(k)) == Some(
            (t.len() + k - 1) as usize,
        ),
    decreases ps.len(),
{
    lemma_grown_bindings(t, t2, id, ps, n, binding, params, names);
    if ps.len() == 1 {
        assert forall|k: int| 1 <= k <= ps.len() implies #[trigger] find_path(t2, id, ps.take(k)) == Some(
            (t.len() + k - 1) as usize,
        ) by {
            assert(n == t.len());
            assert(t2[id as int].children.find(ps[0]) == Some(n));
            assert(ps.take(k)[0] == ps[0]);
            assert(ps.take(k).drop_first() =~= Seq::<PatternV>::empty());
            assert(find_path(t2, n, ps.take(k).drop_first()) == Some(n));
        }
    } else {
        let t1 = choose|t1: Seq<NodeV<H, P>>|
            #[trigger] linked_fresh(t, t1, id, ps[0]) && grown_to(
                t1,
                t2,
                t.len() as usize,
                ps.drop_first(),
                n,
                binding,
                params,
                names,
            );
        let rest = ps.drop_first();
        let t0 = t.push(leaf_node(ps[0], None, Map::empty(), Map::empty()));
        lemma_grown_bindings(t1, t2, t.len() as usize, rest, n, binding, params, names);
        lemma_linked_fresh_wf(t, t1, id, ps[0]);
        assert(t1[t.len() as int] == t0[t.len() as int]);
        assert(no_children().find(rest[0]) is None) by {
            match rest[0] {
                PatternV::Literal(k) => {},
                PatternV::Regex(r) => {},
                _ => {},
            }
        }
        lemma_grown_fresh_path(t1, t2, t.len() as usize, rest, n, binding, params, names);
        lemma_grown_extends(t1, t2, t.len() as usize, rest, n, binding, params, names);
        assert(t1[id as int].children.find(ps[0]) == Some(t.len() as usize));
        assert(t2[id as int].children.find(ps[0]) == Some(t.len() as usize));
        assert forall|k: int| 1 <= k <= ps.len() implies #[trigger] find_path(t2, id, ps.take(k)) == Some(
            (t.len() + k - 1) as usize,
        ) by {
            assert(ps.take(k)[0] == ps[0]);
            assert(ps.take(k).drop_first() =~= rest.take(k - 1));
            if k == 1 {
                assert(rest.take(0) =~= Seq::<PatternV>::empty());
            } else {
                assert(find_path(t2, t.len() as usize, rest.take(k - 1)) == Some((t1.len() + (k - 1) - 1) as usize));
            }
        }
    }
}

/// Following a prefix of a path that leads somewhere leads to a node from
/// which the rest of the path leads to the same place.
pub proof fn lemma_find_path_prefix<H, P>(t: Seq<NodeV<H, P>>, id: usize, ps: Seq<PatternV>, k: int)
    requires
        find_path(t, id, ps) is Some,
        0 <= k <= ps.len(),
    ensures
        find_path(t, id, ps.take(k)) is Some,
        find_path(t, find_path(t, id, ps.take(k))->0, ps.skip(k)) == find_path(t, id, ps),
    decreases k,
{
    if k == 0 {
        assert(ps.take(0) =~= Seq::<PatternV>::empty());
        assert(ps.skip(0) =~= ps);
    } else {
        let c = t[id as int].children.find(ps[0])->0;
        lemma_find_path_prefix(t, c, ps.drop_first(), k - 1);
        assert(ps.take(k).drop_first() =~= ps.drop_first().take(k - 1));
        assert(ps.drop_first().skip(k - 1) =~= ps.skip(k));
        assert(ps.take(k)[0] == ps[0]);
    }
}

/// Registration along `ps` leaves every node on the way (a proper prefix of
/// `ps`) reachable, carrying the handler it had, or none when the
/// registration created it; only the target carries the new binding.
pub proof fn lemma_registration_path_bindings<H, P>(
    t: Seq<NodeV<H, P>>,
    t2: Seq<NodeV<H, P>>,
    id: usize,
    ps: Seq<PatternV>,
    n: usize,
    binding: Option<H>,
    params: Map<Seq<char>, P>,
    names: Map<Seq<char>, usize>,
    k: int,
)
    requires
        registered(t, t2, id, ps, n, binding, params, names),
        grown_to(t, t2, id, ps, n, binding, params, names),
        tree_wf(t2),
        id < t2.len() <= usize::MAX,
        0 <= k < ps.len(),
    ensures
        find_path(t2, id, ps.take(k)) matches Some(m) && t2[m as int].handler == (if m == n {
            binding
        } else if m < t.len() {
            t[m as int].handler
        } else {
            None
        }),
{
    lemma_find_path_prefix(t2, id, ps, k);
    lemma_grown_bindings(t, t2, id, ps, n, binding, params, names);
    let m = find_path(t2, id, ps.take(k))->0;
    lemma_find_path_in_tree(t2, id, ps.take(k));
}

/// Following a path from a node of the tree ends at a node of the tree.
proof fn lemma_find_path_in_tree<H, P>(t: Seq<NodeV<H, P>>, id: usize, ps: Seq<PatternV>)
    requires
        tree_wf(t),
        id < t.len(),
    ensures
        find_path(t, id, ps) matches Some(m) ==> m < t.len(),
    decreases ps.len(),
{
    if ps.len() > 0 {
        assert(links_ok(t, t[id as int].children));
        if t[id as int].children.find(ps[0]) is Some {
            lemma_find_path_in_tree(t, t[id as int].children.find(ps[0])->0, ps.drop_first());
        }
    }
}

proof fn lemma_first_hit_reaches<H, P>(
    t: Seq<NodeV<H, P>>,
    id: usize,
    cs: Seq<(usize, PartialState)>,
    segs: Seq<Seq<char>>,
    d: int,
)
    requires
        0 <= d < segs.len(),
        id < t.len(),
        forall|i: int| 0 <= i < cs.len() ==> is_candidate(t, id, segs[d], #[trigger] cs[i].0),
    ensures
        first_hit(t, cs, segs, d) matches Some(r) ==> reaches(t, id, segs, d, r),
    decreases segs.len() - d, 0int, cs.len(),
{
    if cs.len() > 0 {
        let c = cs[0].0;
        assert(is_candidate(t, id, segs[d], c));
        if d + 1 < segs.len() && !(t[c as int].path is AnyPath) {
            lemma_walk_reaches(t, c, segs, d + 1);
            match walk_at(t, c, segs, d + 1, PartialState::NotStart) {
                Some(r) => {},
                None => {
                    assert forall|i: int| 0 <= i < cs.drop_first().len() implies is_candidate(
                        t,
                        id,
                        segs[d],
                        #[trigger] cs.drop_first()[i].0,
                    ) by {
                        assert(cs.drop_first()[i] == cs[i + 1]);
                    }
                    lemma_first_hit_reaches(t, id, cs.drop_first(), segs, d);
                },
            }
        } else {
            if d + 1 >= segs.len() {
                assert(reaches(t, c, segs, d + 1, c));
            }
        }
    }
}

/// A walk that finds a node consumes the whole path: every segment in turn
/// matches a child on the way, and only a catch-all ends the walk early.
pub proof fn lemma_walk_reaches<H, P>(t: Seq<NodeV<H, P>>, id: usize, segs: Seq<Seq<char>>, d: int)
    requires
        0 <= d,
    ensures
        walk_at(t, id, segs, d, PartialState::NotStart) matches Some(r) ==> reaches(t, id, segs, d, r),
    decreases segs.len() - d, 1int, 0int,
{
    if d < segs.len() && id < t.len() {
        let cs = t[id as int].children.candidates(segs[d], PartialState::NotStart);
        assert forall|i: int| 0 <= i < cs.len() implies is_candidate(t, id, segs[d], #[trigger] cs[i].0) by {}
        lemma_first_hit_reaches(t, id, cs, segs, d);
    }
}

/// A request path that a walk maps to a node is consumed whole by the route
/// to that node: each of its `/`-separated pieces in turn matches a child,
/// and only a catch-all ends the route early.
pub proof fn lemma_walk_str_reaches<H, P>(t: Seq<NodeV<H, P>>, endpoint: Option<usize>, path: Seq<char>)
    requires
        path.len() > 0,
    ensures
        walk_str_spec(t, endpoint, path) matches Some(r) ==> reaches(t, 0, split_slash(path), 0, r),
{
    lemma_walk_reaches(t, 0, split_slash(path), 0);
    if split_slash(path).len() == 0 {
        crate::url::split::lemma_split_join(path);
    }
}

/// Growing is transitive.
pub proof fn lemma_extends_trans<H, P>(t: Seq<NodeV<H, P>>, t1: Seq<NodeV<H, P>>, t2: Seq<NodeV<H, P>>)
    requires
        extends(t, t1),
        extends(t1, t2),
    ensures
        extends(t, t2),
{
    assert forall|i: int, q: PatternV|
        0 <= i < t.len() && (#[trigger] t[i].children.find(q)) is Some implies t2[i].children.find(q)
        == t[i].children.find(q) by {
        assert(t1[i].children.find(q) == t[i].children.find(q));
    }
    assert forall|i: int| 0 <= i < t.len() implies (#[trigger] t2[i]).path == t[i].path by {
        assert(t1[i].path == t[i].path);
    }
}

/// A path followed through a tree that has grown still leads where it led.
pub proof fn lemma_find_path_extends<H, P>(t: Seq<NodeV<H, P>>, t2: Seq<NodeV<H, P>>, id: usize, ps: Seq<PatternV>)
    requires
        extends(t, t2),
        find_path(t, id, ps) is Some,
    ensures
        find_path(t2, id, ps) == find_path(t, id, ps),
    decreases ps.len(),
{
    if ps.len() > 0 {
        let c = t[id as int].children.find(ps[0])->0;
        assert(t2[id as int].children.find(ps[0]) == Some(c));
        lemma_find_path_extends(t, t2, c, ps.drop_first());
    }
}

/// From a node with no children, a path of length one or more finds
/// nothing.
proof fn lemma_fresh_path<H, P>(t: Seq<NodeV<H, P>>, id: usize, ps: Seq<PatternV>)
    requires
        id < t.len(),
        forall|q: PatternV| #[trigger] t[id as int].children.find(q) is None,
        ps.len() > 0,
    ensures
        find_path(t, id, ps) is None,
{
}

/// The node that segments reach from the root: the root endpoint for no
/// segments, otherwise the walk from the root table.
pub open spec fn root_walk<H, P>(t: Seq<NodeV<H, P>>, endpoint: Option<usize>, segs: Seq<Seq<char>>) -> Option<usize> {
    if segs.len() == 0 {
        endpoint
    } else {
        walk_at(t, 0, segs, 0, PartialState::NotStart)
    }
}

/// The node that a request path reaches: the root endpoint for the empty
/// string, otherwise the walk of its `/`-separated pieces.
pub open spec fn walk_str_spec<H, P>(t: Seq<NodeV<H, P>>, endpoint: Option<usize>, path: Seq<char>) -> Option<usize> {
    if path.len() == 0 {
        endpoint
    } else {
        root_walk(t, endpoint, split_slash(path))
    }
}

/// The literal segments of a path registered as text: none for the empty
/// string, otherwise one literal per `/`-separated piece.
pub open spec fn literal_patterns(path: Seq<char>) -> Seq<PatternV> {
    if path.len() == 0 {
        Seq::empty()
    } else {
        split_slash(path).map_values(|s: Seq<char>| PatternV::Literal(s))
    }
}

/// How many empty literal segments stand in front of a parsed route
/// pattern of `n` segments: a route text starting with `/` is split at that
/// `/` as a request path is, so its first segment is the empty piece before
/// it; a lone `/` stands for two empty pieces.
pub open spec fn lead_count(path: Seq<char>, n: int) -> nat {
    if path.len() > 0 && path[0] == '/' {
        if n == 0 {
            2
        } else {
            1
        }
    } else {
        0
    }
}

/// The segments a route text registers: its leading empty pieces, then the
/// parsed patterns `ps`.
pub open spec fn route_patterns(path: Seq<char>, ps: Seq<PatternV>) -> Seq<PatternV> {
    Seq::new(lead_count(path, ps.len() as int), |i: int| PatternV::Literal(Seq::empty())) + ps
}

/// The capture names of the registered segments: none on the leading empty
/// pieces, then the parsed names `ns` (of `n` parsed segments).
pub open spec fn route_names(path: Seq<char>, n: int, ns: Seq<Option<Seq<char>>>) -> Seq<
    Option<Seq<char>>,
> {
    Seq::new(lead_count(path, n), |i: int| None::<Seq<char>>) + ns
}

/// Puts the leading empty pieces of route text `path` in front of its
/// parsed patterns and names.
fn with_route_prefix(path: &str, ps: Vec<PathPattern>, ns: Vec<Option<String>>) -> (r: (
    Vec<PathPattern>,
    Vec<Option<String>>,
))
    ensures
        patterns_view(r.0@) == route_patterns(path@, patterns_view(ps@)),
        r.1@.map_values(|o: Option<String>| opt_view(o)) == route_names(
            path@,
            ps@.len() as int,
            ns@.map_values(|o: Option<String>| opt_view(o)),
        ),
{
    let cs = crate::text::chars_of(path);
    let k: usize = if cs.len() > 0 && cs[0] == '/' {
        if ps.len() == 0 {
            2
        } else {
            1
        }
    } else {
        0
    };
    assert(k == lead_count(path@, ps@.len() as int));
    let mut out_p: Vec<PathPattern> = Vec::new();
    let mut out_n: Vec<Option<String>> = Vec::new();
    let mut j: usize = 0;
    while j < k
        invariant
            j <= k,
            k <= 2,
            out_p@.len() == j,
            out_n@.len() == j,
            forall|i: int| 0 <= i < j ==> (#[trigger] out_p@[i])@ == PatternV::Literal(Seq::empty()),
            forall|i: int| 0 <= i < j ==> (#[trigger] out_n@[i]) is None,
        decreases k - j,
    {
        out_p.push(PathPattern::Literal(String::new()));
        out_n.push(None);
        j = j + 1;
    }
    let ghost pre_p = out_p@;
    let ghost pre_n = out_n@;
    let mut ps = ps;
    let mut ns = ns;
    let ghost ps0 = ps@;
    let ghost ns0 = ns@;
    out_p.append(&mut ps);
    out_n.append(&mut ns);
    proof {
        reveal_strlit("");
        assert(patterns_view(out_p@) =~= route_patterns(path@, patterns_view(ps0)));
        assert(out_n@.map_values(|o: Option<String>| opt_view(o)) =~= route_names(
            path@,
            ps0.len() as int,
            ns0.map_values(|o: Option<String>| opt_view(o)),
        ));
    }
    (out_p, out_n)
}

/// Registration at the root endpoint turned `t` into `t2`: the endpoint
/// is the node it was, rebound (names kept when `names` is empty), or a new
/// node; it carries the binding; the tree only grew and no other node
/// changed its handler or names.
pub open spec fn endpoint_registered<H, P>(
    t: Seq<NodeV<H, P>>,
    t2: Seq<NodeV<H, P>>,
    e: Option<usize>,
    e2: Option<usize>,
    binding: Option<H>,
    params: Map<Seq<char>, P>,
    names: Map<Seq<char>, usize>,
) -> bool {
    &&& e2 is Some
    &&& extends(t, t2)
    &&& keeps_bindings(t, t2, e2->0)
    &&& 0 < e2->0 < t2.len()
    &&& t2[e2->0 as int].handler == binding
    &&& e matches Some(old_e) ==> e2->0 == old_e && t2[old_e as int].names == (if names.len() == 0 {
        t[old_e as int].names
    } else {
        names
    }) && t2[old_e as int].params == t[old_e as int].params.union_prefer_right(params)
    &&& e is None ==> e2->0 >= t.len() && t2[e2->0 as int].names == names && t2[e2->0 as int].params
        == params
    &&& e matches Some(old_e) ==> rebound(t, t2, old_e, binding, params, names)
    &&& e is None ==> t2 == t.push(leaf_node(PatternV::Literal(Seq::empty()), binding, params, names))
}

/// Candidates of a valid child table lead to nodes of the tree.
pub proof fn lemma_candidates_valid<H, P>(t: Seq<NodeV<H, P>>, c: ChildrenV, seg: Seq<char>, st: PartialState)
    requires
        links_ok(t, c),
    ensures
        forall|k: int|
            0 <= k < c.candidates(seg, st).len() ==> 0 < (#[trigger] c.candidates(seg, st)[k]).0
                < t.len(),
{
    let from: int = match st {
        PartialState::Reg(i) => i + 1,
        _ => 0,
    };
    lemma_regex_cands_states(c.regex, seg, from);
    assert forall|k: int| 0 <= k < c.candidates(seg, st).len() implies 0 < (
    #[trigger] c.candidates(seg, st)[k]).0 < t.len() by {
        let e = c.candidates(seg, st)[k];
        match e.1 {
            PartialState::Lit => {
                assert(c.find(PatternV::Literal(seg)) == lit_find(c.literals, seg));
            },
            PartialState::Reg(j) => {
                lemma_regex_find_at(c.regex, j as int);
                assert(c.find(PatternV::Regex(c.regex[j as int].0)) == Some(c.regex[j as int].1));
            },
            PartialState::Any => {
                assert(c.find(PatternV::Any) == c.any);
            },
            PartialState::AnyPath => {
                assert(c.find(PatternV::AnyPath) == c.any_path);
            },
            _ => {},
        }
        lemma_candidate_kinds(c, seg, st, k);
    }
}

/// Each candidate carries the state of its kind.
proof fn lemma_candidate_kinds(c: ChildrenV, seg: Seq<char>, st: PartialState, k: int)
    requires
        c.wf(),
        0 <= k < c.candidates(seg, st).len(),
    ensures
        ({
            let e = c.candidates(seg, st)[k];
            &&& e.1 is Lit ==> Some(e.0) == lit_find(c.literals, seg)
            &&& e.1 matches PartialState::Reg(j) ==> j < c.regex.len() && e.0 == c.regex[j as int].1
            &&& e.1 is Any ==> Some(e.0) == c.any
            &&& e.1 is AnyPath ==> Some(e.0) == c.any_path
            &&& !(e.1 is NotStart) && !(e.1 is End)
        }),
{
    let from: int = match st {
        PartialState::Reg(i) => i + 1,
        _ => 0,
    };
    lemma_regex_cands_states(c.regex, seg, from);
    let lp = crate::url::node::children::opt_cand(lit_find(c.literals, seg), PartialState::Lit);
    let rc = crate::url::node::children::regex_cands(c.regex, seg, from);
    let ta = crate::url::node::children::opt_cand(c.any, PartialState::Any);
    let tp = crate::url::node::children::opt_cand(c.any_path, PartialState::AnyPath);
    let cs = c.candidates(seg, st);
    match st {
        PartialState::NotStart => {
            assert(cs =~= lp + rc + ta + tp);
            let a = lp.len() as int;
            let b = a + rc.len();
            let d = b + ta.len();
            if k < a {
            } else if k < b {
                assert(cs[k] == rc[k - a]);
            } else if k < d {
                assert(cs[k] == ta[k - b]);
            } else {
                assert(cs[k] == tp[k - d]);
            }
        },
        PartialState::Lit | PartialState::Reg(_) => {
            assert(cs =~= rc + ta + tp);
            let b = rc.len() as int;
            let d = b + ta.len();
            if k < b {
                assert(cs[k] == rc[k]);
            } else if k < d {
                assert(cs[k] == ta[k - b]);
            } else {
                assert(cs[k] == tp[k - d]);
            }
        },
        _ => {},
    }
}

/// The route tree. Index 0 holds the segmentless root dispatch table; the
/// root endpoint, when present, is the node for the empty path.
pub struct UrlRoot<H, P> {
    nodes: Vec<UrlNode<H, P>>,
    endpoint: Option<usize>,
}

/// Outcome of a registration: the root endpoint (empty path) or a node.
#[derive(Clone, Copy, Debug, PartialEq, Eq, Structural)]
pub enum UrlRegistration {
    Root,
    Node(usize),
}

impl<H, P> UrlRoot<H, P> {
    /// The nodes in mathematical form, by index.
    pub closed spec fn tree(self) -> Seq<NodeV<H, P>> {
        self.nodes@.map_values(|n: UrlNode<H, P>| n@)
    }

    /// The node for the empty path, if one was registered.
    pub closed spec fn root_endpoint(self) -> Option<usize> {
        self.endpoint
    }

    /// Well-formedness: a valid tree whose nodes are well formed, and an
    /// endpoint that is a node other than the root table.
    pub closed spec fn wf(self) -> bool {
        &&& tree_wf(self.tree())
        &&& forall|i: int| 0 <= i < self.nodes@.len() ==> (#[trigger] self.nodes@[i]).wf()
        &&& self.endpoint matches Some(e) ==> 0 < e < self.nodes@.len()
    }

    /// An empty tree: a root table without children and no endpoint.
    pub fn new() -> (r: UrlRoot<H, P>)
        ensures
            r.wf(),
            r.tree().len() == 1,
            r.tree()[0].children.literals.len() == 0,
            r.tree()[0].children.regex.len() == 0,
            r.tree()[0].children.any is None,
            r.tree()[0].children.any_path is None,
            r.root_endpoint() is None,
    {
        let mut nodes: Vec<UrlNode<H, P>> = Vec::new();
        nodes.push(UrlNode::empty(PathPattern::literal_path("")));
        let r = UrlRoot { nodes, endpoint: None };
        proof {
            let t = r.tree();
            assert(t[0] == nodes@[0]@);
            assert forall|q: PatternV| #[trigger] t[0].children.find(q) is None by {}
        }
        r
    }

    /// The number of nodes, the root table included.
    pub fn len(&self) -> (n: usize)
        ensures
            n == self.tree().len(),
    {
        self.nodes.len()
    }

    /// The node at index `id`.
    pub fn node(&self, id: usize) -> (r: &UrlNode<H, P>)
        requires
            self.wf(),
            id < self.tree().len(),
        ensures
            r@ == self.tree()[id as int],
            r.wf(),
    {
        &self.nodes[id]
    }

    /// The child table of the root.
    pub fn children_ref(&self) -> (r: &crate::url::node::children::Children)
        requires
            self.wf(),
        ensures
            r@ == self.tree()[0].children,
    {
        self.nodes[0].children()
    }

    /// The child table that a cursor frame iterates: the root table or the
    /// table of its node.
    pub fn frame_children(&self, node: crate::url::node::cursor::FrameNode) -> (r: &crate::url::node::children::Children)
        requires
            self.wf(),
            node matches crate::url::node::cursor::FrameNode::Node(id) ==> id < self.tree().len(),
        ensures
            r@ == self.tree()[match node {
                crate::url::node::cursor::FrameNode::Root => 0int,
                crate::url::node::cursor::FrameNode::Node(id) => id as int,
            }].children,
    {
        match node {
            crate::url::node::cursor::FrameNode::Root => self.nodes[0].children(),
            crate::url::node::cursor::FrameNode::Node(id) => self.nodes[id].children(),
        }
    }

    /// The node for the empty path.
    pub fn endpoint(&self) -> (r: Option<usize>)
        ensures
            r == self.root_endpoint(),
    {
        self.endpoint
    }

    /// Whether the root endpoint carries a handler.
    pub fn has_handler(&self) -> (r: bool)
        requires
            self.wf(),
        ensures
            r == (self.root_endpoint() matches Some(e) && self.tree()[e as int].handler is Some),
    {
        match self.endpoint {
            Some(e) => self.nodes[e].has_handler(),
            None => false,
        }
    }


    /// Appends a node without children; returns its index.
    fn add_node(&mut self, node: UrlNode<H, P>) -> (id: usize)
        requires
            old(self).wf(),
            node.wf(),
            node@.children.literals.len() == 0,
            node@.children.regex.len() == 0,
            node@.children.any is None,
            node@.children.any_path is None,
        ensures
            final(self).wf(),
            final(self).tree() == old(self).tree().push(node@),
            id == old(self).tree().len(),
            final(self).root_endpoint() == old(self).root_endpoint(),
    {
        let ghost t = self.tree();
        let ghost nv = node@;
        let id = self.nodes.len();
        self.nodes.push(node);
        proof {
            let t2 = self.tree();
            assert(t2 =~= t.push(nv));
            assert forall|i: int| 0 <= i < t2.len() implies links_ok(t2, #[trigger] t2[i].children) by {
                if i < t.len() {
                    assert(t2[i] == t[i]);
                    assert(links_ok(t, t[i].children));
                    assert forall|q: PatternV| #[trigger] t2[i].children.find(q) is Some implies 0
                        < t2[i].children.find(q)->0 < t2.len() && t2[t2[i].children.find(q)->0 as int].path == q by {
                        assert(t[i].children.find(q) is Some ==> 0 < t[i].children.find(q)->0 < t.len());
                    }
                } else {
                    assert(t2[i] == nv);
                    assert forall|q: PatternV| #[trigger] nv.children.find(q) is None by {}
                }
            }
            assert forall|i: int| 0 <= i < self.nodes@.len() implies (#[trigger] self.nodes@[i]).wf() by {
                if i < t.len() {
                    assert(self.nodes@[i] == old(self).nodes@[i]);
                }
            }
        }
        id
    }

    /// Links node `child` into the child table of `parent` under the
    /// child's own pattern, replacing what was linked under that pattern.
    pub fn insert_child(&mut self, parent: usize, child: usize)
        requires
            old(self).wf(),
            parent < old(self).tree().len(),
            0 < child < old(self).tree().len(),
        ensures
            final(self).wf(),
            final(self).tree().len() == old(self).tree().len(),
            forall|i: int| 0 <= i < old(self).tree().len() && i != parent ==> #[trigger] final(self).tree()[i] == old(self).tree()[i],
            final(self).tree()[parent as int].path == old(self).tree()[parent as int].path,
            final(self).tree()[parent as int].handler == old(self).tree()[parent as int].handler,
            final(self).tree()[parent as int].names == old(self).tree()[parent as int].names,
            forall|q: PatternV| #[trigger] final(self).tree()[parent as int].children.find(q) == if q == old(self).tree()[child as int].path {
                Some(child)
            } else {
                old(self).tree()[parent as int].children.find(q)
            },
            relinked(old(self).tree(), final(self).tree(), parent, old(self).tree()[child as int].path, child),
            final(self).root_endpoint() == old(self).root_endpoint(),
    {
        let ghost t = self.tree();
        let p = self.nodes[child].path().duplicate();
        assert(self.nodes@[parent as int].wf());
        self.nodes[parent].link_child(&p, child);
        proof {
            let t2 = self.tree();
            assert forall|i: int| 0 <= i < t.len() && i != parent implies #[trigger] t2[i] == t[i] by {
                assert(self.nodes@[i] == old(self).nodes@[i]);
            }
            assert forall|i: int| 0 <= i < t2.len() implies t2[i].path == t[i].path by {
                if i != parent {
                    assert(t2[i] == t[i]);
                }
            }
            assert forall|i: int| 0 <= i < t2.len() implies links_ok(t2, #[trigger] t2[i].children) by {
                assert(links_ok(t, t[i].children));
                assert forall|q: PatternV| #[trigger] t2[i].children.find(q) is Some implies 0
                    < t2[i].children.find(q)->0 < t2.len() && t2[t2[i].children.find(q)->0 as int].path == q by {
                    if i != parent {
                        assert(t2[i] == t[i]);
                        assert(t[i].children.find(q) is Some ==> 0 < t[i].children.find(q)->0 < t.len());
                    } else if q != t[child as int].path {
                        assert(t[i].children.find(q) is Some ==> 0 < t[i].children.find(q)->0 < t.len());
                    }
                }
            }
            assert forall|i: int| 0 <= i < self.nodes@.len() implies (#[trigger] self.nodes@[i]).wf() by {
                if i != parent {
                    assert(self.nodes@[i] == old(self).nodes@[i]);
                }
            }
            assert(t2[parent as int] == self.nodes@[parent as int]@);
            assert(t[parent as int] == old(self).nodes@[parent as int]@);
            assert(self.nodes@[parent as int].wf());
            assert(child_added(t[parent as int].children, t2[parent as int].children, t[child as int].path, child));
        }
    }


    /// The child of node `parent` registered under exactly `pattern`.
    pub fn find_child(&self, parent: usize, pattern: &PathPattern) -> (r: Option<usize>)
        requires
            self.wf(),
            parent < self.tree().len(),
        ensures
            r == self.tree()[parent as int].children.find(pattern@),
    {
        self.nodes[parent].find_child(pattern)
    }

    /// Removes the child of node `parent` registered under exactly
    /// `pattern`; the node stays in the tree, unreachable through `parent`.
    pub fn remove_child(&mut self, parent: usize, pattern: &PathPattern) -> (r: Option<usize>)
        requires
            old(self).wf(),
            parent < old(self).tree().len(),
        ensures
            final(self).wf(),
            r == old(self).tree()[parent as int].children.find(pattern@),
            final(self).tree().len() == old(self).tree().len(),
            forall|i: int| 0 <= i < old(self).tree().len() && i != parent ==> #[trigger] final(self).tree()[i] == old(self).tree()[i],
            forall|q: PatternV| #[trigger] final(self).tree()[parent as int].children.find(q) == if q == pattern@ {
                None
            } else {
                old(self).tree()[parent as int].children.find(q)
            },
            final(self).root_endpoint() == old(self).root_endpoint(),
    {
        let ghost t = self.tree();
        assert(self.nodes@[parent as int].wf());
        let r = self.nodes[parent].unlink_child(pattern);
        proof {
            let t2 = self.tree();
            assert forall|i: int| 0 <= i < t.len() && i != parent implies #[trigger] t2[i] == t[i] by {
                assert(self.nodes@[i] == old(self).nodes@[i]);
            }
            assert forall|i: int| 0 <= i < t2.len() implies links_ok(t2, #[trigger] t2[i].children) by {
                assert(links_ok(t, t[i].children));
                assert forall|q: PatternV| #[trigger] t2[i].children.find(q) is Some implies 0
                    < t2[i].children.find(q)->0 < t2.len() && t2[t2[i].children.find(q)->0 as int].path == q by {
                    if i != parent {
                        assert(t2[i] == t[i]);
                    }
                    assert(t[i].children.find(q) is Some ==> 0 < t[i].children.find(q)->0 < t.len());
                    let c = t2[i].children.find(q)->0;
                    if c != parent {
                        assert(t2[c as int] == t[c as int]);
                    }
                }
            }
            assert forall|i: int| 0 <= i < self.nodes@.len() implies (#[trigger] self.nodes@[i]).wf() by {
                if i != parent {
                    assert(self.nodes@[i] == old(self).nodes@[i]);
                }
            }
        }
        r
    }

    /// Replaces the handler of node `id` and merges `params` over its route
    /// parameters (a key in both takes the new value); replaces its capture
    /// names unless `names` is empty.
    pub fn rebind(&mut self, id: usize, binding: Option<H>, params: StrMap<P>, names: StepName)
        requires
            old(self).wf(),
            0 < id < old(self).tree().len(),
            names.wf(),
            params.wf(),
        ensures
            final(self).wf(),
            final(self).tree().len() == old(self).tree().len(),
            forall|i: int| 0 <= i < old(self).tree().len() && i != id ==> #[trigger] final(self).tree()[i] == old(self).tree()[i],
            final(self).tree()[id as int].path == old(self).tree()[id as int].path,
            final(self).tree()[id as int].children == old(self).tree()[id as int].children,
            final(self).tree()[id as int].handler == binding,
            final(self).tree()[id as int].names == (if names@.len() == 0 {
                old(self).tree()[id as int].names
            } else {
                names@
            }),
            rebound(old(self).tree(), final(self).tree(), id, binding, params.view_map(), names@),
            final(self).root_endpoint() == old(self).root_endpoint(),
    {
        let ghost t = self.tree();
        assert(self.nodes@[id as int].wf());
        self.nodes[id].rebind(binding, params, names);
        proof {
            let t2 = self.tree();
            assert forall|i: int| 0 <= i < t.len() && i != id implies #[trigger] t2[i] == t[i] by {
                assert(self.nodes@[i] == old(self).nodes@[i]);
            }
            assert forall|i: int| 0 <= i < t2.len() implies links_ok(t2, #[trigger] t2[i].children) by {
                assert(links_ok(t, t[i].children));
                assert forall|q: PatternV| #[trigger] t2[i].children.find(q) is Some implies 0
                    < t2[i].children.find(q)->0 < t2.len() && t2[t2[i].children.find(q)->0 as int].path == q by {
                    if i != id {
                        assert(t2[i] == t[i]);
                    }
                    assert(t[i].children.find(q) is Some ==> 0 < t[i].children.find(q)->0 < t.len());
                    let c = t2[i].children.find(q)->0;
                    if c != id {
                        assert(t2[c as int] == t[c as int]);
                    }
                }
            }
            assert forall|i: int| 0 <= i < self.nodes@.len() implies (#[trigger] self.nodes@[i]).wf() by {
                if i != id {
                    assert(self.nodes@[i] == old(self).nodes@[i]);
                }
            }
        }
    }

    /// Sets the route parameter `key` of node `id` to `value`; nothing else
    /// changes.
    pub fn set_params(&mut self, id: usize, key: &str, value: P)
        requires
            old(self).wf(),
            id < old(self).tree().len(),
        ensures
            final(self).wf(),
            final(self).tree() == old(self).tree().update(
                id as int,
                NodeV { params: old(self).tree()[id as int].params.insert(key@, value), ..old(self).tree()[id as int] },
            ),
            final(self).root_endpoint() == old(self).root_endpoint(),
    {
        let ghost t = self.tree();
        assert(self.nodes@[id as int].wf());
        self.nodes[id].set_params(key, value);
        proof {
            let t2 = self.tree();
            assert forall|i: int| 0 <= i < t.len() && i != id implies #[trigger] t2[i] == t[i] by {
                assert(self.nodes@[i] == old(self).nodes@[i]);
            }
            assert(t2 =~= t.update(id as int, NodeV { params: t[id as int].params.insert(key@, value), ..t[id as int] }));
            assert forall|i: int| 0 <= i < t2.len() implies links_ok(t2, #[trigger] t2[i].children) by {
                assert(links_ok(t, t[i].children));
                assert forall|q: PatternV| #[trigger] t2[i].children.find(q) is Some implies 0
                    < t2[i].children.find(q)->0 < t2.len() && t2[t2[i].children.find(q)->0 as int].path == q by {
                    assert(t[i].children.find(q) is Some ==> 0 < t[i].children.find(q)->0 < t.len());
                }
            }
            assert forall|i: int| 0 <= i < self.nodes@.len() implies (#[trigger] self.nodes@[i]).wf() by {
                if i != id {
                    assert(self.nodes@[i] == old(self).nodes@[i]);
                }
            }
        }
    }

    /// The child of `parent` under `pattern`, created empty and linked when
    /// there is none.
    pub fn get_child_or_create(&mut self, parent: usize, pattern: PathPattern) -> (r: usize)
        requires
            old(self).wf(),
            parent < old(self).tree().len(),
        ensures
            final(self).wf(),
            extends(old(self).tree(), final(self).tree()),
            keeps_bindings(old(self).tree(), final(self).tree(), r),
            0 < r < final(self).tree().len(),
            final(self).tree()[parent as int].children.find(pattern@) == Some(r),
            final(self).tree()[r as int].path == pattern@,
            old(self).tree()[parent as int].children.find(pattern@) matches Some(c) ==> r == c
                && final(self).tree() == old(self).tree(),
            old(self).tree()[parent as int].children.find(pattern@) is None ==> r == old(
                self,
            ).tree().len() && final(self).tree()[r as int].handler is None
                && final(self).tree()[r as int].names == Map::<Seq<char>, usize>::empty()
                && forall|q: PatternV| #[trigger] final(self).tree()[r as int].children.find(q) is None,
            old(self).tree()[parent as int].children.find(pattern@) is None ==> linked_fresh(
                old(self).tree(),
                final(self).tree(),
                parent,
                pattern@,
            ),
            final(self).root_endpoint() == old(self).root_endpoint(),
    {
        let ghost t = self.tree();
        match self.nodes[parent].find_child(&pattern) {
            Some(c) => {
                assert(links_ok(t, t[parent as int].children));
                c
            },
            None => {
                let ghost pv = pattern@;
                let fresh: UrlNode<H, P> = UrlNode::empty(pattern);
                proof {
                    assert(fresh@.children.literals =~= Seq::<(Seq<char>, usize)>::empty());
                    assert(fresh@.children.regex =~= Seq::<(Seq<char>, usize)>::empty());
                    assert(fresh@.children == no_children());
                    assert(fresh@ == leaf_node::<H, P>(pv, None, Map::empty(), Map::empty()));
                }
                let id = self.add_node(fresh);
                let ghost t1 = self.tree();
                self.insert_child(parent, id);
                proof {
                    let t2 = self.tree();
                    assert(t1[parent as int] == t[parent as int]);
                    assert forall|i: int, q: PatternV|
                        0 <= i < t.len() && (#[trigger] t[i].children.find(q)) is Some implies t2[i].children.find(
                            q,
                        ) == t[i].children.find(q) by {
                        assert(t1[i] == t[i]);
                        if i != parent {
                            assert(t2[i] == t1[i]);
                        }
                    }
                    assert forall|i: int| 0 <= i < t.len() implies (#[trigger] t2[i]).path == t[i].path by {
                        assert(t1[i] == t[i]);
                        if i != parent {
                            assert(t2[i] == t1[i]);
                        }
                    }
                    assert forall|i: int| 0 <= i < t.len() && i != id implies (#[trigger] t2[i]).handler
                        == t[i].handler && t2[i].names == t[i].names by {
                        assert(t1[i] == t[i]);
                        if i != parent {
                            assert(t2[i] == t1[i]);
                        }
                    }
                    assert(t2[id as int] == t1[id as int]);
                    assert forall|q: PatternV| #[trigger] t2[id as int].children.find(q) is None by {}
                }
                id
            },
        }
    }


    /// Registers `binding`, route parameters `params` and `names` at the
    /// node that `path` reaches from node `id`, creating the missing nodes on
    /// the way. A node that exists already is rebound: it gets the new
    /// handler, `params` merged over its parameters, and the new names unless
    /// `names` is empty, and keeps its children.
    pub fn register_relative(
        &mut self,
        id: usize,
        path: &[PathPattern],
        binding: Option<H>,
        params: StrMap<P>,
        names: StepName,
    ) -> (r: Result<usize, UrlError>)
        requires
            old(self).wf(),
            id < old(self).tree().len(),
            names.wf(),
            params.wf(),
        ensures
            final(self).wf(),
            final(self).root_endpoint() == old(self).root_endpoint(),
            path@.len() == 0 ==> final(self).tree() == old(self).tree() && (r matches Err(
                UrlError::InvalidPath(m),
            ) && m@ == "register_relative requires at least one segment"@),
            path@.len() > 0 ==> (r matches Ok(n) && registered(
                old(self).tree(),
                final(self).tree(),
                id,
                patterns_view(path@),
                n,
                binding,
                params.view_map(),
                names@,
            ) && grown_to(old(self).tree(), final(self).tree(), id, patterns_view(path@), n, binding, params.view_map(), names@)),
    {
        assert(patterns_view(path@).skip(0) =~= patterns_view(path@));
        self.register_from(id, path, 0, binding, params, names)
    }

    /// Registration along `path[k..]`; see [`UrlRoot::register_relative`].
    fn register_from(
        &mut self,
        id: usize,
        path: &[PathPattern],
        k: usize,
        binding: Option<H>,
        params: StrMap<P>,
        names: StepName,
    ) -> (r: Result<usize, UrlError>)
        requires
            old(self).wf(),
            id < old(self).tree().len(),
            names.wf(),
            params.wf(),
            k <= path@.len(),
        ensures
            final(self).wf(),
            final(self).root_endpoint() == old(self).root_endpoint(),
            k == path@.len() ==> final(self).tree() == old(self).tree() && (r matches Err(
                UrlError::InvalidPath(m),
            ) && m@ == "register_relative requires at least one segment"@),
            k < path@.len() ==> (r matches Ok(n) && registered(
                old(self).tree(),
                final(self).tree(),
                id,
                patterns_view(path@).skip(k as int),
                n,
                binding,
                params.view_map(),
                names@,
            ) && grown_to(
                old(self).tree(),
                final(self).tree(),
                id,
                patterns_view(path@).skip(k as int),
                n,
                binding,
                params.view_map(),
                names@,
            )),
        decreases path@.len() - k,
    {
        if k >= path.len() {
            proof {
                reveal_strlit("register_relative requires at least one segment");
            }
            return Err(
                UrlError::InvalidPath("register_relative requires at least one segment".to_string()),
            );
        }
        let ghost t = self.tree();
        let ghost ps = patterns_view(path@).skip(k as int);
        assert(ps[0] == path@[k as int]@);
        if k + 1 == path.len() {
            let pattern = &path[k];
            match self.nodes[id].find_child(pattern) {
                Some(existing) => {
                    assert(links_ok(t, t[id as int].children));
                    self.rebind(existing, binding, params, names);
                    let ghost t1 = self.tree();
                    self.insert_child(id, existing);
                    proof {
                        let t2 = self.tree();
                        let p = ps[0];
                        assert(t[existing as int].path == p);
                        assert(t1[id as int].children == t[id as int].children);
                        assert forall|i: int, q: PatternV|
                            0 <= i < t.len() && (#[trigger] t[i].children.find(q)) is Some implies t2[i].children.find(
                                q,
                            ) == t[i].children.find(q) by {
                            if i != existing {
                                assert(t1[i] == t[i]);
                            }
                            if i != id {
                                assert(t2[i] == t1[i]);
                            }
                        }
                        assert forall|i: int| 0 <= i < t.len() implies (#[trigger] t2[i]).path == t[i].path by {
                            if i != existing {
                                assert(t1[i] == t[i]);
                            }
                            if i != id {
                                assert(t2[i] == t1[i]);
                            }
                        }
                        assert forall|i: int| 0 <= i < t.len() && i != existing implies (#[trigger] t2[i]).handler
                            == t[i].handler && t2[i].names == t[i].names by {
                            assert(t1[i] == t[i]);
                            if i != id {
                                assert(t2[i] == t1[i]);
                            }
                        }
                        if existing != id {
                            assert(t2[existing as int] == t1[existing as int]);
                        }
                        assert(ps.drop_first() =~= Seq::<PatternV>::empty());
                        assert(find_path(t2, existing, ps.drop_first()) == Some(existing));
                        assert(find_path(t, existing, ps.drop_first()) == Some(existing));
                        assert(t1[existing as int].path == p);
                        assert(rebound(t, t1, existing, binding, params.view_map(), names@) && relinked(t1, t2, id, ps[0], existing));
                        assert(grown_to(t, t2, id, ps, existing, binding, params.view_map(), names@));
                    }
                    Ok(existing)
                },
                None => {
                    let ghost nv = names@;
                    let ghost pmv = params.view_map();
                    let fresh = UrlNode::new(pattern.duplicate(), binding, params, names);
                    proof {
                        assert(fresh@.children.literals =~= Seq::<(Seq<char>, usize)>::empty());
                        assert(fresh@.children.regex =~= Seq::<(Seq<char>, usize)>::empty());
                        assert(fresh@.children == no_children());
                        assert(fresh@ == leaf_node(ps[0], binding, pmv, nv));
                    }
                    let n = self.add_node(fresh);
                    let ghost t1 = self.tree();
                    self.insert_child(id, n);
                    proof {
                        let t2 = self.tree();
                        assert(t1[id as int] == t[id as int]);
                        assert forall|i: int, q: PatternV|
                            0 <= i < t.len() && (#[trigger] t[i].children.find(q)) is Some implies t2[i].children.find(
                                q,
                            ) == t[i].children.find(q) by {
                            assert(t1[i] == t[i]);
                            if i != id {
                                assert(t2[i] == t1[i]);
                            }
                        }
                        assert forall|i: int| 0 <= i < t.len() implies (#[trigger] t2[i]).path == t[i].path by {
                            assert(t1[i] == t[i]);
                            if i != id {
                                assert(t2[i] == t1[i]);
                            }
                        }
                        assert forall|i: int| 0 <= i < t.len() && i != n implies (#[trigger] t2[i]).handler
                            == t[i].handler && t2[i].names == t[i].names by {
                            assert(t1[i] == t[i]);
                            if i != id {
                                assert(t2[i] == t1[i]);
                            }
                        }
                        assert(t2[n as int] == t1[n as int]);
                        assert(ps.drop_first() =~= Seq::<PatternV>::empty());
                        assert(find_path(t2, n, ps.drop_first()) == Some(n));
                        assert(find_path(t, id, ps) is None);
                        assert(t1 == t.push(leaf_node(ps[0], binding, params.view_map(), names@)));
                        assert(grown_to(t, t2, id, ps, n, binding, params.view_map(), names@));
                    }
                    Ok(n)
                },
            }
        } else {
            let child = self.get_child_or_create(id, path[k].duplicate());
            let ghost t1 = self.tree();
            let r = self.register_from(child, path, k + 1, binding, params, names);
            proof {
                let t2 = self.tree();
                let n = r->Ok_0;
                assert(patterns_view(path@).skip(k + 1) =~= ps.drop_first());
                lemma_extends_trans(t, t1, t2);
                assert(t1[id as int].children.find(ps[0]) == Some(child));
                assert(t2[id as int].children.find(ps[0]) == Some(child));
                assert(find_path(t2, id, ps) == find_path(t2, child, ps.drop_first()));
                match t[id as int].children.find(ps[0]) {
                    Some(c) => {
                        assert(t1 == t);
                        assert(find_path(t, id, ps) == find_path(t, child, ps.drop_first()));
                        assert(grown_to(t, t2, id, ps, n, binding, params.view_map(), names@));
                    },
                    None => {
                        assert(find_path(t, id, ps) is None);
                        lemma_fresh_path(t1, child, ps.drop_first());
                        assert(n >= t.len());
                        assert(linked_fresh(t, t1, id, ps[0]) && grown_to(
                            t1,
                            t2,
                            t.len() as usize,
                            ps.drop_first(),
                            n,
                            binding,
                            params.view_map(),
                            names@,
                        ));
                        assert(grown_to(t, t2, id, ps, n, binding, params.view_map(), names@));
                    },
                }
                assert forall|i: int| 0 <= i < t.len() && i != n implies (#[trigger] t2[i]).handler
                    == t[i].handler && t2[i].names == t[i].names by {
                    assert(t1[i].handler == t[i].handler && t1[i].names == t[i].names);
                }
            }
            r
        }
    }


    /// Registers `binding`, route parameters `params` and `names` at `path`.
    /// The empty path is the
    /// root endpoint; any other path is registered from the root table as
    /// [`UrlRoot::register_relative`] does.
    pub fn register(&mut self, path: Vec<PathPattern>, binding: Option<H>, params: StrMap<P>, names: StepName) -> (r:
        Result<UrlRegistration, UrlError>)
        requires
            old(self).wf(),
            names.wf(),
            params.wf(),
        ensures
            final(self).wf(),
            path@.len() == 0 ==> r == Ok::<UrlRegistration, UrlError>(UrlRegistration::Root)
                && endpoint_registered(
                old(self).tree(),
                final(self).tree(),
                old(self).root_endpoint(),
                final(self).root_endpoint(),
                binding,
                params.view_map(),
                names@,
            ),
            path@.len() > 0 ==> final(self).root_endpoint() == old(self).root_endpoint() && (r matches Ok(
                UrlRegistration::Node(n),
            ) && registered(
                old(self).tree(),
                final(self).tree(),
                0,
                patterns_view(path@),
                n,
                binding,
                params.view_map(),
                names@,
            ) && grown_to(old(self).tree(), final(self).tree(), 0, patterns_view(path@), n, binding, params.view_map(), names@)),
    {
        if path.len() == 0 {
            let ghost t = self.tree();
            match self.endpoint {
                Some(e) => {
                    self.rebind(e, binding, params, names);
                    proof {
                        let t2 = self.tree();
                        assert forall|i: int, q: PatternV|
                            0 <= i < t.len() && (#[trigger] t[i].children.find(q)) is Some implies t2[i].children.find(
                                q,
                            ) == t[i].children.find(q) by {
                            if i != e {
                                assert(t2[i] == t[i]);
                            }
                        }
                        assert forall|i: int| 0 <= i < t.len() implies (#[trigger] t2[i]).path == t[i].path by {
                            if i != e {
                                assert(t2[i] == t[i]);
                            }
                        }
                        assert forall|i: int| 0 <= i < t.len() && i != e implies (#[trigger] t2[i]).handler
                            == t[i].handler && t2[i].names == t[i].names by {
                            assert(t2[i] == t[i]);
                        }
                    }
                },
                None => {
                    let ghost nv = names@;
                    let ghost pmv = params.view_map();
                    let fresh = UrlNode::new(PathPattern::Literal(String::new()), binding, params, names);
                    proof {
                        assert(fresh@.children.literals =~= Seq::<(Seq<char>, usize)>::empty());
                        assert(fresh@.children.regex =~= Seq::<(Seq<char>, usize)>::empty());
                        assert(fresh@.children == no_children());
                        assert(fresh@ == leaf_node(PatternV::Literal(Seq::empty()), binding, pmv, nv));
                    }
                    let e = self.add_node(fresh);
                    self.endpoint = Some(e);
                    proof {
                        let t2 = self.tree();
                        assert forall|i: int, q: PatternV|
                            0 <= i < t.len() && (#[trigger] t[i].children.find(q)) is Some implies t2[i].children.find(
                                q,
                            ) == t[i].children.find(q) by {
                            assert(t2[i] == t[i]);
                        }
                        assert forall|i: int| 0 <= i < t.len() implies (#[trigger] t2[i]).path == t[i].path by {
                            assert(t2[i] == t[i]);
                        }
                        assert forall|i: int| 0 <= i < t.len() && i != e implies (#[trigger] t2[i]).handler
                            == t[i].handler && t2[i].names == t[i].names by {
                            assert(t2[i] == t[i]);
                        }
                    }
                },
            }
            return Ok(UrlRegistration::Root);
        }
        match self.register_relative(0, path.as_slice(), binding, params, names) {
            Ok(n) => Ok(UrlRegistration::Node(n)),
            Err(e) => Err(e),
        }
    }

    /// Registers a literal path: the empty string is the root endpoint;
    /// any other path is split at every `/`, empty pieces included, and each
    /// piece is a literal segment (so `"/"` is two empty segments). The
    /// route parameters are registered as [`UrlRoot::register`] does.
    pub fn literal_url(&mut self, path: &str, binding: Option<H>, params: StrMap<P>) -> (r: Result<UrlRegistration, UrlError>)
        requires
            old(self).wf(),
            params.wf(),
        ensures
            final(self).wf(),
            path@.len() == 0 ==> r == Ok::<UrlRegistration, UrlError>(UrlRegistration::Root)
                && endpoint_registered(
                old(self).tree(),
                final(self).tree(),
                old(self).root_endpoint(),
                final(self).root_endpoint(),
                binding,
                params.view_map(),
                Map::empty(),
            ),
            path@.len() > 0 ==> final(self).root_endpoint() == old(self).root_endpoint() && (r matches Ok(
                UrlRegistration::Node(n),
            ) && registered(
                old(self).tree(),
                final(self).tree(),
                0,
                literal_patterns(path@),
                n,
                binding,
                params.view_map(),
                Map::empty(),
            ) && grown_to(old(self).tree(), final(self).tree(), 0, literal_patterns(path@), n, binding, params.view_map(), Map::empty())),
    {
        let mut pats: Vec<PathPattern> = Vec::new();
        if !path.is_empty() {
            let segs = split_path(path);
            let ghost sv = strs_view(segs@);
            let mut k: usize = 0;
            while k < segs.len()
                invariant
                    sv == strs_view(segs@),
                    k <= segs@.len(),
                    patterns_view(pats@) == sv.take(k as int).map_values(|s: Seq<char>| PatternV::Literal(s)),
                decreases segs.len() - k,
            {
                assert(sv[k as int] == segs@[k as int]@);
                let ghost before = patterns_view(pats@);
                pats.push(PathPattern::literal_path(segs[k].as_str()));
                assert(patterns_view(pats@) =~= before.push(PatternV::Literal(sv[k as int])));
                assert(sv.take(k + 1).map_values(|s: Seq<char>| PatternV::Literal(s)) =~= sv.take(
                    k as int,
                ).map_values(|s: Seq<char>| PatternV::Literal(s)).push(PatternV::Literal(sv[k as int])));
                k = k + 1;
            }
            assert(sv.take(k as int) =~= sv);
            proof {
                crate::url::split::lemma_split_join(path@);
            }
            assert(patterns_view(pats@) == literal_patterns(path@));
            assert(pats@.len() > 0);
        } else {
            assert(patterns_view(pats@) =~= Seq::<PatternV>::empty());
        }
        self.register(pats, binding, params, StepName::new())
    }

    /// Registers a route pattern (literals, `<name>`, `<type:name>`,
    /// `<regex>`, `<**path>`): the pattern is parsed and registered with its
    /// capture names. A pattern starting with `/` is split there as a
    /// request path is: an empty literal segment comes first (two for a lone
    /// `/`), and the capture indexes count it. A pattern that does not parse
    /// is refused with its message and the tree is unchanged.
    pub fn sub_url(&mut self, path: &str, binding: Option<H>, params: StrMap<P>) -> (r: Result<UrlRegistration, UrlError>)
        requires
            old(self).wf(),
            params.wf(),
        ensures
            final(self).wf(),
            patterns_of(lex(path@)) is Err ==> final(self).tree() == old(self).tree()
                && final(self).root_endpoint() == old(self).root_endpoint() && (r matches Err(
                UrlError::ParseError(m),
            ) && m@ == pattern_error_message(patterns_of(lex(path@))->Err_0)),
            patterns_of(lex(path@)) matches Ok((ps, ns)) ==> (route_patterns(path@, ps).len() == 0
                ==> r == Ok::<UrlRegistration, UrlError>(UrlRegistration::Root) && endpoint_registered(
                old(self).tree(),
                final(self).tree(),
                old(self).root_endpoint(),
                final(self).root_endpoint(),
                binding,
                params.view_map(),
                names_map(route_names(path@, ps.len() as int, ns)),
            )) && (route_patterns(path@, ps).len() > 0 ==> final(self).root_endpoint() == old(
                self,
            ).root_endpoint() && (r matches Ok(UrlRegistration::Node(n)) && registered(
                old(self).tree(),
                final(self).tree(),
                0,
                route_patterns(path@, ps),
                n,
                binding,
                params.view_map(),
                names_map(route_names(path@, ps.len() as int, ns)),
            ) && grown_to(
                old(self).tree(),
                final(self).tree(),
                0,
                route_patterns(path@, ps),
                n,
                binding,
                params.view_map(),
                names_map(route_names(path@, ps.len() as int, ns)),
            ))),
    {
        match parse(path) {
            Ok((ps, ns)) => {
                let ghost pv = patterns_view(ps@);
                let ghost nv = names_view(ns@);
                let ghost n = ps@.len();
                proof {
                    assert(ns@.map_values(|o: Option<String>| opt_view(o)) =~= nv);
                }
                let (ps2, ns2) = with_route_prefix(path, ps, ns);
                let names = StepName::from_names(ns2);
                proof {
                    assert(ns2@.map_values(|o: Option<String>| opt_view(o)) =~= names_view(ns2@));
                }
                self.register(ps2, binding, params, names)
            },
            Err(e) => Err(UrlError::ParseError(e.message())),
        }
    }

    /// The node that `segs` reach: the root endpoint for no segments,
    /// otherwise the walk from the root table.
    pub fn walk(&self, segs: &[String]) -> (r: Option<usize>)
        requires
            self.wf(),
        ensures
            r == root_walk(self.tree(), self.root_endpoint(), strs_view(segs@)),
            r matches Some(n) ==> n < self.tree().len(),
    {
        if segs.len() == 0 {
            return self.endpoint;
        }
        self.walk_from(0, segs, 0, PartialState::NotStart)
    }

    /// [`UrlRoot::walk`], refusing more than `max_depth` segments.
    pub fn walk_with_limit(&self, segs: &[String], max_depth: u32) -> (r: Option<usize>)
        requires
            self.wf(),
        ensures
            r == (if segs@.len() > max_depth {
                None
            } else {
                root_walk(self.tree(), self.root_endpoint(), strs_view(segs@))
            }),
    {
        if segs.len() > max_depth as usize {
            return None;
        }
        self.walk(segs)
    }

    /// The node that a request path reaches: the root endpoint for the
    /// empty string; otherwise the path is split at every `/`, empty pieces
    /// included, and walked from the root table.
    pub fn walk_str(&self, path: &str) -> (r: Option<usize>)
        requires
            self.wf(),
        ensures
            r == walk_str_spec(self.tree(), self.root_endpoint(), path@),
            path@.len() > 0 ==> (r matches Some(n) ==> reaches(self.tree(), 0, split_slash(path@), 0, n)),
    {
        if path.is_empty() {
            return self.endpoint;
        }
        let segs = split_path(path);
        proof {
            crate::url::split::lemma_split_join(path@);
            lemma_walk_str_reaches(self.tree(), self.root_endpoint(), path@);
        }
        self.walk(segs.as_slice())
    }

    /// [`UrlRoot::walk_str`], refusing paths of more than `max_depth`
    /// segments.
    pub fn walk_str_with_limit(&self, path: &str, max_depth: u32) -> (r: Option<usize>)
        requires
            self.wf(),
        ensures
            r == (if path@.len() == 0 {
                self.root_endpoint()
            } else if split_slash(path@).len() > max_depth {
                None
            } else {
                walk_str_spec(self.tree(), self.root_endpoint(), path@)
            }),
    {
        if path.is_empty() {
            return self.endpoint;
        }
        let segs = split_path(path);
        proof {
            crate::url::split::lemma_split_join(path@);
        }
        if segs.len() > max_depth as usize {
            return None;
        }
        self.walk(segs.as_slice())
    }

    /// The node that `segs` reach from node `id`, the search for the first
    /// segment resuming after state `st`.
    pub fn walk_node(&self, id: usize, segs: &[String], st: PartialState) -> (r: Option<usize>)
        requires
            self.wf(),
            id < self.tree().len(),
            st matches PartialState::Reg(i) ==> i < usize::MAX,
        ensures
            r == walk_at(self.tree(), id, strs_view(segs@), 0, st),
    {
        self.walk_from(id, segs, 0, st)
    }

    /// The node that the non-empty pieces of `path` reach from node `id`.
    pub fn walk_node_str(&self, id: usize, path: &str) -> (r: Option<usize>)
        requires
            self.wf(),
            id < self.tree().len(),
        ensures
            r == walk_at(self.tree(), id, drop_empty(split_slash(path@)), 0, PartialState::NotStart),
    {
        let segs = path_segments(path);
        self.walk_from(id, segs.as_slice(), 0, PartialState::NotStart)
    }

    /// [`UrlRoot::walk_node_str`], refusing more than `max_depth` pieces.
    pub fn walk_node_str_with_limit(&self, id: usize, path: &str, max_depth: u32) -> (r: Option<usize>)
        requires
            self.wf(),
            id < self.tree().len(),
        ensures
            r == (if drop_empty(split_slash(path@)).len() > max_depth {
                None
            } else {
                walk_at(self.tree(), id, drop_empty(split_slash(path@)), 0, PartialState::NotStart)
            }),
    {
        let segs = path_segments(path);
        if segs.len() > max_depth as usize {
            return None;
        }
        self.walk_from(id, segs.as_slice(), 0, PartialState::NotStart)
    }

    /// The segments `segs[d..]` walked from node `id`, the search for
    /// segment `d` resuming after state `st`.
    fn walk_from(&self, id: usize, segs: &[String], d: usize, st: PartialState) -> (r: Option<usize>)
        requires
            self.wf(),
            id < self.tree().len(),
            d <= segs@.len(),
            st matches PartialState::Reg(i) ==> i < usize::MAX,
        ensures
            r == walk_at(self.tree(), id, strs_view(segs@), d as int, st),
            r matches Some(n) ==> n < self.tree().len(),
        decreases segs@.len() - d,
    {
        let ghost t = self.tree();
        let ghost sv = strs_view(segs@);
        if d >= segs.len() {
            return Some(id);
        }
        let seg = segs[d].as_str();
        assert(seg@ == sv[d as int]);
        let ghost c = t[id as int].children;
        assert(self.nodes@[id as int].wf());
        assert(links_ok(t, c));
        let ghost all = c.candidates(seg@, st);
        assert(walk_at(t, id, sv, d as int, st) == first_hit(t, all, sv, d as int));
        let mut state = st;
        while !state.is_end()
            invariant
                self.wf(),
                t == self.tree(),
                sv == strs_view(segs@),
                id < t.len(),
                d < segs@.len(),
                seg@ == sv[d as int],
                c == t[id as int].children,
                links_ok(t, c),
                state matches PartialState::Reg(i) ==> i < usize::MAX,
                first_hit(t, all, sv, d as int) == first_hit(t, c.candidates(seg@, state), sv, d as int),
                walk_at(t, id, sv, d as int, st) == first_hit(t, all, sv, d as int),
            decreases c.candidates(seg@, state).len() + (if state is End { 0int } else { 1int }),
        {
            let ghost cs = c.candidates(seg@, state);
            proof {
                lemma_candidates_valid(t, c, seg@, state);
                if cs.len() > 0 {
                    lemma_resume(c, seg@, state);
                }
            }
            let (m, next) = self.nodes[id].children().match_step(seg, state);
            state = next;
            match m {
                None => {},
                Some(child) => {
                    assert(child == cs[0].0);
                    if d < segs.len() - 1 && !self.nodes[child].path().is_any_path() {
                        if let Some(found) = self.walk_from(child, segs, d + 1, PartialState::NotStart) {
                            assert(first_hit(t, cs, sv, d as int) == Some(found));
                            return Some(found);
                        }
                        assert(first_hit(t, cs, sv, d as int) == first_hit(t, cs.drop_first(), sv, d as int));
                    } else {
                        assert(first_hit(t, cs, sv, d as int) == Some(child));
                        return Some(child);
                    }
                },
            }
        }
        None
    }
}


impl<H, P> Default for UrlRoot<H, P> {
    fn default() -> (r: UrlRoot<H, P>)
        ensures
            r.wf(),
            r.tree().len() == 1,
            r.root_endpoint() is None,
    {
        UrlRoot::new()
    }
}

/// The literal patterns of segments `segs[d..]`.
pub open spec fn literal_tail(segs: Seq<Seq<char>>, d: int) -> Seq<PatternV> {
    segs.skip(d).map_values(|s: Seq<char>| PatternV::Literal(s))
}

/// When the segments from `d` on spell a path of literal children from
/// node `id`, the walk follows exactly that path: a literal child is the
/// first candidate at every depth.
pub proof fn lemma_literal_walk<H, P>(t: Seq<NodeV<H, P>>, id: usize, segs: Seq<Seq<char>>, d: int)
    requires
        tree_wf(t),
        id < t.len(),
        0 <= d <= segs.len(),
        find_path(t, id, literal_tail(segs, d)) is Some,
    ensures
        walk_at(t, id, segs, d, PartialState::NotStart) == find_path(t, id, literal_tail(segs, d)),
    decreases segs.len() - d,
{
    let ps = literal_tail(segs, d);
    if d < segs.len() {
        assert(ps[0] == PatternV::Literal(segs[d]));
        assert(ps.drop_first() =~= literal_tail(segs, d + 1));
        let c = t[id as int].children;
        assert(links_ok(t, c));
        let child = c.find(ps[0])->0;
        assert(lit_find(c.literals, segs[d]) == Some(child));
        let cs = c.candidates(segs[d], PartialState::NotStart);
        assert(cs[0] == (child, PartialState::Lit));
        assert(t[child as int].path == PatternV::Literal(segs[d]));
        if d + 1 < segs.len() {
            lemma_literal_walk(t, child, segs, d + 1);
        } else {
            assert(literal_tail(segs, d + 1) =~= Seq::<PatternV>::empty());
        }
    } else {
        assert(ps =~= Seq::<PatternV>::empty());
    }
}

/// A literal route is found by its own text: when the pieces of a
/// non-empty `path` lead from the root table to node `n` through literal
/// children, walking `path` reaches `n`.
pub proof fn lemma_literal_route_found<H, P>(t: Seq<NodeV<H, P>>, endpoint: Option<usize>, path: Seq<char>, n: usize)
    requires
        tree_wf(t),
        path.len() > 0,
        find_path(t, 0, literal_patterns(path)) == Some(n),
    ensures
        walk_str_spec(t, endpoint, path) == Some(n),
{
    crate::url::split::lemma_split_join(path);
    let segs = split_slash(path);
    assert(literal_tail(segs, 0) =~= literal_patterns(path));
    lemma_literal_walk(t, 0, segs, 0);
}

/// A catch-all child ends the walk: when the first candidate of a segment
/// is a catch-all child, the walk stops there whatever segments follow.
pub proof fn lemma_catch_all_ends_walk<H, P>(t: Seq<NodeV<H, P>>, id: usize, segs: Seq<Seq<char>>, d: int)
    requires
        id < t.len(),
        0 <= d < segs.len(),
        t[id as int].children.candidates(segs[d], PartialState::NotStart).len() > 0,
        t[t[id as int].children.candidates(segs[d], PartialState::NotStart)[0].0 as int].path is AnyPath,
    ensures
        walk_at(t, id, segs, d, PartialState::NotStart) == Some(
            t[id as int].children.candidates(segs[d], PartialState::NotStart)[0].0,
        ),
{
}

impl<H, P> UrlRoot<H, P> {
    /// The tree of a well-formed root is a well-formed tree.
    pub proof fn lemma_tree_wf(self)
        requires
            self.wf(),
        ensures
            tree_wf(self.tree()),
    {
    }

    /// Registering a literal path and then walking the same text reaches
    /// the registered node.
    pub proof fn lemma_registered_literal_found(
        self,
        before: Seq<NodeV<H, P>>,
        path: Seq<char>,
        n: usize,
        binding: Option<H>,
        params: Map<Seq<char>, P>,
    )
        requires
            self.wf(),
            path.len() > 0,
            registered(before, self.tree(), 0, literal_patterns(path), n, binding, params, Map::empty()),
        ensures
            walk_str_spec(self.tree(), self.root_endpoint(), path) == Some(n),
    {
        lemma_literal_route_found(self.tree(), self.root_endpoint(), path, n);
    }
}

} // verus!
