//! The child table of a route node: literal children by exact segment (kept
//! in key order), regex children in insertion order, and the optional
//! single-segment and catch-all wildcards.

use vstd::prelude::*;

use crate::text::{chars_of, push_str};
use crate::url::node::partial::PartialState;
use crate::url::pattern::{regex_segment_matches, str_equal, PathPattern, PatternV, RegexSegment};

verus! {

/// Whether `a` sorts strictly before `b`, comparing characters by code
/// point and a proper prefix before its extensions (the order of `String`).
pub open spec fn str_less(a: Seq<char>, b: Seq<char>) -> bool
    decreases a.len(),
{
    if a.len() == 0 {
        b.len() > 0
    } else if b.len() == 0 {
        false
    } else if (a[0] as int) < (b[0] as int) {
        true
    } else if a[0] == b[0] {
        str_less(a.drop_first(), b.drop_first())
    } else {
        false
    }
}

/// No string sorts before itself.
pub proof fn lemma_str_less_irreflexive(a: Seq<char>)
    ensures
        !str_less(a, a),
    decreases a.len(),
{
    if a.len() > 0 {
        lemma_str_less_irreflexive(a.drop_first());
    }
}

/// The string order is transitive.
pub proof fn lemma_str_less_transitive(a: Seq<char>, b: Seq<char>, c: Seq<char>)
    requires
        str_less(a, b),
        str_less(b, c),
    ensures
        str_less(a, c),
    decreases a.len(),
{
    if a.len() > 0 && b.len() > 0 && c.len() > 0 && a[0] == b[0] && b[0] == c[0] {
        lemma_str_less_transitive(a.drop_first(), b.drop_first(), c.drop_first());
    }
}

/// Two different strings are ordered one way or the other, never both.
pub proof fn lemma_str_less_total(a: Seq<char>, b: Seq<char>)
    ensures
        a != b ==> (str_less(a, b) || str_less(b, a)),
        !(str_less(a, b) && str_less(b, a)),
    decreases a.len(),
{
    if a.len() == 0 && b.len() == 0 {
        assert(a =~= b);
    } else if a.len() > 0 && b.len() > 0 {
        lemma_str_less_total(a.drop_first(), b.drop_first());
        if a[0] == b[0] && a.drop_first() == b.drop_first() {
            assert(a =~= seq![a[0]] + a.drop_first());
            assert(b =~= seq![b[0]] + b.drop_first());
        }
    }
}

/// Compares two strings in the order of [`str_less`].
pub fn str_lt(a: &str, b: &str) -> (r: bool)
    ensures
        r == str_less(a@, b@),
{
    let x = chars_of(a);
    let y = chars_of(b);
    let mut k: usize = 0;
    assert(x@.skip(0) =~= x@);
    assert(y@.skip(0) =~= y@);
    while k < x.len() && k < y.len()
        invariant
            x@ == a@,
            y@ == b@,
            k <= x@.len(),
            k <= y@.len(),
            str_less(a@, b@) == str_less(x@.skip(k as int), y@.skip(k as int)),
        decreases x.len() - k,
    {
        let c = x[k];
        let d = y[k];
        let ghost xs = x@.skip(k as int);
        let ghost ys = y@.skip(k as int);
        assert(xs[0] == c && ys[0] == d);
        if c < d {
            return true;
        }
        if c != d {
            return false;
        }
        assert(xs.drop_first() =~= x@.skip(k + 1));
        assert(ys.drop_first() =~= y@.skip(k + 1));
        k = k + 1;
    }
    k == x.len() && k < y.len()
}

/// Mathematical form of a child table: literal children in key order,
/// regex children (by source) in insertion order, and the wildcards.
pub struct ChildrenV {
    pub literals: Seq<(Seq<char>, usize)>,
    pub regex: Seq<(Seq<char>, usize)>,
    pub any: Option<usize>,
    pub any_path: Option<usize>,
}

/// Literal keys strictly increasing.
pub open spec fn lits_sorted(lits: Seq<(Seq<char>, usize)>) -> bool {
    forall|i: int, j: int|
        0 <= i < j < lits.len() ==> str_less(#[trigger] lits[i].0, #[trigger] lits[j].0)
}

/// Regex sources pairwise distinct.
pub open spec fn regex_unique(rs: Seq<(Seq<char>, usize)>) -> bool {
    forall|i: int, j: int| 0 <= i < j < rs.len() ==> #[trigger] rs[i].0 != #[trigger] rs[j].0
}

/// The regex table without the entry whose source is `src`.
pub open spec fn regex_without(rs: Seq<(Seq<char>, usize)>, src: Seq<char>) -> Seq<(Seq<char>, usize)> {
    if exists|i: int| 0 <= i < rs.len() && #[trigger] rs[i].0 == src {
        rs.remove(choose|i: int| 0 <= i < rs.len() && #[trigger] rs[i].0 == src)
    } else {
        rs
    }
}

/// The child of a literal table for `key`.
pub open spec fn lit_find(lits: Seq<(Seq<char>, usize)>, key: Seq<char>) -> Option<usize> {
    if exists|i: int| 0 <= i < lits.len() && #[trigger] lits[i].0 == key {
        Some(lits[choose|i: int| 0 <= i < lits.len() && #[trigger] lits[i].0 == key].1)
    } else {
        None
    }
}

/// The child of a regex table registered with source `src`.
pub open spec fn regex_find(rs: Seq<(Seq<char>, usize)>, src: Seq<char>) -> Option<usize> {
    if exists|i: int| 0 <= i < rs.len() && #[trigger] rs[i].0 == src {
        Some(rs[choose|i: int| 0 <= i < rs.len() && #[trigger] rs[i].0 == src].1)
    } else {
        None
    }
}

/// The regex entries from `from` on whose pattern accepts `segment`, in
/// order, each with the search state that records it.
pub open spec fn regex_cands(rs: Seq<(Seq<char>, usize)>, segment: Seq<char>, from: int) -> Seq<
    (usize, PartialState),
>
    decreases rs.len() - from,
{
    if from < 0 || from >= rs.len() {
        Seq::empty()
    } else if regex_segment_matches(rs[from].0, segment) {
        seq![(rs[from].1, PartialState::Reg(from as usize))] + regex_cands(rs, segment, from + 1)
    } else {
        regex_cands(rs, segment, from + 1)
    }
}

/// An optional child as a candidate list with the state that records it.
pub open spec fn opt_cand(o: Option<usize>, st: PartialState) -> Seq<(usize, PartialState)> {
    match o {
        Some(id) => seq![(id, st)],
        None => Seq::empty(),
    }
}

impl ChildrenV {
    /// Literal keys strictly increasing; regex sources distinct.
    pub open spec fn wf(self) -> bool {
        &&& lits_sorted(self.literals)
        &&& regex_unique(self.regex)
        &&& self.regex.len() <= usize::MAX
    }

    /// The child registered under exactly the pattern `p`.
    pub open spec fn find(self, p: PatternV) -> Option<usize> {
        match p {
            PatternV::Literal(k) => lit_find(self.literals, k),
            PatternV::Regex(s) => regex_find(self.regex, s),
            PatternV::Any => self.any,
            PatternV::AnyPath => self.any_path,
        }
    }

    /// The candidates for `segment` not yet tried in state `st`, in the
    /// order literal, regex (insertion order), wildcard, catch-all; each with
    /// the state that records it as tried.
    pub open spec fn candidates(self, segment: Seq<char>, st: PartialState) -> Seq<
        (usize, PartialState),
    > {
        let tail = opt_cand(self.any, PartialState::Any) + opt_cand(
            self.any_path,
            PartialState::AnyPath,
        );
        match st {
            PartialState::NotStart => opt_cand(lit_find(self.literals, segment), PartialState::Lit)
                + regex_cands(self.regex, segment, 0) + tail,
            PartialState::Lit => regex_cands(self.regex, segment, 0) + tail,
            PartialState::Reg(i) => regex_cands(self.regex, segment, i + 1) + tail,
            PartialState::Any => opt_cand(self.any_path, PartialState::AnyPath),
            PartialState::AnyPath => Seq::empty(),
            PartialState::End => Seq::empty(),
        }
    }

    /// Every child id: literals in key order, regexes in insertion order,
    /// then the wildcard and the catch-all.
    pub open spec fn all_ids(self) -> Seq<usize> {
        self.literals.map_values(|e: (Seq<char>, usize)| e.1) + self.regex.map_values(
            |e: (Seq<char>, usize)| e.1,
        ) + opt_cand(self.any, PartialState::Any).map_values(|e: (usize, PartialState)| e.0)
            + opt_cand(self.any_path, PartialState::AnyPath).map_values(
            |e: (usize, PartialState)| e.0,
        )
    }
}

/// The rank of a search state in the lookup order.
pub open spec fn state_rank(st: PartialState) -> int {
    match st {
        PartialState::NotStart => 0,
        PartialState::Lit => 1,
        PartialState::Reg(_) => 2,
        PartialState::Any => 3,
        PartialState::AnyPath => 4,
        PartialState::End => 5,
    }
}

/// Skipping regex entries that do not match leaves the candidates unchanged.
proof fn lemma_regex_cands_skip(rs: Seq<(Seq<char>, usize)>, segment: Seq<char>, from: int, to: int)
    requires
        0 <= from <= to,
        forall|k: int| from <= k < to && k < rs.len() ==> !regex_segment_matches(rs[k].0, segment),
    ensures
        regex_cands(rs, segment, from) == regex_cands(rs, segment, to),
    decreases to - from,
{
    if from < to {
        lemma_regex_cands_skip(rs, segment, from + 1, to);
    }
}

/// Every regex candidate from `from` on records an index at or after `from`
/// and ranks as a regex state.
pub proof fn lemma_regex_cands_states(rs: Seq<(Seq<char>, usize)>, segment: Seq<char>, from: int)
    requires
        0 <= from,
        rs.len() <= usize::MAX,
    ensures
        forall|k: int|
            0 <= k < regex_cands(rs, segment, from).len() ==> {
                let e = #[trigger] regex_cands(rs, segment, from)[k];
                &&& e.1 matches PartialState::Reg(j)
                &&& from <= e.1->Reg_0 < rs.len()
                &&& e.0 == rs[e.1->Reg_0 as int].1
            },
    decreases rs.len() - from,
{
    if from < rs.len() {
        lemma_regex_cands_states(rs, segment, from + 1);
        let rest = regex_cands(rs, segment, from + 1);
        if regex_segment_matches(rs[from].0, segment) {
            let all = regex_cands(rs, segment, from);
            assert forall|k: int| 0 <= k < all.len() implies {
                let e = #[trigger] all[k];
                &&& e.1 matches PartialState::Reg(j)
                &&& from <= e.1->Reg_0 < rs.len()
                &&& e.0 == rs[e.1->Reg_0 as int].1
            } by {
                if k > 0 {
                    assert(all[k] == rest[k - 1]);
                }
            }
        }
    }
}

/// Resuming the search from the state recorded with the first candidate
/// yields the remaining candidates.
pub proof fn lemma_resume(c: ChildrenV, segment: Seq<char>, st: PartialState)
    requires
        c.regex.len() <= usize::MAX,
        st matches PartialState::Reg(i) ==> i < usize::MAX,
        c.candidates(segment, st).len() > 0,
    ensures
        c.candidates(segment, c.candidates(segment, st)[0].1) == c.candidates(
            segment,
            st,
        ).drop_first(),
{
    let cs = c.candidates(segment, st);
    let tail = opt_cand(c.any, PartialState::Any) + opt_cand(c.any_path, PartialState::AnyPath);
    let from: int = match st {
        PartialState::Reg(i) => i + 1,
        _ => 0,
    };
    let rc = regex_cands(c.regex, segment, from);
    match st {
        PartialState::NotStart => {
            let lp = opt_cand(lit_find(c.literals, segment), PartialState::Lit);
            if lp.len() > 0 {
                assert(cs =~= lp + (rc + tail));
                assert(cs.drop_first() =~= rc + tail);
            } else {
                assert(cs =~= rc + tail);
                lemma_resume_regex(c, segment, from);
            }
        },
        PartialState::Lit => {
            lemma_resume_regex(c, segment, from);
        },
        PartialState::Reg(i) => {
            lemma_resume_regex(c, segment, from);
        },
        PartialState::Any => {},
        _ => {},
    }
}

proof fn lemma_resume_regex(c: ChildrenV, segment: Seq<char>, from: int)
    requires
        c.regex.len() <= usize::MAX,
        0 <= from,
        (regex_cands(c.regex, segment, from) + opt_cand(c.any, PartialState::Any) + opt_cand(
            c.any_path,
            PartialState::AnyPath,
        )).len() > 0,
    ensures
        ({
            let cs = regex_cands(c.regex, segment, from) + opt_cand(c.any, PartialState::Any)
                + opt_cand(c.any_path, PartialState::AnyPath);
            c.candidates(segment, cs[0].1) == cs.drop_first()
        }),
    decreases c.regex.len() - from,
{
    let rc = regex_cands(c.regex, segment, from);
    let ta = opt_cand(c.any, PartialState::Any);
    let tp = opt_cand(c.any_path, PartialState::AnyPath);
    let cs = rc + ta + tp;
    if rc.len() > 0 {
        if from < c.regex.len() && !regex_segment_matches(c.regex[from].0, segment) {
            lemma_resume_regex(c, segment, from + 1);
            assert(rc == regex_cands(c.regex, segment, from + 1));
        } else if from < c.regex.len() {
            let rest = regex_cands(c.regex, segment, from + 1);
            assert(rc =~= seq![(c.regex[from].1, PartialState::Reg(from as usize))] + rest);
            assert(cs[0] == (c.regex[from].1, PartialState::Reg(from as usize)));
            assert(cs.drop_first() =~= rest + ta + tp);
        }
    } else if ta.len() > 0 {
        assert(cs =~= ta + tp);
        assert(cs.drop_first() =~= tp);
    } else {
        assert(cs =~= tp);
    }
}

/// The lookup order: literal before regex before wildcard before catch-all,
/// regex candidates in insertion order.
pub proof fn lemma_priority(c: ChildrenV, segment: Seq<char>)
    requires
        c.regex.len() <= usize::MAX,
    ensures
        forall|i: int, j: int|
            0 <= i < j < c.candidates(segment, PartialState::NotStart).len() ==> state_rank(
                #[trigger] c.candidates(segment, PartialState::NotStart)[i].1,
            ) <= state_rank(#[trigger] c.candidates(segment, PartialState::NotStart)[j].1),
        lit_find(c.literals, segment) matches Some(id) ==> c.candidates(
            segment,
            PartialState::NotStart,
        )[0] == (id, PartialState::Lit),
{
    let lp = opt_cand(lit_find(c.literals, segment), PartialState::Lit);
    let rc = regex_cands(c.regex, segment, 0);
    let ta = opt_cand(c.any, PartialState::Any);
    let tp = opt_cand(c.any_path, PartialState::AnyPath);
    let cs = c.candidates(segment, PartialState::NotStart);
    assert(cs =~= lp + rc + ta + tp);
    lemma_regex_cands_states(c.regex, segment, 0);
    assert forall|i: int, j: int| 0 <= i < j < cs.len() implies state_rank(#[trigger] cs[i].1)
        <= state_rank(#[trigger] cs[j].1) by {
        let a = lp.len();
        let b = a + rc.len();
        let d = b + ta.len();
        if i < a {
        } else if i < b {
            assert(cs[i] == rc[i - a]);
            if j < b {
                assert(cs[j] == rc[j - a]);
            }
        } else if i < d {
            assert(cs[i] == ta[i - b]);
            assert(j >= d);
            assert(cs[j] == tp[j - d]);
        } else {
        }
    }
}

/// In a sorted literal table the entry with key `lits[i].0` is entry `i`.
pub proof fn lemma_lit_find_at(lits: Seq<(Seq<char>, usize)>, i: int)
    requires
        lits_sorted(lits),
        0 <= i < lits.len(),
    ensures
        lit_find(lits, lits[i].0) == Some(lits[i].1),
{
    let key = lits[i].0;
    assert(lits[i].0 == key);
    lemma_str_less_irreflexive(key);
    assert(forall|j: int| 0 <= j < lits.len() && #[trigger] lits[j].0 == key ==> j == i);
}

/// Inserting `(key, id)` at a position that keeps the keys in order.
proof fn lemma_lit_insert(lits: Seq<(Seq<char>, usize)>, k: int, key: Seq<char>, id: usize)
    requires
        lits_sorted(lits),
        0 <= k <= lits.len(),
        forall|i: int| 0 <= i < k ==> str_less(#[trigger] lits[i].0, key),
        k < lits.len() ==> str_less(key, lits[k].0),
    ensures
        lits_sorted(lits.insert(k, (key, id))),
        forall|q: Seq<char>|
            #[trigger] lit_find(lits.insert(k, (key, id)), q) == if q == key {
                Some(id)
            } else {
                lit_find(lits, q)
            },
{
    let n = lits.insert(k, (key, id));
    assert forall|i: int, j: int| 0 <= i < j < n.len() implies str_less(
        #[trigger] n[i].0,
        #[trigger] n[j].0,
    ) by {
        if i < k && j == k {
        } else if i < k && j > k {
            assert(n[j] == lits[j - 1]);
            if j - 1 > k {
                assert(str_less(lits[k].0, lits[j - 1].0));
                lemma_str_less_transitive(lits[i].0, key, lits[k].0);
                lemma_str_less_transitive(lits[i].0, lits[k].0, lits[j - 1].0);
            } else {
                lemma_str_less_transitive(lits[i].0, key, lits[k].0);
            }
        } else if i == k {
            assert(n[j] == lits[j - 1]);
            if j - 1 > k {
                assert(str_less(lits[k].0, lits[j - 1].0));
                lemma_str_less_transitive(key, lits[k].0, lits[j - 1].0);
            }
        } else if i < k {
            assert(n[i] == lits[i] && n[j] == lits[j]);
        } else {
            assert(n[i] == lits[i - 1] && n[j] == lits[j - 1]);
        }
    }
    assert forall|q: Seq<char>| #[trigger] lit_find(n, q) == if q == key {
        Some(id)
    } else {
        lit_find(lits, q)
    } by {
        if q == key {
            assert(n[k].0 == key);
            lemma_lit_find_at(n, k);
        } else if exists|i: int| 0 <= i < lits.len() && #[trigger] lits[i].0 == q {
            let i = choose|i: int| 0 <= i < lits.len() && #[trigger] lits[i].0 == q;
            lemma_lit_find_at(lits, i);
            let ni = if i < k { i } else { i + 1 };
            assert(n[ni] == lits[i]);
            lemma_lit_find_at(n, ni);
        } else {
            assert forall|i: int| 0 <= i < n.len() implies #[trigger] n[i].0 != q by {
                if i < k {
                    assert(n[i] == lits[i]);
                } else if i > k {
                    assert(n[i] == lits[i - 1]);
                }
            }
        }
    }
}

/// Replacing the child of an existing key.
proof fn lemma_lit_replace(lits: Seq<(Seq<char>, usize)>, k: int, id: usize)
    requires
        lits_sorted(lits),
        0 <= k < lits.len(),
    ensures
        lits_sorted(lits.update(k, (lits[k].0, id))),
        forall|q: Seq<char>|
            #[trigger] lit_find(lits.update(k, (lits[k].0, id)), q) == if q == lits[k].0 {
                Some(id)
            } else {
                lit_find(lits, q)
            },
{
    let key = lits[k].0;
    let n = lits.update(k, (key, id));
    assert forall|i: int, j: int| 0 <= i < j < n.len() implies str_less(
        #[trigger] n[i].0,
        #[trigger] n[j].0,
    ) by {
        assert(n[i].0 == lits[i].0 && n[j].0 == lits[j].0);
    }
    assert forall|q: Seq<char>| #[trigger] lit_find(n, q) == if q == key {
        Some(id)
    } else {
        lit_find(lits, q)
    } by {
        if q == key {
            lemma_lit_find_at(n, k);
        } else if exists|i: int| 0 <= i < lits.len() && #[trigger] lits[i].0 == q {
            let i = choose|i: int| 0 <= i < lits.len() && #[trigger] lits[i].0 == q;
            lemma_lit_find_at(lits, i);
            assert(n[i] == lits[i]);
            lemma_lit_find_at(n, i);
        } else {
            assert forall|i: int| 0 <= i < n.len() implies #[trigger] n[i].0 != q by {
                assert(n[i].0 == lits[i].0);
            }
        }
    }
}

/// Removing the entry at `k`.
proof fn lemma_lit_remove(lits: Seq<(Seq<char>, usize)>, k: int)
    requires
        lits_sorted(lits),
        0 <= k < lits.len(),
    ensures
        lits_sorted(lits.remove(k)),
        forall|q: Seq<char>|
            #[trigger] lit_find(lits.remove(k), q) == if q == lits[k].0 {
                None
            } else {
                lit_find(lits, q)
            },
{
    let key = lits[k].0;
    let n = lits.remove(k);
    assert forall|i: int, j: int| 0 <= i < j < n.len() implies str_less(
        #[trigger] n[i].0,
        #[trigger] n[j].0,
    ) by {
        let oi = if i < k { i } else { i + 1 };
        let oj = if j < k { j } else { j + 1 };
        assert(n[i] == lits[oi] && n[j] == lits[oj]);
    }
    assert forall|q: Seq<char>| #[trigger] lit_find(n, q) == if q == key {
        None
    } else {
        lit_find(lits, q)
    } by {
        if q == key {
            assert forall|i: int| 0 <= i < n.len() implies #[trigger] n[i].0 != q by {
                let oi = if i < k { i } else { i + 1 };
                assert(n[i] == lits[oi]);
                lemma_str_less_irreflexive(key);
            }
        } else if exists|i: int| 0 <= i < lits.len() && #[trigger] lits[i].0 == q {
            let i = choose|i: int| 0 <= i < lits.len() && #[trigger] lits[i].0 == q;
            lemma_lit_find_at(lits, i);
            let ni = if i < k { i } else { i - 1 };
            assert(n[ni] == lits[i]);
            lemma_lit_find_at(n, ni);
        } else {
            assert forall|i: int| 0 <= i < n.len() implies #[trigger] n[i].0 != q by {
                let oi = if i < k { i } else { i + 1 };
                assert(n[i] == lits[oi]);
            }
        }
    }
}

/// In a table of distinct sources the entry with source `rs[i].0` is entry `i`.
pub proof fn lemma_regex_find_at(rs: Seq<(Seq<char>, usize)>, i: int)
    requires
        regex_unique(rs),
        0 <= i < rs.len(),
    ensures
        regex_find(rs, rs[i].0) == Some(rs[i].1),
        regex_without(rs, rs[i].0) == rs.remove(i),
{
    assert(rs[i].0 == rs[i].0);
    let j = choose|j: int| 0 <= j < rs.len() && #[trigger] rs[j].0 == rs[i].0;
    if j != i {
        if j < i {
            assert(rs[j].0 != rs[i].0);
        } else {
            assert(rs[i].0 != rs[j].0);
        }
    }
}

/// Removing an entry keeps the sources distinct and forgets that source only.
proof fn lemma_regex_remove(rs: Seq<(Seq<char>, usize)>, k: int)
    requires
        regex_unique(rs),
        0 <= k < rs.len(),
    ensures
        regex_unique(rs.remove(k)),
        forall|q: Seq<char>|
            #[trigger] regex_find(rs.remove(k), q) == if q == rs[k].0 {
                None
            } else {
                regex_find(rs, q)
            },
{
    let n = rs.remove(k);
    assert forall|i: int, j: int| 0 <= i < j < n.len() implies #[trigger] n[i].0 != #[trigger] n[j].0 by {
        let oi = if i < k { i } else { i + 1 };
        let oj = if j < k { j } else { j + 1 };
        assert(n[i] == rs[oi] && n[j] == rs[oj]);
    }
    assert forall|q: Seq<char>| #[trigger] regex_find(n, q) == if q == rs[k].0 {
        None
    } else {
        regex_find(rs, q)
    } by {
        if q == rs[k].0 {
            assert forall|i: int| 0 <= i < n.len() implies #[trigger] n[i].0 != q by {
                let oi = if i < k { i } else { i + 1 };
                assert(n[i] == rs[oi]);
            }
        } else if exists|i: int| 0 <= i < rs.len() && #[trigger] rs[i].0 == q {
            let i = choose|i: int| 0 <= i < rs.len() && #[trigger] rs[i].0 == q;
            lemma_regex_find_at(rs, i);
            let ni = if i < k { i } else { i - 1 };
            assert(n[ni] == rs[i]);
            lemma_regex_find_at(n, ni);
        } else {
            assert forall|i: int| 0 <= i < n.len() implies #[trigger] n[i].0 != q by {
                let oi = if i < k { i } else { i + 1 };
                assert(n[i] == rs[oi]);
            }
        }
    }
}

/// Appending an entry whose source is new.
proof fn lemma_regex_push(rs: Seq<(Seq<char>, usize)>, src: Seq<char>, id: usize)
    requires
        regex_unique(rs),
        forall|i: int| 0 <= i < rs.len() ==> #[trigger] rs[i].0 != src,
    ensures
        regex_unique(rs.push((src, id))),
        forall|q: Seq<char>|
            #[trigger] regex_find(rs.push((src, id)), q) == if q == src {
                Some(id)
            } else {
                regex_find(rs, q)
            },
{
    let n = rs.push((src, id));
    assert forall|i: int, j: int| 0 <= i < j < n.len() implies #[trigger] n[i].0 != #[trigger] n[j].0 by {
        assert(n[i] == rs[i]);
        if j < rs.len() {
            assert(n[j] == rs[j]);
        }
    }
    assert forall|q: Seq<char>| #[trigger] regex_find(n, q) == if q == src {
        Some(id)
    } else {
        regex_find(rs, q)
    } by {
        if q == src {
            lemma_regex_find_at(n, rs.len() as int);
        } else if exists|i: int| 0 <= i < rs.len() && #[trigger] rs[i].0 == q {
            let i = choose|i: int| 0 <= i < rs.len() && #[trigger] rs[i].0 == q;
            lemma_regex_find_at(rs, i);
            assert(n[i] == rs[i]);
            lemma_regex_find_at(n, i);
        } else {
            assert forall|i: int| 0 <= i < n.len() implies #[trigger] n[i].0 != q by {
                if i < rs.len() {
                    assert(n[i] == rs[i]);
                }
            }
        }
    }
}

/// The child table of a route node.
#[derive(Clone, Debug)]
pub struct Children {
    literals: Vec<(String, usize)>,
    regex: Vec<(RegexSegment, usize)>,
    any: Option<usize>,
    any_path: Option<usize>,
}

impl View for Children {
    type V = ChildrenV;

    closed spec fn view(&self) -> ChildrenV {
        ChildrenV {
            literals: self.literals@.map_values(|e: (String, usize)| (e.0@, e.1)),
            regex: self.regex@.map_values(|e: (RegexSegment, usize)| (e.0.source(), e.1)),
            any: self.any,
            any_path: self.any_path,
        }
    }
}

impl Children {
    /// An empty child table.
    pub fn new() -> (r: Children)
        ensures
            r@.wf(),
            r@.literals.len() == 0,
            r@.regex.len() == 0,
            r@.any is None,
            r@.any_path is None,
    {
        let r = Children { literals: Vec::new(), regex: Vec::new(), any: None, any_path: None };
        assert(r@.literals =~= Seq::<(Seq<char>, usize)>::empty());
        assert(r@.regex =~= Seq::<(Seq<char>, usize)>::empty());
        r
    }

    /// Whether no child is registered.
    pub fn is_empty(&self) -> (r: bool)
        ensures
            r == (self@.all_ids().len() == 0),
    {
        self.literals.len() == 0 && self.regex.len() == 0 && self.any.is_none()
            && self.any_path.is_none()
    }

    /// The number of registered children.
    pub fn len(&self) -> (n: usize)
        requires
            self@.all_ids().len() <= usize::MAX,
        ensures
            n == self@.all_ids().len(),
    {
        let mut n = self.literals.len() + self.regex.len();
        if self.any.is_some() {
            n = n + 1;
        }
        if self.any_path.is_some() {
            n = n + 1;
        }
        n
    }

    /// The position of `key` among the literal keys, or where it would be
    /// inserted to keep them in order.
    fn literal_position(&self, key: &str) -> (r: (usize, bool))
        requires
            self@.wf(),
        ensures
            r.0 <= self@.literals.len(),
            forall|i: int| 0 <= i < r.0 ==> str_less(#[trigger] self@.literals[i].0, key@),
            r.1 ==> r.0 < self@.literals.len() && self@.literals[r.0 as int].0 == key@,
            !r.1 ==> r.0 < self@.literals.len() ==> str_less(key@, self@.literals[r.0 as int].0),
    {
        let ghost lits = self@.literals;
        let mut k: usize = 0;
        while k < self.literals.len()
            invariant
                lits == self@.literals,
                k <= lits.len(),
                lits.len() == self.literals@.len(),
                forall|i: int| 0 <= i < k ==> str_less(#[trigger] lits[i].0, key@),
            decreases self.literals.len() - k,
        {
            assert(lits[k as int].0 == self.literals@[k as int].0@);
            if !str_lt(self.literals[k].0.as_str(), key) {
                if str_equal(self.literals[k].0.as_str(), key) {
                    return (k, true);
                } else {
                    proof {
                        lemma_str_less_total(lits[k as int].0, key@);
                    }
                    return (k, false);
                }
            }
            k = k + 1;
        }
        (k, false)
    }

    /// The literal child registered for exactly `segment`.
    pub fn match_literal(&self, segment: &str) -> (r: Option<usize>)
        requires
            self@.wf(),
        ensures
            r == lit_find(self@.literals, segment@),
    {
        let (k, found) = self.literal_position(segment);
        let ghost lits = self@.literals;
        if found {
            proof {
                let j = choose|i: int| 0 <= i < lits.len() && #[trigger] lits[i].0 == segment@;
                if j != k as int {
                    if j < k as int {
                        lemma_str_less_irreflexive(segment@);
                    } else {
                        assert(str_less(lits[k as int].0, lits[j].0));
                        lemma_str_less_irreflexive(segment@);
                    }
                }
            }
            assert(lits[k as int].1 == self.literals@[k as int].1);
            Some(self.literals[k].1)
        } else {
            proof {
                if exists|i: int| 0 <= i < lits.len() && #[trigger] lits[i].0 == segment@ {
                    let j = choose|i: int| 0 <= i < lits.len() && #[trigger] lits[i].0 == segment@;
                    lemma_str_less_irreflexive(segment@);
                    if j > k as int {
                        assert(str_less(lits[k as int].0, lits[j].0));
                        lemma_str_less_total(segment@, lits[k as int].0);
                    }
                }
            }
            None
        }
    }

    /// The position of the regex entry with source `src`.
    fn regex_position(&self, src: &str) -> (r: Option<usize>)
        requires
            self@.wf(),
        ensures
            r matches Some(k) ==> k < self@.regex.len() && self@.regex[k as int].0 == src@,
            r is None ==> forall|i: int| 0 <= i < self@.regex.len() ==> #[trigger] self@.regex[i].0 != src@,
    {
        let ghost rs = self@.regex;
        let mut k: usize = 0;
        while k < self.regex.len()
            invariant
                rs == self@.regex,
                rs.len() == self.regex@.len(),
                k <= rs.len(),
                forall|i: int| 0 <= i < k ==> #[trigger] rs[i].0 != src@,
            decreases self.regex.len() - k,
        {
            assert(rs[k as int].0 == self.regex@[k as int].0.source());
            if str_equal(self.regex[k].0.src(), src) {
                return Some(k);
            }
            k = k + 1;
        }
        None
    }

    /// Registers child `id` under `pattern`, replacing the child registered
    /// under the same pattern. A regex child moves to the end of the regex
    /// order.
    pub fn insert(&mut self, pattern: &PathPattern, id: usize)
        requires
            old(self)@.wf(),
        ensures
            final(self)@.wf(),
            forall|q: PatternV| #[trigger] final(self)@.find(q) == if q == pattern@ {
                Some(id)
            } else {
                old(self)@.find(q)
            },
            pattern@ matches PatternV::Regex(src) ==> final(self)@.regex == regex_without(
                old(self)@.regex,
                src,
            ).push((src, id)),
            !(pattern@ is Regex) ==> final(self)@.regex == old(self)@.regex,
            !(pattern@ is Literal) ==> final(self)@.literals == old(self)@.literals,
            !(pattern@ is Any) ==> final(self)@.any == old(self)@.any,
            !(pattern@ is AnyPath) ==> final(self)@.any_path == old(self)@.any_path,
    {
        let ghost old_v = self@;
        match pattern {
            PathPattern::Literal(key) => {
                let (k, found) = self.literal_position(key.as_str());
                if found {
                    proof {
                        lemma_lit_replace(old_v.literals, k as int, id);
                    }
                    let key_s = self.literals[k].0.clone();
                    self.literals.set(k, (key_s, id));
                    assert(self@.literals =~= old_v.literals.update(
                        k as int,
                        (old_v.literals[k as int].0, id),
                    ));
                } else {
                    proof {
                        lemma_lit_insert(old_v.literals, k as int, key@, id);
                    }
                    self.literals.insert(k, (key.clone(), id));
                    assert(self@.literals =~= old_v.literals.insert(k as int, (key@, id)));
                }
                assert forall|q: PatternV| #[trigger] self@.find(q) == if q == pattern@ {
                    Some(id)
                } else {
                    old_v.find(q)
                } by {
                    if let PatternV::Literal(qk) = q {
                        assert(lit_find(self@.literals, qk) == if qk == key@ {
                            Some(id)
                        } else {
                            lit_find(old_v.literals, qk)
                        });
                    }
                }
            },
            PathPattern::Regex(seg) => {
                let ghost src = seg.source();
                match self.regex_position(seg.src()) {
                    Some(k) => {
                        proof {
                            lemma_regex_find_at(old_v.regex, k as int);
                            lemma_regex_remove(old_v.regex, k as int);
                        }
                        self.regex.remove(k);
                        assert(self@.regex =~= old_v.regex.remove(k as int));
                    },
                    None => {
                        assert(regex_without(old_v.regex, src) == old_v.regex);
                    },
                }
                let ghost mid = self@.regex;
                proof {
                    lemma_regex_push(mid, src, id);
                }
                self.regex.push((seg.duplicate(), id));
                assert(self@.regex =~= mid.push((src, id)));
                assert(self.regex@.len() == self.regex.len());
                assert forall|q: PatternV| #[trigger] self@.find(q) == if q == pattern@ {
                    Some(id)
                } else {
                    old_v.find(q)
                } by {
                    if let PatternV::Regex(qs) = q {
                        assert(regex_find(self@.regex, qs) == if qs == src {
                            Some(id)
                        } else {
                            regex_find(mid, qs)
                        });
                        assert(regex_find(mid, qs) == if qs == src {
                            None
                        } else {
                            regex_find(old_v.regex, qs)
                        });
                    }
                }
            },
            PathPattern::Any => {
                self.any = Some(id);
            },
            PathPattern::AnyPath => {
                self.any_path = Some(id);
            },
        }
    }

    /// Removes the child registered under exactly `pattern`, returning it.
    pub fn remove(&mut self, pattern: &PathPattern) -> (r: Option<usize>)
        requires
            old(self)@.wf(),
        ensures
            final(self)@.wf(),
            r == old(self)@.find(pattern@),
            forall|q: PatternV| #[trigger] final(self)@.find(q) == if q == pattern@ {
                None
            } else {
                old(self)@.find(q)
            },
            pattern@ matches PatternV::Regex(src) ==> final(self)@.regex == regex_without(
                old(self)@.regex,
                src,
            ),
            !(pattern@ is Regex) ==> final(self)@.regex == old(self)@.regex,
            !(pattern@ is Literal) ==> final(self)@.literals == old(self)@.literals,
            !(pattern@ is Any) ==> final(self)@.any == old(self)@.any,
            !(pattern@ is AnyPath) ==> final(self)@.any_path == old(self)@.any_path,
    {
        let ghost old_v = self@;
        match pattern {
            PathPattern::Literal(key) => {
                let (k, found) = self.literal_position(key.as_str());
                if found {
                    proof {
                        lemma_lit_remove(old_v.literals, k as int);
                        lemma_lit_find_at(old_v.literals, k as int);
                    }
                    let (_, id) = self.literals.remove(k);
                    assert(self@.literals =~= old_v.literals.remove(k as int));
                    assert forall|q: PatternV| #[trigger] self@.find(q) == if q == pattern@ {
                        None
                    } else {
                        old_v.find(q)
                    } by {
                        if let PatternV::Literal(qk) = q {
                            assert(lit_find(self@.literals, qk) == if qk == key@ {
                                None
                            } else {
                                lit_find(old_v.literals, qk)
                            });
                        }
                    }
                    Some(id)
                } else {
                    proof {
                        if exists|i: int| 0 <= i < old_v.literals.len() && #[trigger] old_v.literals[i].0 == key@ {
                            let i = choose|i: int| 0 <= i < old_v.literals.len() && #[trigger] old_v.literals[i].0 == key@;
                            lemma_str_less_irreflexive(key@);
                            if i > k as int {
                                assert(str_less(old_v.literals[k as int].0, old_v.literals[i].0));
                                lemma_str_less_total(key@, old_v.literals[k as int].0);
                            }
                        }
                    }
                    None
                }
            },
            PathPattern::Regex(seg) => {
                match self.regex_position(seg.src()) {
                    Some(k) => {
                        proof {
                            lemma_regex_find_at(old_v.regex, k as int);
                            lemma_regex_remove(old_v.regex, k as int);
                        }
                        let (_, id) = self.regex.remove(k);
                        assert(self@.regex =~= old_v.regex.remove(k as int));
                        assert forall|q: PatternV| #[trigger] self@.find(q) == if q == pattern@ {
                            None
                        } else {
                            old_v.find(q)
                        } by {
                            if let PatternV::Regex(qs) = q {
                                assert(regex_find(self@.regex, qs) == if qs == seg.source() {
                                    None
                                } else {
                                    regex_find(old_v.regex, qs)
                                });
                            }
                        }
                        Some(id)
                    },
                    None => None,
                }
            },
            PathPattern::Any => {
                let r = self.any;
                self.any = None;
                r
            },
            PathPattern::AnyPath => {
                let r = self.any_path;
                self.any_path = None;
                r
            },
        }
    }

    /// The child registered under exactly `pattern`.
    pub fn find(&self, pattern: &PathPattern) -> (r: Option<usize>)
        requires
            self@.wf(),
        ensures
            r == self@.find(pattern@),
    {
        match pattern {
            PathPattern::Literal(key) => self.match_literal(key.as_str()),
            PathPattern::Regex(seg) => {
                match self.regex_position(seg.src()) {
                    Some(k) => {
                        proof {
                            lemma_regex_find_at(self@.regex, k as int);
                        }
                        assert(self@.regex[k as int].1 == self.regex@[k as int].1);
                        Some(self.regex[k].1)
                    },
                    None => None,
                }
            },
            PathPattern::Any => self.any,
            PathPattern::AnyPath => self.any_path,
        }
    }

    /// The first regex child at index `idx` or later whose pattern accepts
    /// `segment`, with its index.
    pub fn match_regex_with_idx(&self, segment: &str, idx: usize) -> (r: Option<(usize, usize)>)
        ensures
            r is None <==> regex_cands(self@.regex, segment@, idx as int).len() == 0,
            r matches Some((id, j)) ==> regex_cands(self@.regex, segment@, idx as int)[0] == (
                id,
                PartialState::Reg(j),
            ) && idx <= j < self@.regex.len() && regex_segment_matches(self@.regex[j as int].0, segment@),
    {
        let ghost rs = self@.regex;
        let mut k: usize = idx;
        while k < self.regex.len()
            invariant
                rs == self@.regex,
                rs.len() == self.regex@.len(),
                idx <= k,
                regex_cands(rs, segment@, idx as int) == regex_cands(rs, segment@, k as int),
                forall|i: int| idx <= i < k && i < rs.len() ==> !regex_segment_matches(rs[i].0, segment@),
            decreases self.regex.len() - k,
        {
            assert(rs[k as int].0 == self.regex@[k as int].0.source());
            if self.regex[k].0.is_match(segment) {
                assert(rs[k as int].1 == self.regex@[k as int].1);
                return Some((self.regex[k].1, k));
            }
            proof {
                lemma_regex_cands_skip(rs, segment@, k as int, k as int + 1);
            }
            k = k + 1;
        }
        None
    }

    /// The first regex child whose pattern accepts `segment`.
    pub fn match_regex(&self, segment: &str) -> (r: Option<usize>)
        ensures
            r == (if regex_cands(self@.regex, segment@, 0).len() > 0 {
                Some(regex_cands(self@.regex, segment@, 0)[0].0)
            } else {
                None::<usize>
            }),
    {
        match self.match_regex_with_idx(segment, 0) {
            Some((id, _)) => Some(id),
            None => None,
        }
    }

    /// The single-segment wildcard child.
    pub fn match_any(&self) -> (r: Option<usize>)
        ensures
            r == self@.any,
    {
        self.any
    }

    /// The catch-all wildcard child.
    pub fn match_any_path(&self) -> (r: Option<usize>)
        ensures
            r == self@.any_path,
    {
        self.any_path
    }

    /// The child that one segment selects: a literal, else the first
    /// matching regex, else the wildcard; the catch-all is not considered.
    pub fn match_one_segment(&self, segment: &str) -> (r: Option<usize>)
        requires
            self@.wf(),
        ensures
            r == (if lit_find(self@.literals, segment@) is Some {
                lit_find(self@.literals, segment@)
            } else if regex_cands(self@.regex, segment@, 0).len() > 0 {
                Some(regex_cands(self@.regex, segment@, 0)[0].0)
            } else {
                self@.any
            }),
    {
        match self.match_literal(segment) {
            Some(id) => Some(id),
            None => match self.match_regex(segment) {
                Some(id) => Some(id),
                None => self.any,
            },
        }
    }

    /// The next untried candidate for `segment` after state `st`, with the
    /// state to resume from; `(None, End)` once none is left.
    pub fn match_step(&self, segment: &str, st: PartialState) -> (r: (Option<usize>, PartialState))
        requires
            self@.wf(),
            st matches PartialState::Reg(i) ==> i < usize::MAX,
        ensures
            self@.candidates(segment@, st).len() == 0 ==> r.0 is None && r.1 is End,
            self@.candidates(segment@, st).len() > 0 ==> r.0 == Some(
                self@.candidates(segment@, st)[0].0,
            ) && r.1 == self@.candidates(segment@, st)[0].1,
            r.1 matches PartialState::Reg(j) ==> j < self@.regex.len(),
    {
        let ghost c = self@;
        let ghost ta = opt_cand(c.any, PartialState::Any);
        let ghost tp = opt_cand(c.any_path, PartialState::AnyPath);
        let from: usize = match st {
            PartialState::NotStart => 0,
            PartialState::Lit => 0,
            PartialState::Reg(i) => i + 1,
            PartialState::Any => {
                return match self.any_path {
                    Some(id) => (Some(id), PartialState::AnyPath),
                    None => (None, PartialState::End),
                };
            },
            _ => {
                return (None, PartialState::End);
            },
        };
        let ghost rc = regex_cands(c.regex, segment@, from as int);
        if let PartialState::NotStart = st {
            if let Some(id) = self.match_literal(segment) {
                return (Some(id), PartialState::Lit);
            }
            assert(c.candidates(segment@, st) =~= rc + ta + tp);
        }
        assert(c.candidates(segment@, st) =~= rc + ta + tp);
        if let Some((id, j)) = self.match_regex_with_idx(segment, from) {
            return (Some(id), PartialState::Reg(j));
        }
        assert(c.candidates(segment@, st) =~= ta + tp);
        if let Some(id) = self.any {
            return (Some(id), PartialState::Any);
        }
        assert(c.candidates(segment@, st) =~= tp);
        if let Some(id) = self.any_path {
            return (Some(id), PartialState::AnyPath);
        }
        (None, PartialState::End)
    }

    /// The first candidate for `segment` in lookup order.
    pub fn match_segment(&self, segment: &str) -> (r: Option<usize>)
        requires
            self@.wf(),
        ensures
            r == (if self@.candidates(segment@, PartialState::NotStart).len() > 0 {
                Some(self@.candidates(segment@, PartialState::NotStart)[0].0)
            } else {
                None::<usize>
            }),
    {
        self.match_step(segment, PartialState::NotStart).0
    }

    /// Every child id: literals in key order, then regexes in insertion
    /// order, the wildcard and the catch-all.
    pub fn all_nodes(&self) -> (r: Vec<usize>)
        ensures
            r@ == self@.all_ids(),
    {
        let mut r: Vec<usize> = Vec::new();
        let mut k: usize = 0;
        let ghost lits = self@.literals.map_values(|e: (Seq<char>, usize)| e.1);
        let ghost rs = self@.regex.map_values(|e: (Seq<char>, usize)| e.1);
        while k < self.literals.len()
            invariant
                k <= self.literals@.len(),
                lits.len() == self.literals@.len(),
                lits == self@.literals.map_values(|e: (Seq<char>, usize)| e.1),
                r@ == lits.take(k as int),
            decreases self.literals.len() - k,
        {
            r.push(self.literals[k].1);
            assert(r@ =~= lits.take(k + 1));
            k = k + 1;
        }
        assert(lits.take(k as int) =~= lits);
        let mut k: usize = 0;
        while k < self.regex.len()
            invariant
                k <= self.regex@.len(),
                rs.len() == self.regex@.len(),
                rs == self@.regex.map_values(|e: (Seq<char>, usize)| e.1),
                r@ == lits + rs.take(k as int),
            decreases self.regex.len() - k,
        {
            r.push(self.regex[k].1);
            assert(r@ =~= lits + rs.take(k + 1));
            k = k + 1;
        }
        assert(rs.take(k as int) =~= rs);
        if let Some(id) = self.any {
            r.push(id);
        }
        if let Some(id) = self.any_path {
            r.push(id);
        }
        assert(r@ =~= self@.all_ids());
        r
    }

    /// One line per child: `Literal: <key>`, `Regex: <source>`, `*` or `**`.
    pub fn display_string(&self) -> (r: String)
        ensures
            r@ == display_lines(self@),
    {
        let mut r = String::new();
        let mut k: usize = 0;
        let ghost lits = self@.literals;
        let ghost rs = self@.regex;
        while k < self.literals.len()
            invariant
                k <= self.literals@.len(),
                lits == self@.literals,
                lits.len() == self.literals@.len(),
                r@ == literal_lines(lits.take(k as int)),
            decreases self.literals.len() - k,
        {
            assert(lits.take(k + 1).drop_last() =~= lits.take(k as int));
            assert(lits[k as int].0 == self.literals@[k as int].0@);
            push_str(&mut r, "Literal: ");
            push_str(&mut r, self.literals[k].0.as_str());
            push_str(&mut r, "\n");
            k = k + 1;
        }
        assert(lits.take(k as int) =~= lits);
        let mut k: usize = 0;
        while k < self.regex.len()
            invariant
                k <= self.regex@.len(),
                rs == self@.regex,
                rs.len() == self.regex@.len(),
                r@ == literal_lines(lits) + regex_lines(rs.take(k as int)),
            decreases self.regex.len() - k,
        {
            assert(rs.take(k + 1).drop_last() =~= rs.take(k as int));
            assert(rs[k as int].0 == self.regex@[k as int].0.source());
            push_str(&mut r, "Regex: ");
            push_str(&mut r, self.regex[k].0.src());
            push_str(&mut r, "\n");
            k = k + 1;
        }
        assert(rs.take(k as int) =~= rs);
        if self.any.is_some() {
            push_str(&mut r, "*\n");
        }
        if self.any_path.is_some() {
            push_str(&mut r, "**\n");
        }
        r
    }
}


/// The lines that list the literal children.
pub open spec fn literal_lines(lits: Seq<(Seq<char>, usize)>) -> Seq<char>
    decreases lits.len(),
{
    if lits.len() == 0 {
        Seq::empty()
    } else {
        literal_lines(lits.drop_last()) + "Literal: "@ + lits.last().0 + "\n"@
    }
}

/// The lines that list the regex children.
pub open spec fn regex_lines(rs: Seq<(Seq<char>, usize)>) -> Seq<char>
    decreases rs.len(),
{
    if rs.len() == 0 {
        Seq::empty()
    } else {
        regex_lines(rs.drop_last()) + "Regex: "@ + rs.last().0 + "\n"@
    }
}

/// The listing of a child table, one line per child.
pub open spec fn display_lines(c: ChildrenV) -> Seq<char> {
    literal_lines(c.literals) + regex_lines(c.regex) + (if c.any is Some {
        "*\n"@
    } else {
        Seq::empty()
    }) + (if c.any_path is Some {
        "**\n"@
    } else {
        Seq::empty()
    })
}

} // verus!
