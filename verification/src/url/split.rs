//! Splitting request paths into segments at `/`.

use vstd::prelude::*;

use crate::text::{chars_of, push_char};
use crate::url::parser::join_slash;

verus! {

/// The pieces of `s` between `/` characters, empty pieces included: `""`
/// gives `[""]`, `"/"` gives `["", ""]`, `"/a"` gives `["", "a"]`.
pub open spec fn split_slash(s: Seq<char>) -> Seq<Seq<char>>
    decreases s.len(),
{
    if s.len() == 0 {
        seq![Seq::empty()]
    } else {
        let p = split_slash(s.drop_last());
        if s.last() == '/' {
            p.push(Seq::empty())
        } else {
            p.update(p.len() - 1, p.last().push(s.last()))
        }
    }
}

/// The non-empty pieces, in order.
pub open spec fn drop_empty(segs: Seq<Seq<char>>) -> Seq<Seq<char>>
    decreases segs.len(),
{
    if segs.len() == 0 {
        segs
    } else {
        let p = drop_empty(segs.drop_last());
        if segs.last().len() > 0 {
            p.push(segs.last())
        } else {
            p
        }
    }
}

/// The strings of a sequence, as characters.
pub open spec fn strs_view(ss: Seq<String>) -> Seq<Seq<char>> {
    ss.map_values(|s: String| s@)
}

/// Splitting gives at least one piece, no piece holds a `/`, and joining
/// the pieces with `/` gives the string back.
pub proof fn lemma_split_join(s: Seq<char>)
    ensures
        split_slash(s).len() >= 1,
        forall|i: int, j: int|
            0 <= i < split_slash(s).len() && 0 <= j < split_slash(s)[i].len() ==> #[trigger] split_slash(s)[i][j] != '/',
        join_slash(split_slash(s)) == s,
    decreases s.len(),
{
    if s.len() > 0 {
        let s0 = s.drop_last();
        lemma_split_join(s0);
        let p = split_slash(s0);
        let c = s.last();
        if c == '/' {
            let q = p.push(Seq::<char>::empty());
            assert(q.drop_last() =~= p);
            assert(join_slash(q) == join_slash(p) + seq!['/'] + Seq::<char>::empty());
            assert(s =~= s0 + seq!['/'] + Seq::<char>::empty());
            assert forall|i: int, j: int| 0 <= i < q.len() && 0 <= j < q[i].len() implies #[trigger] q[i][j] != '/' by {
                if i < p.len() {
                    assert(q[i] == p[i]);
                }
            }
        } else {
            let n = p.len() - 1;
            let q = p.update(n, p.last().push(c));
            assert forall|i: int, j: int| 0 <= i < q.len() && 0 <= j < q[i].len() implies #[trigger] q[i][j] != '/' by {
                if i < n {
                    assert(q[i] == p[i]);
                } else if j < p.last().len() {
                    assert(q[i][j] == p[n][j]);
                }
            }
            if p.len() == 1 {
                assert(join_slash(p) == p[0]);
                assert(join_slash(q) == q[0]);
                assert(s =~= s0.push(c));
            } else {
                assert(q.drop_last() =~= p.drop_last());
                assert(join_slash(q) == join_slash(p.drop_last()) + seq!['/'] + q.last());
                assert(join_slash(p) == join_slash(p.drop_last()) + seq!['/'] + p.last());
                assert(q.last() == p.last().push(c));
                assert(s =~= s0.push(c));
                assert(s0 == join_slash(p));
                assert(s =~= join_slash(p.drop_last()) + seq!['/'] + q.last());
            }
        }
    }
}

/// Splits `path` at every `/`, keeping empty pieces.
pub fn split_path(path: &str) -> (r: Vec<String>)
    ensures
        strs_view(r@) == split_slash(path@),
{
    let cs = chars_of(path);
    let mut out: Vec<String> = Vec::new();
    let mut cur = String::new();
    let mut k: usize = 0;
    assert(cs@.take(0) =~= Seq::<char>::empty());
    assert(strs_view(out@).push(cur@) =~= seq![Seq::<char>::empty()]);
    while k < cs.len()
        invariant
            cs@ == path@,
            k <= cs@.len(),
            strs_view(out@).push(cur@) == split_slash(cs@.take(k as int)),
        decreases cs.len() - k,
    {
        let c = cs[k];
        let ghost prev = split_slash(cs@.take(k as int));
        assert(cs@.take(k + 1).drop_last() =~= cs@.take(k as int));
        assert(cs@.take(k + 1).last() == c);
        if c == '/' {
            let done = cur;
            out.push(done);
            cur = String::new();
            assert(strs_view(out@).push(cur@) =~= prev.push(Seq::<char>::empty()));
        } else {
            push_char(&mut cur, c);
            assert(strs_view(out@).push(cur@) =~= prev.update(prev.len() - 1, prev.last().push(c)));
        }
        k = k + 1;
    }
    assert(cs@.take(k as int) =~= path@);
    out.push(cur);
    assert(strs_view(out@) =~= split_slash(path@));
    out
}

/// The non-empty pieces of `path` between `/` characters.
pub fn path_segments(path: &str) -> (r: Vec<String>)
    ensures
        strs_view(r@) == drop_empty(split_slash(path@)),
{
    let all = split_path(path);
    let ghost sv = strs_view(all@);
    let mut out: Vec<String> = Vec::new();
    let mut k: usize = 0;
    assert(sv.take(0) =~= Seq::<Seq<char>>::empty());
    while k < all.len()
        invariant
            sv == strs_view(all@),
            k <= all@.len(),
            strs_view(out@) == drop_empty(sv.take(k as int)),
        decreases all.len() - k,
    {
        assert(sv.take(k + 1).drop_last() =~= sv.take(k as int));
        assert(sv.take(k + 1).last() == all@[k as int]@);
        if !all[k].as_str().is_empty() {
            out.push(all[k].clone());
            assert(strs_view(out@) =~= drop_empty(sv.take(k as int)).push(all@[k as int]@));
        }
        k = k + 1;
    }
    assert(sv.take(k as int) =~= sv);
    out
}

} // verus!
