//! Character-level helpers shared by the parsers and the line classifier.

use vstd::prelude::*;

verus! {

/// Whether `p` is a prefix of `s`.
pub open spec fn has_prefix(s: Seq<char>, p: Seq<char>) -> bool {
    p.len() <= s.len() && s.subrange(0, p.len() as int) == p
}

/// Prepends `x` to the first piece of a non-empty sequence of pieces.
pub open spec fn join_first(x: Seq<char>, ps: Seq<Seq<char>>) -> Seq<Seq<char>>
    recommends
        ps.len() > 0,
{
    seq![x + ps[0]].add(ps.drop_first())
}

/// The pieces of `s` between the non-overlapping occurrences of the separator
/// `p`, found from the left; there is always at least one piece.
pub open spec fn split_by(s: Seq<char>, p: Seq<char>) -> Seq<Seq<char>>
    recommends
        p.len() > 0,
    decreases s.len(),
{
    if s.len() == 0 {
        seq![Seq::empty()]
    } else if p.len() > 0 && has_prefix(s, p) {
        seq![Seq::<char>::empty()].add(split_by(s.subrange(p.len() as int, s.len() as int), p))
    } else {
        join_first(seq![s[0]], split_by(s.drop_first(), p))
    }
}

pub proof fn lemma_split_nonempty(s: Seq<char>, p: Seq<char>)
    ensures
        split_by(s, p).len() > 0,
    decreases s.len(),
{
    if s.len() > 0 {
        if p.len() > 0 && has_prefix(s, p) {
            lemma_split_nonempty(s.subrange(p.len() as int, s.len() as int), p);
        } else {
            lemma_split_nonempty(s.drop_first(), p);
        }
    }
}

/// The characters of `s`, in order.
pub fn to_chars(s: &str) -> (r: Vec<char>)
    ensures
        r@ == s@,
{
    let mut r: Vec<char> = Vec::new();
    for c in it: s.chars()
        invariant
            r@ == it.seq().subrange(0, it.index()),
    {
        r.push(c);
    }
    r
}


proof fn lemma_join_empty(ps: Seq<Seq<char>>)
    requires
        ps.len() > 0,
    ensures
        join_first(Seq::empty(), ps) == ps,
{
    assert(Seq::<char>::empty() + ps[0] =~= ps[0]);
    assert(join_first(Seq::empty(), ps) =~= ps);
}

proof fn lemma_join_twice(x: Seq<char>, c: char, ps: Seq<Seq<char>>)
    requires
        ps.len() > 0,
    ensures
        join_first(x, join_first(seq![c], ps)) == join_first(x.push(c), ps),
{
    assert(x + (seq![c] + ps[0]) =~= x.push(c) + ps[0]);
    assert(join_first(x, join_first(seq![c], ps)) =~= join_first(x.push(c), ps));
}

/// Whether `p` occurs in `v` at position `i`.
pub fn occurs_at(v: &Vec<char>, p: &Vec<char>, i: usize) -> (r: bool)
    requires
        i <= v.len(),
    ensures
        r == has_prefix(v@.subrange(i as int, v.len() as int), p@),
{
    if p.len() > v.len() - i {
        return false;
    }
    let mut k: usize = 0;
    while k < p.len()
        invariant
            k <= p.len(),
            i + p.len() <= v.len(),
            forall|j: int| 0 <= j < k ==> v@[i + j] == p@[j],
        decreases p.len() - k,
    {
        if v[i + k] != p[k] {
            assert(v@.subrange(i as int, v.len() as int).subrange(0, p.len() as int)[k as int]
                != p@[k as int]);
            return false;
        }
        k = k + 1;
    }
    assert(v@.subrange(i as int, v.len() as int).subrange(0, p.len() as int) =~= p@);
    true
}

/// Whether `v` begins with `p`.
pub fn begins_with(v: &Vec<char>, p: &Vec<char>) -> (r: bool)
    ensures
        r == has_prefix(v@, p@),
{
    assert(v@.subrange(0, v.len() as int) =~= v@);
    occurs_at(v, p, 0)
}

/// The bounds of the pieces of `v` between the occurrences of `p`, as
/// `split_by` gives them.
pub fn split_bounds(v: &Vec<char>, p: &Vec<char>) -> (r: Vec<(usize, usize)>)
    requires
        p.len() > 0,
    ensures
        r.len() == split_by(v@, p@).len(),
        forall|j: int| 0 <= j < r.len() ==> #[trigger] r[j].0 <= r[j].1 && r[j].1 <= v.len(),
        forall|j: int|
            0 <= j < r.len() ==> v@.subrange(r[j].0 as int, r[j].1 as int) == #[trigger] split_by(
                v@,
                p@,
            )[j],
{
    let mut r: Vec<(usize, usize)> = Vec::new();
    let ghost mut done: Seq<Seq<char>> = Seq::empty();
    let mut cs: usize = 0;
    let mut i: usize = 0;
    let n: usize = v.len();
    proof {
        assert(v@.subrange(0, n as int) =~= v@);
        assert(v@.subrange(0, 0) =~= Seq::<char>::empty());
        lemma_split_nonempty(v@, p@);
        lemma_join_empty(split_by(v@, p@));
    }
    while i < n
        invariant
            n == v.len(),
            p.len() > 0,
            cs <= i <= n,
            r.len() == done.len(),
            forall|j: int| 0 <= j < r.len() ==> #[trigger] r[j].0 <= r[j].1 && r[j].1 <= n,
            forall|j: int|
                0 <= j < r.len() ==> v@.subrange(r[j].0 as int, r[j].1 as int) == #[trigger] done[j],
            split_by(v@, p@) == done + join_first(
                v@.subrange(cs as int, i as int),
                split_by(v@.subrange(i as int, n as int), p@),
            ),
        decreases n - i,
    {
        let ghost rest = v@.subrange(i as int, n as int);
        let ghost x = v@.subrange(cs as int, i as int);
        let ghost old_r = r@;
        let ghost old_done = done;
        if occurs_at(v, p, i) {
            proof {
                let tail = v@.subrange((i + p.len()) as int, n as int);
                assert(rest.subrange(p.len() as int, rest.len() as int) =~= tail);
                assert(split_by(rest, p@) == seq![Seq::<char>::empty()].add(split_by(tail, p@)));
                lemma_split_nonempty(tail, p@);
                lemma_join_empty(split_by(tail, p@));
                assert(x + Seq::<char>::empty() =~= x);
                assert(join_first(x, split_by(rest, p@)) =~= seq![x].add(split_by(tail, p@)));
                assert(done + join_first(x, split_by(rest, p@)) =~= done.push(x) + join_first(
                    Seq::empty(),
                    split_by(tail, p@),
                ));
                done = done.push(x);
            }
            r.push((cs, i));
            proof {
                assert forall|j: int| 0 <= j < r.len() implies {
                    &&& #[trigger] r[j].0 <= r[j].1 && r[j].1 <= n
                    &&& v@.subrange(r[j].0 as int, r[j].1 as int) == done[j]
                } by {
                    if j < r.len() - 1 {
                        assert(r[j] == old_r[j]);
                        assert(done[j] == old_done[j]);
                    } else {
                        assert(r[j] == (cs, i));
                        assert(done[j] == x);
                    }
                }
            }
            i = i + p.len();
            cs = i;
            proof {
                assert(v@.subrange(cs as int, i as int) =~= Seq::<char>::empty());
            }
        } else {
            proof {
                let tail = v@.subrange(i + 1, n as int);
                assert(rest.drop_first() =~= tail);
                lemma_split_nonempty(tail, p@);
                lemma_join_twice(x, v@[i as int], split_by(tail, p@));
                assert(x.push(v@[i as int]) =~= v@.subrange(cs as int, i + 1));
            }
            i = i + 1;
        }
    }
    proof {
        assert(v@.subrange(n as int, n as int) =~= Seq::<char>::empty());
        let x = v@.subrange(cs as int, n as int);
        assert(x + Seq::<char>::empty() =~= x);
        assert(join_first(x, seq![Seq::<char>::empty()]) =~= seq![x]);
        assert(split_by(v@, p@) =~= done.push(x));
        assert(forall|j: int| 0 <= j < done.len() ==> done.push(x)[j] == done[j]);
        done = done.push(x);
    }
    let ghost old_r = r@;
    r.push((cs, n));
    proof {
        assert(forall|j: int| 0 <= j < r.len() - 1 ==> r[j] == old_r[j]);
        assert forall|j: int| 0 <= j < r.len() implies {
            &&& #[trigger] r[j].0 <= r[j].1 && r[j].1 <= v.len()
            &&& v@.subrange(r[j].0 as int, r[j].1 as int) == split_by(v@, p@)[j]
        } by {
            assert(split_by(v@, p@)[j] == done[j]);
            if j < r.len() - 1 {
                assert(r[j] == old_r[j]);
            }
        }
    }
    r
}


/// The characters of an optional string.
pub open spec fn opt_chars(o: Option<&str>) -> Option<Seq<char>> {
    match o {
        Some(s) => Some(s@),
        None => None,
    }
}

/// Whether two strings hold the same characters.
pub fn same_chars(a: &str, b: &str) -> (r: bool)
    ensures
        r == (a@ == b@),
{
    let x = to_chars(a);
    let y = to_chars(b);
    if x.len() != y.len() {
        return false;
    }
    let mut i: usize = 0;
    while i < x.len()
        invariant
            x@ == a@,
            y@ == b@,
            x.len() == y.len(),
            i <= x.len(),
            forall|j: int| 0 <= j < i ==> x@[j] == y@[j],
        decreases x.len() - i,
    {
        if x[i] != y[i] {
            return false;
        }
        i = i + 1;
    }
    assert(x@ =~= y@);
    true
}

} // verus!
