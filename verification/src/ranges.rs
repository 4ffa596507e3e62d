//! Ranges of positions, and the runs that they cover.
use vstd::prelude::*;

verus! {

/// Ranges, each from its first position to the one after its last.
pub type Ranges = Seq<(usize, usize)>;

/// A range covers the position.
pub open spec fn lit(r: Ranges, x: int) -> bool {
    exists|i: int| 0 <= i < r.len() && (#[trigger] r[i]).0 <= x < r[i].1
}

/// Ranges that hold something, in order, with a gap between each two.
pub open spec fn gapped(r: Ranges) -> bool {
    &&& forall|i: int| 0 <= i < r.len() ==> (#[trigger] r[i]).0 < r[i].1
    &&& forall|i: int, j: int|
        0 <= i < j < r.len() ==> (#[trigger] r[i]).1 < (#[trigger] r[j]).0
}

/// `m` is the runs of positions that the ranges cover.
pub open spec fn runs(m: Ranges, r: Ranges) -> bool {
    gapped(m) && forall|x: int| #[trigger] lit(m, x) == lit(r, x)
}

proof fn first_of(m: Ranges, k: Ranges)
    requires
        gapped(m),
        gapped(k),
        m.len() > 0,
        k.len() > 0,
        forall|x: int| #[trigger] lit(m, x) == lit(k, x),
    ensures
        k[0].0 <= m[0].0,
        k[0].0 == m[0].0 ==> k[0].1 <= m[0].1,
{
    assert(lit(m, m[0].0 as int)) by {
        assert(m[0].0 <= m[0].0 < m[0].1);
    }
    assert(lit(k, m[0].0 as int));
    let i = choose|i: int| 0 <= i < k.len() && (#[trigger] k[i]).0 <= m[0].0 < k[i].1;
    if i > 0 {
        assert(k[0].1 < k[i].0);
    }
    if k[0].0 == m[0].0 && k[0].1 > m[0].1 {
        let x = m[0].1 as int;
        assert(k[0].0 <= x < k[0].1);
        assert(lit(k, x));
        assert(lit(m, x));
        let j = choose|j: int| 0 <= j < m.len() && (#[trigger] m[j]).0 <= x < m[j].1;
        assert(j > 0);
        assert(m[0].1 < m[j].0);
    }
}

proof fn rest_lit(m: Ranges, x: int)
    requires
        gapped(m),
        m.len() > 0,
    ensures
        lit(m.drop_first(), x) == (lit(m, x) && x >= m[0].1),
{
    let rest = m.drop_first();
    if lit(rest, x) {
        let i = choose|i: int| 0 <= i < rest.len() && (#[trigger] rest[i]).0 <= x < rest[i].1;
        assert(rest[i] == m[i + 1]);
        assert(m[0].1 < m[i + 1].0);
    }
    if lit(m, x) && x >= m[0].1 {
        let i = choose|i: int| 0 <= i < m.len() && (#[trigger] m[i]).0 <= x < m[i].1;
        assert(i > 0);
        assert(rest[i - 1] == m[i]);
    }
}

proof fn rest_gapped(m: Ranges)
    requires
        gapped(m),
        m.len() > 0,
    ensures
        gapped(m.drop_first()),
{
    let rest = m.drop_first();
    assert forall|i: int| 0 <= i < rest.len() implies (#[trigger] rest[i]).0 < rest[i].1 by {
        assert(rest[i] == m[i + 1]);
    }
    assert forall|i: int, j: int| 0 <= i < j < rest.len() implies (#[trigger] rest[i]).1 < (
    #[trigger] rest[j]).0 by {
        assert(rest[i] == m[i + 1] && rest[j] == m[j + 1]);
    }
}

proof fn gapped_are_one(m: Ranges, k: Ranges)
    requires
        gapped(m),
        gapped(k),
        forall|x: int| #[trigger] lit(m, x) == lit(k, x),
    ensures
        m == k,
    decreases m.len(),
{
    if m.len() == 0 {
        if k.len() > 0 {
            assert(k[0].0 <= k[0].0 < k[0].1);
            assert(lit(k, k[0].0 as int));
            assert(!lit(m, k[0].0 as int));
        }
        assert(m =~= k);
    } else if k.len() == 0 {
        assert(m[0].0 <= m[0].0 < m[0].1);
        assert(lit(m, m[0].0 as int));
        assert(!lit(k, m[0].0 as int));
    } else {
        first_of(m, k);
        first_of(k, m);
        assert(m[0] == k[0]);
        rest_gapped(m);
        rest_gapped(k);
        assert forall|x: int| #[trigger] lit(m.drop_first(), x) == lit(k.drop_first(), x) by {
            rest_lit(m, x);
            rest_lit(k, x);
            assert(lit(m, x) == lit(k, x));
        }
        gapped_are_one(m.drop_first(), k.drop_first());
        assert(m =~= seq![m[0]] + m.drop_first());
        assert(k =~= seq![k[0]] + k.drop_first());
    }
}

/// Ranges cover one sequence of runs, whatever their order.
pub proof fn runs_are_one(m: Ranges, k: Ranges, r: Ranges)
    requires
        runs(m, r),
        runs(k, r),
    ensures
        m == k,
{
    assert forall|x: int| #[trigger] lit(m, x) == lit(k, x) by {
        assert(lit(m, x) == lit(r, x));
        assert(lit(k, x) == lit(r, x));
    }
    gapped_are_one(m, k);
}

/// The runs of the positions before `n` that the ranges cover.
proof fn runs_before(r: Ranges, n: int) -> (m: Ranges)
    requires
        0 <= n <= usize::MAX,
    ensures
        gapped(m),
        forall|i: int| 0 <= i < m.len() ==> (#[trigger] m[i]).1 <= n,
        forall|x: int| #[trigger] lit(m, x) == (x < n && lit(r, x)),
    decreases n,
{
    if n == 0 {
        let none = Seq::<(usize, usize)>::empty();
        assert forall|x: int| #[trigger] lit(none, x) == (x < 0 && lit(r, x)) by {}
        none
    } else {
        let m = runs_before(r, n - 1);
        let x = n - 1;
        if !lit(r, x) {
            assert forall|y: int| #[trigger] lit(m, y) == (y < n && lit(r, y)) by {}
            m
        } else if m.len() > 0 && m.last().1 == x {
            let last = (m.last().0, n as usize);
            let front = m.drop_last();
            let k = front.push(last);
            assert(m =~= front.push(m.last()));
            assert forall|y: int| #[trigger] lit(k, y) == (y < n && lit(r, y)) by {
                lit_push(front, last, y);
                lit_push(front, m.last(), y);
                assert(lit(m, y) == (y < x && lit(r, y)));
                assert(m[m.len() - 1].0 < m[m.len() - 1].1);
            }
            assert(gapped(k)) by {
                assert forall|i: int| 0 <= i < k.len() implies (#[trigger] k[i]).0 < k[i].1 by {
                    assert(m[i].0 < m[i].1);
                }
                assert forall|i: int, j: int| 0 <= i < j < k.len() implies (#[trigger] k[i]).1 < (
                #[trigger] k[j]).0 by {
                    assert(m[i].1 < m[j].0);
                }
            }
            k
        } else {
            let last = (x as usize, n as usize);
            let k = m.push(last);
            assert forall|y: int| #[trigger] lit(k, y) == (y < n && lit(r, y)) by {
                lit_push(m, last, y);
                assert(lit(m, y) == (y < x && lit(r, y)));
            }
            assert(gapped(k)) by {
                assert forall|i: int| 0 <= i < k.len() implies (#[trigger] k[i]).0 < k[i].1 by {
                    if i < m.len() {
                        assert(m[i].0 < m[i].1);
                    }
                }
                assert forall|i: int, j: int| 0 <= i < j < k.len() implies (#[trigger] k[i]).1 < (
                #[trigger] k[j]).0 by {
                    if j < m.len() {
                        assert(m[i].1 < m[j].0);
                    } else {
                        assert(m[i].1 <= x);
                        if i < m.len() - 1 {
                            assert(m[i].1 < m[m.len() - 1].0);
                            assert(m[m.len() - 1].0 < m[m.len() - 1].1 <= x);
                        }
                    }
                }
            }
            k
        }
    }
}

/// The runs of ranges are what they are called.
pub proof fn runs_there_are(r: Ranges)
    ensures
        runs(runs_of(r), r),
{
    let m = runs_before(r, usize::MAX as int);
    assert forall|x: int| #[trigger] lit(m, x) == lit(r, x) by {
        if lit(r, x) {
            let i = choose|i: int| 0 <= i < r.len() && (#[trigger] r[i]).0 <= x < r[i].1;
            assert(x < usize::MAX);
        }
    }
    assert(runs(m, r));
}

/// A run begins where a range begins, and ends where a range ends.
pub proof fn runs_end_with_ranges(m: Ranges, r: Ranges, k: int)
    requires
        runs(m, r),
        0 <= k < m.len(),
    ensures
        exists|i: int| 0 <= i < r.len() && (#[trigger] r[i]).0 == m[k].0 && r[i].0 < r[i].1,
        exists|i: int| 0 <= i < r.len() && (#[trigger] r[i]).1 == m[k].1 && r[i].0 < r[i].1,
{
    let a = m[k].0 as int;
    let b = m[k].1 as int;
    assert(m[k].0 <= a < m[k].1);
    assert(lit(m, a));
    assert(lit(r, a));
    let i = choose|i: int| 0 <= i < r.len() && (#[trigger] r[i]).0 <= a < r[i].1;
    if r[i].0 < a {
        assert(r[i].0 <= a - 1 < r[i].1);
        assert(lit(r, a - 1));
        assert(lit(m, a - 1));
        let j = choose|j: int| 0 <= j < m.len() && (#[trigger] m[j]).0 <= a - 1 < m[j].1;
        if j < k {
            assert(m[j].1 < m[k].0);
        } else if k < j {
            assert(m[k].1 < m[j].0);
        }
    }
    assert(m[k].0 <= b - 1 < m[k].1);
    assert(lit(m, b - 1));
    assert(lit(r, b - 1));
    let n = choose|n: int| 0 <= n < r.len() && (#[trigger] r[n]).0 <= b - 1 < r[n].1;
    if r[n].1 > b {
        assert(r[n].0 <= b < r[n].1);
        assert(lit(r, b));
        assert(lit(m, b));
        let j = choose|j: int| 0 <= j < m.len() && (#[trigger] m[j]).0 <= b < m[j].1;
        if j < k {
            assert(m[j].1 < m[k].0);
        } else if k < j {
            assert(m[k].1 < m[j].0);
        }
    }
}

/// The runs that the ranges cover.
pub open spec fn runs_of(r: Ranges) -> Ranges {
    choose|m: Ranges| runs(m, r)
}

proof fn lit_push(r: Ranges, p: (usize, usize), x: int)
    ensures
        lit(r.push(p), x) == (lit(r, x) || p.0 <= x < p.1),
{
    let s = r.push(p);
    if lit(r, x) {
        let i = choose|i: int| 0 <= i < r.len() && (#[trigger] r[i]).0 <= x < r[i].1;
        assert(s[i] == r[i]);
    }
    if p.0 <= x < p.1 {
        assert(s[r.len() as int] == p);
    }
    if lit(s, x) {
        let i = choose|i: int| 0 <= i < s.len() && (#[trigger] s[i]).0 <= x < s[i].1;
        if i < r.len() {
            assert(r[i] == s[i]);
        }
    }
}

proof fn lit_insert(r: Ranges, at: int, p: (usize, usize), x: int)
    requires
        0 <= at <= r.len(),
    ensures
        lit(r.insert(at, p), x) == (lit(r, x) || p.0 <= x < p.1),
{
    let s = r.insert(at, p);
    if lit(r, x) {
        let i = choose|i: int| 0 <= i < r.len() && (#[trigger] r[i]).0 <= x < r[i].1;
        if i < at {
            assert(s[i] == r[i]);
        } else {
            assert(s[i + 1] == r[i]);
        }
    }
    if p.0 <= x < p.1 {
        assert(s[at] == p);
    }
    if lit(s, x) {
        let i = choose|i: int| 0 <= i < s.len() && (#[trigger] s[i]).0 <= x < s[i].1;
        if i < at {
            assert(r[i] == s[i]);
        } else if i > at {
            assert(r[i - 1] == s[i]);
        }
    }
}

/// Ranges by where they begin.
pub open spec fn by_start(r: Ranges) -> bool {
    forall|i: int, j: int| 0 <= i < j < r.len() ==> (#[trigger] r[i]).0 <= (#[trigger] r[j]).0
}

/// The ranges that hold something, by where they begin.
fn sorted(ranges: &Vec<(usize, usize)>) -> (r: Vec<(usize, usize)>)
    ensures
        by_start(r@),
        forall|i: int| 0 <= i < r@.len() ==> (#[trigger] r@[i]).0 < r@[i].1,
        forall|x: int| #[trigger] lit(r@, x) == lit(ranges@, x),
{
    let mut r: Vec<(usize, usize)> = Vec::new();
    let mut i: usize = 0;
    while i < ranges.len()
        invariant
            i <= ranges.len(),
            by_start(r@),
            forall|j: int| 0 <= j < r@.len() ==> (#[trigger] r@[j]).0 < r@[j].1,
            forall|x: int| #[trigger] lit(r@, x) == lit(ranges@.take(i as int), x),
        decreases ranges.len() - i,
    {
        let p = ranges[i];
        let ghost before = r@;
        if p.0 < p.1 {
            let mut at: usize = r.len();
            while at > 0 && r[at - 1].0 > p.0
                invariant
                    at <= r.len(),
                    r@ == before,
                    by_start(r@),
                    forall|j: int| at <= j < r@.len() ==> (#[trigger] r@[j]).0 > p.0,
                decreases at,
            {
                at -= 1;
            }
            r.insert(at, p);
            proof {
                assert(r@ =~= before.insert(at as int, p));
                assert forall|x: int| #[trigger] lit(r@, x) == (lit(before, x) || p.0 <= x
                    < p.1) by {
                    lit_insert(before, at as int, p, x);
                }
                assert forall|a: int, b: int| 0 <= a < b < r@.len() implies (#[trigger] r@[a]).0
                    <= (#[trigger] r@[b]).0 by {
                    let c = if a < at {
                        a
                    } else {
                        a - 1
                    };
                    let d = if b < at {
                        b
                    } else {
                        b - 1
                    };
                    if a == at {
                        assert(r@[b] == before[d]);
                    } else if b == at {
                        assert(r@[a] == before[c]);
                        if at > 0 && c < at - 1 {
                            assert(before[c].0 <= before[at - 1].0);
                        }
                    } else {
                        assert(r@[a] == before[c] && r@[b] == before[d]);
                    }
                }
                assert forall|j: int| 0 <= j < r@.len() implies (#[trigger] r@[j]).0 < r@[j].1 by {
                    if j < at {
                        assert(r@[j] == before[j]);
                    } else if j > at {
                        assert(r@[j] == before[j - 1]);
                    }
                }
            }
        }
        proof {
            assert(ranges@.take(i + 1) =~= ranges@.take(i as int).push(p));
            assert forall|x: int| #[trigger] lit(r@, x) == lit(ranges@.take(i + 1), x) by {
                lit_push(ranges@.take(i as int), p, x);
                assert(lit(before, x) == lit(ranges@.take(i as int), x));
            }
        }
        i += 1;
    }
    assert(ranges@.take(i as int) =~= ranges@);
    r
}

/// The last run grows to take in a range that begins in it or at its end.
proof fn grown(m: Ranges, p: (usize, usize), end: usize)
    requires
        gapped(m),
        m.len() > 0,
        p.0 < p.1,
        m.last().0 <= p.0 <= m.last().1,
        end >= p.1,
        end >= m.last().1,
        end == p.1 || end == m.last().1,
    ensures
        gapped(m.drop_last().push((m.last().0, end))),
        forall|x: int| #[trigger]
            lit(m.drop_last().push((m.last().0, end)), x) == (lit(m, x) || p.0 <= x < p.1),
{
    let q = (m.last().0, end);
    let head = m.drop_last();
    let g = head.push(q);
    let n = m.len() - 1;
    assert forall|i: int| 0 <= i < g.len() implies (#[trigger] g[i]).0 < g[i].1 by {
        if i < n {
            assert(g[i] == m[i]);
        } else {
            assert(m[n].0 < m[n].1);
        }
    }
    assert forall|i: int, j: int| 0 <= i < j < g.len() implies (#[trigger] g[i]).1 < (
    #[trigger] g[j]).0 by {
        assert(g[i] == m[i]);
        if j < n {
            assert(g[j] == m[j]);
        } else {
            assert(m[i].1 < m[n].0);
        }
    }
    assert forall|x: int| #[trigger] lit(g, x) == (lit(m, x) || p.0 <= x < p.1) by {
        lit_push(head, q, x);
        lit_push(head, m.last(), x);
        assert(head.push(m.last()) =~= m);
    }
}

/// A range that begins after the last run is a run.
proof fn added(m: Ranges, p: (usize, usize))
    requires
        gapped(m),
        p.0 < p.1,
        m.len() > 0 ==> m.last().1 < p.0,
    ensures
        gapped(m.push(p)),
        forall|x: int| #[trigger] lit(m.push(p), x) == (lit(m, x) || p.0 <= x < p.1),
{
    let g = m.push(p);
    assert forall|i: int| 0 <= i < g.len() implies (#[trigger] g[i]).0 < g[i].1 by {
        if i < m.len() {
            assert(g[i] == m[i]);
        }
    }
    assert forall|i: int, j: int| 0 <= i < j < g.len() implies (#[trigger] g[i]).1 < (
    #[trigger] g[j]).0 by {
        assert(g[i] == m[i]);
        if j < m.len() {
            assert(g[j] == m[j]);
        } else if i < m.len() - 1 {
            assert(m[i].1 < m[m.len() - 1].0);
            assert(m[m.len() - 1].0 < m[m.len() - 1].1);
        }
    }
    assert forall|x: int| #[trigger] lit(g, x) == (lit(m, x) || p.0 <= x < p.1) by {
        lit_push(m, p, x);
    }
}

/// The runs of positions that the ranges cover.
pub fn merged(ranges: &Vec<(usize, usize)>) -> (m: Vec<(usize, usize)>)
    ensures
        runs(m@, ranges@),
        m@ == runs_of(ranges@),
{
    let s = sorted(ranges);
    let mut m: Vec<(usize, usize)> = Vec::new();
    let mut i: usize = 0;
    while i < s.len()
        invariant
            i <= s.len(),
            by_start(s@),
            forall|j: int| 0 <= j < s@.len() ==> (#[trigger] s@[j]).0 < s@[j].1,
            gapped(m@),
            m@.len() > 0 ==> i > 0 && m@.last().0 <= s@[i - 1].0,
            forall|x: int| #[trigger] lit(m@, x) == lit(s@.take(i as int), x),
        decreases s.len() - i,
    {
        let p = s[i];
        let ghost before = m@;
        proof {
            assert(s@[i as int].0 < s@[i as int].1);
            if i > 0 {
                assert(s@[i - 1].0 <= s@[i as int].0);
            }
        }
        let n = m.len();
        if n > 0 && p.0 <= m[n - 1].1 {
            let last = m[n - 1];
            let end = if p.1 > last.1 {
                p.1
            } else {
                last.1
            };
            proof {
                grown(before, p, end);
            }
            m[n - 1] = (last.0, end);
            assert(m@ =~= before.drop_last().push((last.0, end)));
            assert forall|x: int| #[trigger] lit(m@, x) == (lit(before, x) || p.0 <= x < p.1) by {}
        } else {
            proof {
                added(before, p);
            }
            m.push(p);
            assert forall|x: int| #[trigger] lit(m@, x) == (lit(before, x) || p.0 <= x < p.1) by {}
        }
        proof {
            assert(s@.take(i + 1) =~= s@.take(i as int).push(p));
            assert forall|x: int| #[trigger] lit(m@, x) == lit(s@.take(i + 1), x) by {
                lit_push(s@.take(i as int), p, x);
                assert(lit(before, x) == lit(s@.take(i as int), x));
            }
        }
        i += 1;
    }
    proof {
        assert(s@.take(i as int) =~= s@);
        assert forall|x: int| #[trigger] lit(m@, x) == lit(ranges@, x) by {
            assert(lit(s@, x) == lit(ranges@, x));
        }
        assert(runs(m@, ranges@));
        runs_are_one(m@, runs_of(ranges@), ranges@);
    }
    m
}

/// A position is in one of the runs exactly where it is in one of the ranges,
/// and no two runs touch.
pub proof fn runs_cover_what_the_ranges_cover(r: Ranges, x: int)
    ensures
        (exists|k: int|
            0 <= k < runs_of(r).len() && (#[trigger] runs_of(r)[k]).0 <= x < runs_of(r)[k].1) == (
        exists|i: int| 0 <= i < r.len() && (#[trigger] r[i]).0 <= x < r[i].1),
        forall|j: int, k: int|
            0 <= j < k < runs_of(r).len() ==> (#[trigger] runs_of(r)[j]).1 < (
            #[trigger] runs_of(r)[k]).0,
{
    runs_there_are(r);
    assert(lit(runs_of(r), x) == lit(r, x));
}

} // verus!
