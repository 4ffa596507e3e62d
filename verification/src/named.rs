//! Texts kept under the names of their objects, in the order of the names.
use vstd::prelude::*;
use crate::digest::ObjId;
use crate::model::Plain;

verus! {

/// `a` stands before `b` in the order of their bytes, a prefix first.
pub open spec fn before(a: Seq<u8>, b: Seq<u8>) -> bool
    decreases a.len(),
{
    if b.len() == 0 {
        false
    } else if a.len() == 0 {
        true
    } else if a[0] != b[0] {
        a[0] < b[0]
    } else {
        before(a.drop_first(), b.drop_first())
    }
}

/// The names stand in order, each once.
pub open spec fn in_order(s: Seq<(Seq<u8>, Seq<u8>)>) -> bool {
    forall|i: int, j: int| 0 <= i < j < s.len() ==> before((#[trigger] s[i]).0, (#[trigger] s[j]).0)
}

/// What is found under a name.
pub open spec fn aterm_named(aterms: Seq<(Seq<u8>, Seq<u8>)>, id: Seq<u8>) -> Option<Seq<u8>>
    decreases aterms.len(),
{
    if aterms.len() == 0 {
        None
    } else if aterms[0].0 == id {
        Some(aterms[0].1)
    } else {
        aterm_named(aterms.drop_first(), id)
    }
}

/// With a text under a name that is not there: before the first whose name is
/// greater.
pub open spec fn placed(
    s: Seq<(Seq<u8>, Seq<u8>)>,
    id: Seq<u8>,
    bytes: Seq<u8>,
) -> Seq<(Seq<u8>, Seq<u8>)>
    decreases s.len(),
{
    if s.len() == 0 {
        seq![(id, bytes)]
    } else if before(id, s[0].0) {
        seq![(id, bytes)] + s
    } else {
        seq![s[0]] + placed(s.drop_first(), id, bytes)
    }
}

/// No name stands before itself.
pub proof fn before_irreflexive(a: Seq<u8>)
    ensures
        !before(a, a),
    decreases a.len(),
{
    if a.len() > 0 {
        before_irreflexive(a.drop_first());
    }
}

pub proof fn before_transitive(a: Seq<u8>, b: Seq<u8>, c: Seq<u8>)
    requires
        before(a, b),
        before(b, c),
    ensures
        before(a, c),
    decreases a.len(),
{
    if a.len() > 0 && a[0] == b[0] && b[0] == c[0] {
        before_transitive(a.drop_first(), b.drop_first(), c.drop_first());
    }
}

pub proof fn before_total(a: Seq<u8>, b: Seq<u8>)
    ensures
        before(a, b) || before(b, a) || a == b,
    decreases a.len(),
{
    if a.len() > 0 && b.len() > 0 && a[0] == b[0] {
        before_total(a.drop_first(), b.drop_first());
        if a.drop_first() == b.drop_first() {
            assert(a =~= seq![a[0]] + a.drop_first());
            assert(b =~= seq![b[0]] + b.drop_first());
        }
    } else if a.len() == 0 && b.len() == 0 {
        assert(a =~= b);
    }
}

proof fn before_skips(a: Seq<u8>, b: Seq<u8>, i: int)
    requires
        0 <= i <= a.len(),
        i <= b.len(),
        a.take(i) == b.take(i),
    ensures
        before(a, b) == before(a.skip(i), b.skip(i)),
    decreases i,
{
    if i == 0 {
        assert(a.skip(0) =~= a);
        assert(b.skip(0) =~= b);
    } else {
        assert(a[0] == a.take(i)[0]);
        assert(b[0] == b.take(i)[0]);
        let x = a.drop_first();
        let y = b.drop_first();
        assert(x.take(i - 1) =~= a.take(i).drop_first());
        assert(y.take(i - 1) =~= b.take(i).drop_first());
        before_skips(x, y, i - 1);
        assert(x.skip(i - 1) =~= a.skip(i));
        assert(y.skip(i - 1) =~= b.skip(i));
    }
}

/// Whether a name stands before another.
pub fn stands_before(a: &ObjId, b: &ObjId) -> (r: bool)
    ensures
        r == before(a@, b@),
{
    let mut i: usize = 0;
    while i < 32
        invariant
            i <= 32,
            a@.take(i as int) == b@.take(i as int),
        decreases 32 - i,
    {
        let x = a.hash.bytes[i];
        let y = b.hash.bytes[i];
        if x != y {
            proof {
                before_skips(a@, b@, i as int);
                assert(a@.skip(i as int)[0] == x);
                assert(b@.skip(i as int)[0] == y);
            }
            return x < y;
        }
        proof {
            assert(a@.take(i + 1) =~= a@.take(i as int).push(x));
            assert(b@.take(i + 1) =~= b@.take(i as int).push(y));
        }
        i += 1;
    }
    proof {
        before_skips(a@, b@, i as int);
    }
    false
}

proof fn placed_at(s: Seq<(Seq<u8>, Seq<u8>)>, id: Seq<u8>, bytes: Seq<u8>, i: int)
    requires
        0 <= i <= s.len(),
        forall|j: int| 0 <= j < i ==> !before(id, (#[trigger] s[j]).0),
        i < s.len() ==> before(id, s[i].0),
    ensures
        placed(s, id, bytes) == s.insert(i, (id, bytes)),
    decreases i,
{
    if i == 0 {
        assert(placed(s, id, bytes) =~= s.insert(0, (id, bytes)));
    } else {
        let d = s.drop_first();
        assert forall|j: int| 0 <= j < i - 1 implies !before(id, (#[trigger] d[j]).0) by {
            assert(d[j] == s[j + 1]);
        }
        assert(!before(id, s[0].0));
        placed_at(d, id, bytes, i - 1);
        assert(placed(s, id, bytes) =~= s.insert(i, (id, bytes)));
    }
}

/// A text that was placed is found under its name, the others stay, and the
/// names still stand in order.
pub proof fn placing_keeps_the_order(
    s: Seq<(Seq<u8>, Seq<u8>)>,
    id: Seq<u8>,
    bytes: Seq<u8>,
    other: Seq<u8>,
)
    requires
        in_order(s),
        aterm_named(s, id) is None,
    ensures
        in_order(placed(s, id, bytes)),
        aterm_named(placed(s, id, bytes), other) == (if other == id {
            Some(bytes)
        } else {
            aterm_named(s, other)
        }),
        forall|i: int|
            0 <= i < placed(s, id, bytes).len() ==> (#[trigger] placed(s, id, bytes)[i]).0 == id
                || s.contains(placed(s, id, bytes)[i]),
    decreases s.len(),
{
    let p = placed(s, id, bytes);
    if s.len() == 0 {
        assert(p.drop_first() =~= s);
    } else if before(id, s[0].0) {
        assert(p.drop_first() =~= s);
        assert forall|i: int, j: int| 0 <= i < j < p.len() implies before(
            (#[trigger] p[i]).0,
            (#[trigger] p[j]).0,
        ) by {
            if i == 0 {
                if j > 1 {
                    assert(before(s[0].0, s[j - 1].0));
                    before_transitive(id, s[0].0, s[j - 1].0);
                }
            } else {
                assert(p[i] == s[i - 1] && p[j] == s[j - 1]);
            }
        }
        assert forall|i: int| 0 <= i < p.len() implies (#[trigger] p[i]).0 == id || s.contains(
            p[i],
        ) by {
            if i > 0 {
                assert(p[i] == s[i - 1]);
            }
        }
    } else {
        let d = s.drop_first();
        let q = placed(d, id, bytes);
        assert forall|i: int, j: int| 0 <= i < j < d.len() implies before(
            (#[trigger] d[i]).0,
            (#[trigger] d[j]).0,
        ) by {
            assert(d[i] == s[i + 1] && d[j] == s[j + 1]);
        }
        placing_keeps_the_order(d, id, bytes, other);
        assert(p.drop_first() =~= q);
        before_total(id, s[0].0);
        assert forall|i: int| 0 <= i < p.len() implies (#[trigger] p[i]).0 == id || s.contains(
            p[i],
        ) by {
            if i == 0 {
                assert(p[0] == s[0]);
            } else {
                assert(p[i] == q[i - 1]);
                if q[i - 1].0 != id {
                    let k = d.index_of(q[i - 1]);
                    assert(s[k + 1] == p[i]);
                }
            }
        }
        assert forall|i: int, j: int| 0 <= i < j < p.len() implies before(
            (#[trigger] p[i]).0,
            (#[trigger] p[j]).0,
        ) by {
            if i == 0 {
                assert(p[j] == q[j - 1]);
                if q[j - 1].0 != id {
                    let k = d.index_of(q[j - 1]);
                    assert(s[k + 1] == q[j - 1]);
                    assert(before(s[0].0, s[k + 1].0));
                }
            } else {
                assert(p[i] == q[i - 1] && p[j] == q[j - 1]);
            }
        }
    }
}

/// What stands under a name.
pub fn aterm_of(aterms: &Vec<(ObjId, Vec<u8>)>, id: &ObjId) -> (r: Option<Vec<u8>>)
    ensures
        r.deep_view() == aterm_named(aterms.deep_view(), id@),
{
    let ghost all = aterms.deep_view();
    let mut i: usize = 0;
    assert(all.skip(0) =~= all);
    while i < aterms.len()
        invariant
            i <= aterms.len(),
            all == aterms.deep_view(),
            aterm_named(all, id@) == aterm_named(all.skip(i as int), id@),
        decreases aterms.len() - i,
    {
        proof {
            assert(all.skip(i as int).drop_first() =~= all.skip(i + 1));
            assert(all.skip(i as int)[0] == aterms@[i as int].deep_view());
        }
        if aterms[i].0.same(id) {
            return Some(aterms[i].1.copied());
        }
        i += 1;
    }
    None
}

/// Places a text under a name that is not there.
pub fn place_aterm(aterms: &mut Vec<(ObjId, Vec<u8>)>, id: &ObjId, bytes: Vec<u8>)
    ensures
        final(aterms).deep_view() == placed(old(aterms).deep_view(), id@, bytes@),
{
    let ghost all = aterms.deep_view();
    let mut i: usize = 0;
    while i < aterms.len() && !stands_before(id, &aterms[i].0)
        invariant
            i <= aterms.len(),
            all == aterms.deep_view(),
            forall|j: int| 0 <= j < i ==> !before(id@, (#[trigger] all[j]).0),
        decreases aterms.len() - i,
    {
        assert(all[i as int] == aterms@[i as int].deep_view());
        i += 1;
    }
    proof {
        if i < aterms.len() {
            assert(all[i as int] == aterms@[i as int].deep_view());
        }
        placed_at(all, id@, bytes@, i as int);
        assert(bytes.deep_view() =~= bytes@);
    }
    aterms.insert(i, (*id, bytes));
    assert(aterms.deep_view() =~= all.insert(i as int, (id@, bytes@)));
}

/// A name stands before another where they first differ by a lesser byte, or
/// where it ends there.
pub proof fn when_a_name_stands_before(a: Seq<u8>, b: Seq<u8>, i: int)
    requires
        0 <= i < b.len(),
        i <= a.len(),
        a.take(i) == b.take(i),
        i < a.len() ==> a[i] != b[i],
    ensures
        before(a, b) <==> i == a.len() || a[i] < b[i],
{
    before_skips(a, b, i);
    if i < a.len() {
        assert(a.skip(i)[0] == a[i]);
    }
    assert(b.skip(i)[0] == b[i]);
}

} // verus!
