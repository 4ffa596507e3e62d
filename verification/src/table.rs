//! Tables with named entries, as values.
use vstd::prelude::*;
use crate::codec::{CanonV, CanonValue};
use crate::text;

verus! {

/// The entries of a table.
pub open spec fn pairs(v: Seq<(CanonValue, CanonValue)>) -> Seq<(CanonV, CanonV)> {
    Seq::new(v.len(), |i: int| (v[i].0@, v[i].1@))
}

proof fn canon_table(v: Vec<(CanonValue, CanonValue)>)
    ensures
        CanonValue::Table(v)@ == CanonV::Table(pairs(v@)),
{
    if let CanonV::Table(s) = CanonValue::Table(v)@ {
        assert(s =~= pairs(v@));
    }
}

/// The first text under a name.
pub open spec fn text_field(t: Seq<(CanonV, CanonV)>, name: Seq<char>) -> Option<Seq<char>>
    decreases t.len(),
{
    if t.len() == 0 {
        None
    } else {
        match t[0] {
            (CanonV::Str(k), CanonV::Str(v)) => if k == name {
                Some(v)
            } else {
                text_field(t.drop_first(), name)
            },
            _ => text_field(t.drop_first(), name),
        }
    }
}

/// The first list under a name.
pub open spec fn list_field(t: Seq<(CanonV, CanonV)>, name: Seq<char>) -> Option<Seq<CanonV>>
    decreases t.len(),
{
    if t.len() == 0 {
        None
    } else {
        match t[0] {
            (CanonV::Str(k), CanonV::Array(v)) => if k == name {
                Some(v)
            } else {
                list_field(t.drop_first(), name)
            },
            _ => list_field(t.drop_first(), name),
        }
    }
}

/// The entries of a value that is a table.
pub fn entries(value: &CanonValue) -> (r: Option<&Vec<(CanonValue, CanonValue)>>)
    ensures
        match r {
            Some(t) => value@ == CanonV::Table(pairs(t@)),
            None => value@ !is Table,
        },
{
    match value {
        CanonValue::Table(t) => {
            proof {
                canon_table(*t);
            }
            Some(t)
        },
        _ => None,
    }
}

/// A table of named entries.
pub fn table(names: Vec<&'static str>, values: Vec<CanonValue>) -> (r: CanonValue)
    requires
        names.len() == values.len(),
    ensures
        r@ == CanonV::Table(
            Seq::new(names@.len(), |i: int| (CanonV::Str(names@[i]@), values@[i]@)),
        ),
{
    let ghost all = Seq::new(names@.len(), |i: int| (CanonV::Str(names@[i]@), values@[i]@));
    let ghost given = values@;
    let mut rest = values;
    let mut t: Vec<(CanonValue, CanonValue)> = Vec::new();
    let mut i: usize = 0;
    while i < names.len()
        invariant
            i <= names.len(),
            given.len() == names.len(),
            rest@ == given.skip(i as int),
            all == Seq::new(names@.len(), |i: int| (CanonV::Str(names@[i]@), given[i]@)),
            pairs(t@) =~= all.take(i as int),
        decreases names.len() - i,
    {
        let v = rest.remove(0);
        let k = CanonValue::Str(names[i].to_owned());
        proof {
            assert(v == given[i as int]);
            assert(rest@ =~= given.skip(i + 1));
            assert(all.take(i + 1) =~= all.take(i as int).push((k@, v@)));
            assert(pairs(t@.push((k, v))) =~= pairs(t@).push((k@, v@)));
        }
        t.push((k, v));
        i += 1;
    }
    proof {
        assert(all.take(i as int) =~= all);
        canon_table(t);
    }
    CanonValue::Table(t)
}

/// The first text under a name.
pub fn text_of<'a>(t: &'a Vec<(CanonValue, CanonValue)>, name: &str) -> (r: Option<&'a String>)
    ensures
        match r {
            Some(s) => text_field(pairs(t@), name@) == Some(s@),
            None => text_field(pairs(t@), name@) is None,
        },
{
    let ghost all = pairs(t@);
    let mut i: usize = 0;
    assert(all.skip(0) =~= all);
    while i < t.len()
        invariant
            i <= t.len(),
            all == pairs(t@),
            text_field(all, name@) == text_field(all.skip(i as int), name@),
        decreases t.len() - i,
    {
        proof {
            assert(all.skip(i as int).drop_first() =~= all.skip(i + 1));
            assert(all.skip(i as int)[0] == all[i as int]);
        }
        if let CanonValue::Str(k) = &t[i].0 {
            if let CanonValue::Str(v) = &t[i].1 {
                if text::same(k.as_str(), name) {
                    return Some(v);
                }
            }
        }
        i += 1;
    }
    None
}

/// The first list under a name.
pub fn list_of<'a>(t: &'a Vec<(CanonValue, CanonValue)>, name: &str) -> (r: Option<
    &'a Vec<CanonValue>,
>)
    ensures
        match r {
            Some(v) => list_field(pairs(t@), name@) == Some(crate::model::deep(v@)),
            None => list_field(pairs(t@), name@) is None,
        },
{
    let ghost all = pairs(t@);
    let mut i: usize = 0;
    assert(all.skip(0) =~= all);
    while i < t.len()
        invariant
            i <= t.len(),
            all == pairs(t@),
            list_field(all, name@) == list_field(all.skip(i as int), name@),
        decreases t.len() - i,
    {
        proof {
            assert(all.skip(i as int).drop_first() =~= all.skip(i + 1));
            assert(all.skip(i as int)[0] == all[i as int]);
        }
        if let CanonValue::Str(k) = &t[i].0 {
            if let CanonValue::Array(v) = &t[i].1 {
                proof {
                    crate::codec::canon_array(*v);
                }
                if text::same(k.as_str(), name) {
                    return Some(v);
                }
            }
        }
        i += 1;
    }
    None
}

} // verus!
