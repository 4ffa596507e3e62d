//! Plain values: their models, copies and equality.
use vstd::prelude::*;
use std::rc::Rc;
use crate::text;

verus! {

/// The models of a sequence of values.
pub open spec fn deep<T: DeepView>(s: Seq<T>) -> Seq<T::V> {
    Seq::new(s.len(), |i: int| s[i].deep_view())
}

pub proof fn deep_push<T: DeepView>(s: Seq<T>, t: T)
    ensures
        deep(s.push(t)) == deep(s).push(t.deep_view()),
{
    assert(deep(s.push(t)) =~= deep(s).push(t.deep_view()));
}

pub proof fn deep_take<T: DeepView>(s: Seq<T>, i: int)
    requires
        0 <= i <= s.len(),
    ensures
        deep(s.take(i)) == deep(s).take(i),
        i < s.len() ==> deep(s).take(i + 1) == deep(s).take(i).push(s[i].deep_view()),
{
    assert(deep(s.take(i)) =~= deep(s).take(i));
    if i < s.len() {
        assert(deep(s).take(i + 1) =~= deep(s).take(i).push(s[i].deep_view()));
    }
}

/// The model of a vector is the sequence of its items' models.
pub proof fn deep_vec<T: DeepView>(v: &Vec<T>)
    ensures
        v.deep_view() == deep(v@),
{
    assert(v.deep_view() =~= deep(v@));
}

/// The model of a vector of strings is the sequence of their texts.
pub proof fn deep_texts(v: &Vec<String>)
    ensures
        v.deep_view() == text::texts(v@),
{
    assert(v.deep_view() =~= text::texts(v@));
}

/// The model of a result.
pub open spec fn outcome<T: DeepView, E: DeepView>(r: Result<T, E>) -> Result<T::V, E::V> {
    match r {
        Ok(t) => Ok(t.deep_view()),
        Err(e) => Err(e.deep_view()),
    }
}

/// A value that is its model: a copy has the same model, and two values are
/// the same where their models are equal.
pub trait Plain: DeepView + Sized {
    fn copied(&self) -> (r: Self)
        ensures
            r.deep_view() == self.deep_view(),
    ;

    fn same(&self, other: &Self) -> (r: bool)
        ensures
            r == (self.deep_view() == other.deep_view()),
    ;
}

impl Plain for String {
    fn copied(&self) -> (r: Self) {
        self.clone()
    }

    fn same(&self, other: &Self) -> (r: bool) {
        text::same(self.as_str(), other.as_str())
    }
}

impl Plain for bool {
    fn copied(&self) -> (r: Self) {
        *self
    }

    fn same(&self, other: &Self) -> (r: bool) {
        *self == *other
    }
}

impl Plain for u8 {
    fn copied(&self) -> (r: Self) {
        *self
    }

    fn same(&self, other: &Self) -> (r: bool) {
        *self == *other
    }
}

impl Plain for u64 {
    fn copied(&self) -> (r: Self) {
        *self
    }

    fn same(&self, other: &Self) -> (r: bool) {
        *self == *other
    }
}

impl Plain for u32 {
    fn copied(&self) -> (r: Self) {
        *self
    }

    fn same(&self, other: &Self) -> (r: bool) {
        *self == *other
    }
}

impl<T: Plain> Plain for Vec<T> {
    fn copied(&self) -> (r: Self) {
        let mut r: Vec<T> = Vec::new();
        let mut i: usize = 0;
        while i < self.len()
            invariant
                i <= self.len(),
                deep(r@) == deep(self@).take(i as int),
            decreases self.len() - i,
        {
            let t = self[i].copied();
            proof {
                deep_push(r@, t);
                deep_take(self@, i as int);
            }
            r.push(t);
            i += 1;
        }
        proof {
            deep_vec(&r);
            deep_vec(self);
            assert(deep(self@).take(i as int) =~= deep(self@));
        }
        r
    }

    fn same(&self, other: &Self) -> (r: bool) {
        proof {
            deep_vec(other);
            deep_vec(self);
        }
        if self.len() != other.len() {
            assert(deep(self@).len() != deep(other@).len());
            return false;
        }
        let mut i: usize = 0;
        while i < self.len()
            invariant
                i <= self.len() == other.len(),
                self.deep_view() == deep(self@),
                other.deep_view() == deep(other@),
                forall|j: int| 0 <= j < i ==> deep(self@)[j] == deep(other@)[j],
            decreases self.len() - i,
        {
            if !self[i].same(&other[i]) {
                assert(deep(self@)[i as int] != deep(other@)[i as int]);
                return false;
            }
            i += 1;
        }
        assert(deep(self@) =~= deep(other@));
        true
    }
}

impl<T: Plain> Plain for Option<T> {
    fn copied(&self) -> (r: Self) {
        match self {
            Some(t) => Some(t.copied()),
            None => None,
        }
    }

    fn same(&self, other: &Self) -> (r: bool) {
        match (self, other) {
            (Some(a), Some(b)) => a.same(b),
            (None, None) => true,
            _ => false,
        }
    }
}

impl<T: Plain> Plain for Rc<T> {
    fn copied(&self) -> (r: Self) {
        Rc::new((**self).copied())
    }

    fn same(&self, other: &Self) -> (r: bool) {
        (**self).same(&**other)
    }
}

impl<T: Plain> Plain for Box<T> {
    fn copied(&self) -> (r: Self) {
        Box::new((**self).copied())
    }

    fn same(&self, other: &Self) -> (r: bool) {
        (**self).same(&**other)
    }
}

impl<A: Plain, B: Plain> Plain for (A, B) {
    fn copied(&self) -> (r: Self) {
        (self.0.copied(), self.1.copied())
    }

    fn same(&self, other: &Self) -> (r: bool) {
        let a = self.0.same(&other.0);
        let b = self.1.same(&other.1);
        a && b
    }
}

} // verus!
