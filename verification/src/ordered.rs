//! Maps and sets keyed by text, kept in the order of their keys.
use vstd::prelude::*;
use crate::model;
use crate::model::Plain;
use crate::text;

verus! {

/// The keys of a sequence of entries.
pub open spec fn keys<W>(s: Seq<(Seq<char>, W)>) -> Seq<Seq<char>> {
    Seq::new(s.len(), |i: int| s[i].0)
}

/// What the entries hold under `k`.
pub open spec fn find<W>(s: Seq<(Seq<char>, W)>, k: Seq<char>) -> Option<W>
    decreases s.len(),
{
    if s.len() == 0 {
        None
    } else if s[0].0 == k {
        Some(s[0].1)
    } else {
        find(s.drop_first(), k)
    }
}

/// The entries with `w` under `k`: in the place of what stood there, or
/// before the first entry whose key is greater.
pub open spec fn put<W>(s: Seq<(Seq<char>, W)>, k: Seq<char>, w: W) -> Seq<(Seq<char>, W)>
    decreases s.len(),
{
    if s.len() == 0 {
        seq![(k, w)]
    } else if s[0].0 == k {
        seq![(k, w)] + s.drop_first()
    } else if text::lt(k, s[0].0) {
        seq![(k, w)] + s
    } else {
        seq![s[0]] + put(s.drop_first(), k, w)
    }
}

/// The texts with `t` among them: unchanged where it is there already, else
/// with it before the first that is greater.
pub open spec fn included(s: Seq<Seq<char>>, t: Seq<char>) -> Seq<Seq<char>>
    decreases s.len(),
{
    if s.len() == 0 {
        seq![t]
    } else if s[0] == t {
        s
    } else if text::lt(t, s[0]) {
        seq![t] + s
    } else {
        seq![s[0]] + included(s.drop_first(), t)
    }
}

/// The entries without the first under `k`.
pub open spec fn dropped<W>(s: Seq<(Seq<char>, W)>, k: Seq<char>) -> Seq<(Seq<char>, W)>
    decreases s.len(),
{
    if s.len() == 0 {
        s
    } else if s[0].0 == k {
        s.drop_first()
    } else {
        seq![s[0]] + dropped(s.drop_first(), k)
    }
}

/// The texts without the first `t`.
pub open spec fn excluded(s: Seq<Seq<char>>, t: Seq<char>) -> Seq<Seq<char>>
    decreases s.len(),
{
    if s.len() == 0 {
        s
    } else if s[0] == t {
        s.drop_first()
    } else {
        seq![s[0]] + excluded(s.drop_first(), t)
    }
}

/// In sorted entries, what was dropped is not found, and the rest stays.
pub proof fn dropped_found<W>(s: Seq<(Seq<char>, W)>, k: Seq<char>, j: Seq<char>)
    requires
        text::sorted(keys(s)),
    ensures
        text::sorted(keys(dropped(s, k))),
        find(dropped(s, k), j) == (if j == k {
            None
        } else {
            find(s, j)
        }),
        forall|i: int|
            0 <= i < dropped(s, k).len() ==> keys(s).contains((#[trigger] dropped(s, k)[i]).0),
    decreases s.len(),
{
    if s.len() > 0 {
        let t = s.drop_first();
        let d = dropped(s, k);
        assert(keys(t) =~= keys(s).drop_first());
        assert(keys(s)[0] == s[0].0);
        if s[0].0 == k {
            find_iff(t, k);
            if keys(t).contains(k) {
                let i = keys(t).index_of(k);
                assert(text::lt(keys(s)[0], keys(s)[i + 1]));
                text::lt_irreflexive(k);
            }
            assert forall|i: int| 0 <= i < d.len() implies keys(s).contains((#[trigger] d[i]).0) by {
                assert(keys(s)[i + 1] == d[i].0);
            }
        } else {
            dropped_found(t, k, j);
            let e = dropped(t, k);
            assert(d.drop_first() =~= e);
            assert(keys(d) =~= seq![s[0].0] + keys(e));
            assert forall|i: int| 0 <= i < d.len() implies keys(s).contains((#[trigger] d[i]).0) by {
                if i > 0 {
                    assert(e[i - 1] == d[i]);
                    let m = keys(t).index_of(d[i].0);
                    assert(keys(s)[m + 1] == d[i].0);
                }
            }
            assert forall|a: int, b: int| 0 <= a < b < keys(d).len() implies text::lt(
                #[trigger] keys(d)[a],
                #[trigger] keys(d)[b],
            ) by {
                if a == 0 {
                    assert(e[b - 1].0 == keys(d)[b]);
                    let m = keys(t).index_of(e[b - 1].0);
                    assert(text::lt(keys(s)[0], keys(s)[m + 1]));
                } else {
                    assert(text::lt(keys(e)[a - 1], keys(e)[b - 1]));
                }
            }
        }
    }
}

/// In sorted texts, what was excluded is gone, and the rest stays.
pub proof fn excluded_sorted(s: Seq<Seq<char>>, t: Seq<char>)
    requires
        text::sorted(s),
    ensures
        text::sorted(excluded(s, t)),
        forall|x: Seq<char>| #[trigger] excluded(s, t).contains(x) <==> (s.contains(x) && x != t),
{
    let e = Seq::new(s.len(), |i: int| (s[i], ()));
    assert(keys(e) =~= s);
    excluded_is_dropped(e, t);
    dropped_found(e, t, t);
    assert forall|x: Seq<char>| #[trigger] excluded(s, t).contains(x) <==> (s.contains(x) && x != t) by {
        dropped_found(e, t, x);
        find_iff(dropped(e, t), x);
        find_iff(e, x);
    }
}

proof fn excluded_is_dropped(e: Seq<(Seq<char>, ())>, t: Seq<char>)
    ensures
        keys(dropped(e, t)) == excluded(keys(e), t),
    decreases e.len(),
{
    if e.len() > 0 {
        assert(keys(e.drop_first()) =~= keys(e).drop_first());
        excluded_is_dropped(e.drop_first(), t);
    }
    assert(keys(dropped(e, t)) =~= excluded(keys(e), t));
}

/// What was put is found.
pub proof fn put_found<W>(s: Seq<(Seq<char>, W)>, k: Seq<char>, w: W)
    ensures
        find(put(s, k, w), k) == Some(w),
    decreases s.len(),
{
    let p = put(s, k, w);
    if s.len() > 0 && s[0].0 != k && !text::lt(k, s[0].0) {
        put_found(s.drop_first(), k, w);
        assert(p.drop_first() =~= put(s.drop_first(), k, w));
    }
}

/// What stands under another key stays.
pub proof fn put_keeps<W>(s: Seq<(Seq<char>, W)>, k: Seq<char>, w: W, j: Seq<char>)
    requires
        j != k,
    ensures
        find(put(s, k, w), j) == find(s, j),
    decreases s.len(),
{
    let p = put(s, k, w);
    if s.len() == 0 {
        assert(p.drop_first() =~= s);
    } else if s[0].0 == k {
        assert(p.drop_first() =~= s.drop_first());
    } else if text::lt(k, s[0].0) {
        assert(p.drop_first() =~= s);
    } else {
        put_keeps(s.drop_first(), k, w, j);
        assert(p.drop_first() =~= put(s.drop_first(), k, w));
    }
}

/// A key is found exactly where it stands among the keys.
pub proof fn find_iff<W>(s: Seq<(Seq<char>, W)>, k: Seq<char>)
    ensures
        find(s, k) is Some == keys(s).contains(k),
        find(s, k) matches Some(w) ==> s.contains((k, w)),
    decreases s.len(),
{
    if s.len() > 0 {
        let t = s.drop_first();
        find_iff(t, k);
        if s[0].0 == k {
            assert(keys(s)[0] == k);
            assert(s[0] == (k, s[0].1));
        } else {
            if keys(t).contains(k) {
                let i = choose|i: int| 0 <= i < keys(t).len() && keys(t)[i] == k;
                assert(keys(s)[i + 1] == k);
            }
            if keys(s).contains(k) {
                let i = choose|i: int| 0 <= i < keys(s).len() && keys(s)[i] == k;
                assert(keys(t)[i - 1] == k);
            }
            if let Some(w) = find(t, k) {
                let i = choose|i: int| 0 <= i < t.len() && t[i] == (k, w);
                assert(s[i + 1] == (k, w));
            }
        }
    }
}

/// Putting keeps the keys sorted.
pub proof fn put_sorted<W>(s: Seq<(Seq<char>, W)>, k: Seq<char>, w: W)
    requires
        text::sorted(keys(s)),
    ensures
        text::sorted(keys(put(s, k, w))),
        forall|t: Seq<char>| #[trigger] keys(put(s, k, w)).contains(t) <==> (keys(s).contains(t) || t == k),
    decreases s.len(),
{
    let p = put(s, k, w);
    if s.len() == 0 {
        assert(keys(p)[0] == k);
        assert forall|t: Seq<char>| #[trigger] keys(p).contains(t) implies t == k by {}
    } else {
        let t = s.drop_first();
        assert(keys(t) =~= keys(s).drop_first());
        if s[0].0 == k {
            assert(keys(p) =~= keys(s));
            assert(keys(s)[0] == k);
        } else if text::lt(k, s[0].0) {
            assert(keys(p) =~= seq![k] + keys(s));
            assert forall|i: int, j: int| 0 <= i < j < keys(p).len() implies text::lt(
                #[trigger] keys(p)[i],
                #[trigger] keys(p)[j],
            ) by {
                if i == 0 && j > 1 {
                    assert(text::lt(keys(s)[0], keys(s)[j - 1]));
                    text::lt_transitive(k, keys(s)[0], keys(s)[j - 1]);
                } else if i > 0 {
                    assert(text::lt(keys(s)[i - 1], keys(s)[j - 1]));
                }
            }
            assert(keys(p)[0] == k);
            assert forall|x: Seq<char>| #[trigger] keys(p).contains(x) <==> (keys(s).contains(x) || x == k) by {
                if keys(s).contains(x) {
                    let i = keys(s).index_of(x);
                    assert(keys(p)[i + 1] == x);
                }
                if keys(p).contains(x) && x != k {
                    let i = keys(p).index_of(x);
                    assert(keys(s)[i - 1] == x);
                }
            }
        } else {
            put_sorted(t, k, w);
            let q = put(t, k, w);
            assert(keys(p) =~= seq![s[0].0] + keys(q));
            text::lt_total(k, s[0].0);
            assert forall|i: int, j: int| 0 <= i < j < keys(p).len() implies text::lt(
                #[trigger] keys(p)[i],
                #[trigger] keys(p)[j],
            ) by {
                if i == 0 {
                    let x = keys(q)[j - 1];
                    assert(keys(q).contains(x));
                    if x != k {
                        let m = keys(t).index_of(x);
                        assert(text::lt(keys(s)[0], keys(s)[m + 1]));
                    }
                } else {
                    assert(text::lt(keys(q)[i - 1], keys(q)[j - 1]));
                }
            }
            assert forall|x: Seq<char>| #[trigger] keys(p).contains(x) <==> (keys(s).contains(x) || x == k) by {
                if keys(s).contains(x) && x != s[0].0 {
                    let i = keys(s).index_of(x);
                    assert(keys(t)[i - 1] == x);
                }
                if keys(q).contains(x) {
                    let i = keys(q).index_of(x);
                    assert(keys(p)[i + 1] == x);
                }
                if keys(p).contains(x) && x != s[0].0 {
                    let i = keys(p).index_of(x);
                    assert(keys(q)[i - 1] == x);
                    if x != k {
                        let m = keys(t).index_of(x);
                        assert(keys(s)[m + 1] == x);
                    }
                }
                assert(keys(p)[0] == s[0].0);
                assert(keys(s)[0] == s[0].0);
            }
        }
    }
}

/// A key greater than all others goes to the end.
pub proof fn put_last<W>(s: Seq<(Seq<char>, W)>, k: Seq<char>, w: W)
    requires
        forall|i: int| 0 <= i < s.len() ==> text::lt((#[trigger] s[i]).0, k),
    ensures
        put(s, k, w) == s.push((k, w)),
    decreases s.len(),
{
    if s.len() == 0 {
        assert(put(s, k, w) =~= s.push((k, w)));
    } else {
        text::lt_irreflexive(k);
        if text::lt(k, s[0].0) {
            text::lt_transitive(k, s[0].0, k);
        }
        assert forall|i: int| 0 <= i < s.drop_first().len() implies text::lt(
            (#[trigger] s.drop_first()[i]).0,
            k,
        ) by {
            assert(s.drop_first()[i] == s[i + 1]);
        }
        put_last(s.drop_first(), k, w);
        assert(put(s, k, w) =~= s.push((k, w)));
    }
}

/// Adding keeps the texts sorted and adds nothing else.
pub proof fn add_sorted(s: Seq<Seq<char>>, t: Seq<char>)
    requires
        text::sorted(s),
    ensures
        text::sorted(included(s, t)),
        forall|x: Seq<char>| #[trigger] included(s, t).contains(x) <==> (s.contains(x) || x == t),
{
    let e = Seq::new(s.len(), |i: int| (s[i], ()));
    assert(keys(e) =~= s);
    put_sorted(e, t, ());
    add_is_put(e, t);
}

proof fn add_is_put(e: Seq<(Seq<char>, ())>, t: Seq<char>)
    ensures
        keys(put(e, t, ())) == included(keys(e), t),
    decreases e.len(),
{
    if e.len() > 0 {
        assert(keys(e.drop_first()) =~= keys(e).drop_first());
        add_is_put(e.drop_first(), t);
    }
    assert(keys(put(e, t, ())) =~= included(keys(e), t));
}

/// A map from text, its entries in the order of their keys.
#[derive(Debug, PartialEq, Eq)]
pub struct TextMap<T> {
    pub entries: Vec<(String, T)>,
}

impl<T: DeepView> View for TextMap<T> {
    type V = Seq<(Seq<char>, T::V)>;

    open spec fn view(&self) -> Seq<(Seq<char>, T::V)> {
        model::deep(self.entries@)
    }
}

impl<T: DeepView> DeepView for TextMap<T> {
    type V = Seq<(Seq<char>, T::V)>;

    open spec fn deep_view(&self) -> Seq<(Seq<char>, T::V)> {
        self@
    }
}

proof fn find_none<W>(s: Seq<(Seq<char>, W)>, k: Seq<char>, i: int)
    requires
        0 <= i <= s.len(),
        forall|j: int| 0 <= j < i ==> (#[trigger] s[j]).0 != k,
    ensures
        find(s, k) == find(s.skip(i), k),
    decreases i,
{
    if i == 0 {
        assert(s.skip(0) =~= s);
    } else {
        find_none(s.drop_first(), k, i - 1);
        assert(s.drop_first().skip(i - 1) =~= s.skip(i));
    }
}

proof fn put_skip<W>(s: Seq<(Seq<char>, W)>, k: Seq<char>, w: W, i: int)
    requires
        0 <= i <= s.len(),
        forall|j: int| 0 <= j < i ==> (#[trigger] s[j]).0 != k && !text::lt(k, s[j].0),
    ensures
        put(s, k, w) == s.take(i) + put(s.skip(i), k, w),
    decreases i,
{
    if i == 0 {
        assert(s.skip(0) =~= s);
        assert(put(s, k, w) =~= s.take(i) + put(s.skip(i), k, w));
    } else {
        put_skip(s.drop_first(), k, w, i - 1);
        assert(s.drop_first().skip(i - 1) =~= s.skip(i));
        assert(put(s, k, w) =~= s.take(i) + put(s.skip(i), k, w));
    }
}

proof fn dropped_skip<W>(s: Seq<(Seq<char>, W)>, k: Seq<char>, i: int)
    requires
        0 <= i <= s.len(),
        forall|j: int| 0 <= j < i ==> (#[trigger] s[j]).0 != k,
    ensures
        dropped(s, k) == s.take(i) + dropped(s.skip(i), k),
    decreases i,
{
    if i == 0 {
        assert(s.skip(0) =~= s);
        assert(dropped(s, k) =~= s.take(i) + dropped(s.skip(i), k));
    } else {
        dropped_skip(s.drop_first(), k, i - 1);
        assert(s.drop_first().skip(i - 1) =~= s.skip(i));
        assert(dropped(s, k) =~= s.take(i) + dropped(s.skip(i), k));
    }
}

impl<T: DeepView> TextMap<T> {
    /// Removes what stands under `k`.
    pub fn remove(&mut self, k: &str) -> (r: Option<T>)
        ensures
            final(self)@ == dropped(old(self)@, k@),
            r.deep_view() == find(old(self)@, k@),
            old(self).wf() ==> final(self).wf(),
    {
        let ghost s = self@;
        proof {
            if text::sorted(keys(s)) {
                dropped_found(s, k@, k@);
            }
        }
        let mut i: usize = 0;
        while i < self.entries.len()
            invariant
                i <= self.entries.len(),
                self@ == s,
                s == old(self)@,
                text::sorted(keys(s)) ==> text::sorted(keys(dropped(s, k@))),
                forall|j: int| 0 <= j < i ==> (#[trigger] s[j]).0 != k@,
            decreases self.entries.len() - i,
        {
            if text::same(self.entries[i].0.as_str(), k) {
                proof {
                    find_none(s, k@, i as int);
                    dropped_skip(s, k@, i as int);
                    assert(s.skip(i as int)[0] == s[i as int]);
                    assert(s.skip(i as int).drop_first() =~= s.skip(i + 1));
                }
                let (_, t) = self.entries.remove(i);
                assert(self@ =~= s.take(i as int) + s.skip(i + 1));
                return Some(t);
            }
            i += 1;
        }
        proof {
            find_none(s, k@, i as int);
            dropped_skip(s, k@, i as int);
            assert(s.take(i as int) + dropped(s.skip(i as int), k@) =~= s);
        }
        None
    }

    /// The keys stand in order, each once.
    pub open spec fn wf(&self) -> bool {
        text::sorted(keys(self@))
    }

    pub fn new() -> (m: Self)
        ensures
            m@ == Seq::<(Seq<char>, T::V)>::empty(),
            m.wf(),
    {
        let m = TextMap { entries: Vec::new() };
        assert(m@ =~= Seq::<(Seq<char>, T::V)>::empty());
        m
    }

    pub fn len(&self) -> (n: usize)
        ensures
            n == self@.len(),
    {
        self.entries.len()
    }

    pub fn is_empty(&self) -> (r: bool)
        ensures
            r == (self@.len() == 0),
    {
        self.entries.len() == 0
    }

    pub fn get(&self, k: &str) -> (r: Option<&T>)
        ensures
            match r {
                Some(t) => find(self@, k@) == Some(t.deep_view()),
                None => find(self@, k@) is None,
            },
    {
        let mut i: usize = 0;
        while i < self.entries.len()
            invariant
                i <= self.entries.len(),
                forall|j: int| 0 <= j < i ==> (#[trigger] self@[j]).0 != k@,
            decreases self.entries.len() - i,
        {
            if text::same(self.entries[i].0.as_str(), k) {
                proof {
                    find_none(self@, k@, i as int);
                    assert(self@.skip(i as int)[0] == self@[i as int]);
                }
                return Some(&self.entries[i].1);
            }
            i += 1;
        }
        proof {
            find_none(self@, k@, i as int);
        }
        None
    }

    pub fn contains_key(&self, k: &str) -> (r: bool)
        ensures
            r == (find(self@, k@) is Some),
    {
        self.get(k).is_some()
    }

    pub fn insert(&mut self, k: String, t: T)
        ensures
            final(self)@ == put(old(self)@, k@, t.deep_view()),
            old(self).wf() ==> final(self).wf(),
    {
        let ghost s = self@;
        let ghost w = t.deep_view();
        let mut i: usize = 0;
        while i < self.entries.len() && !text::same(self.entries[i].0.as_str(), k.as_str())
            && !text::less(k.as_str(), self.entries[i].0.as_str())
            invariant
                i <= self.entries.len(),
                self@ == s,
                forall|j: int|
                    0 <= j < i ==> (#[trigger] s[j]).0 != k@ && !text::lt(k@, s[j].0),
            decreases self.entries.len() - i,
        {
            i += 1;
        }
        proof {
            put_skip(s, k@, w, i as int);
            if text::sorted(keys(s)) {
                put_sorted(s, k@, w);
            }
        }
        let ghost kk = k@;
        if i < self.entries.len() && text::same(self.entries[i].0.as_str(), k.as_str()) {
            self.entries[i] = (k, t);
            proof {
                assert(s.skip(i as int).drop_first() =~= s.skip(i + 1));
                assert(self@ =~= s.take(i as int) + (seq![(kk, w)] + s.skip(i + 1)));
            }
        } else {
            self.entries.insert(i, (k, t));
            proof {
                assert(self@ =~= s.take(i as int) + (seq![(kk, w)] + s.skip(i as int)));
                if i == s.len() {
                    assert(self@ =~= s.take(i as int) + seq![(kk, w)]);
                }
            }
        }
    }
}

impl<T: Plain> Plain for TextMap<T> {
    fn copied(&self) -> (r: Self) {
        TextMap { entries: self.entries.copied() }
    }

    fn same(&self, other: &Self) -> (r: bool) {
        self.entries.same(&other.entries)
    }
}

/// A set of texts, in order.
#[derive(Debug, PartialEq, Eq)]
pub struct TextSet {
    pub items: Vec<String>,
}

impl View for TextSet {
    type V = Seq<Seq<char>>;

    open spec fn view(&self) -> Seq<Seq<char>> {
        text::texts(self.items@)
    }
}

impl DeepView for TextSet {
    type V = Seq<Seq<char>>;

    open spec fn deep_view(&self) -> Seq<Seq<char>> {
        self@
    }
}

impl Plain for TextSet {
    fn copied(&self) -> (r: Self) {
        let r = TextSet { items: self.items.copied() };
        proof {
            model::deep_texts(&self.items);
            model::deep_texts(&r.items);
        }
        r
    }

    fn same(&self, other: &Self) -> (r: bool) {
        proof {
            model::deep_texts(&self.items);
            model::deep_texts(&other.items);
        }
        self.items.same(&other.items)
    }
}

proof fn add_skip(s: Seq<Seq<char>>, t: Seq<char>, i: int)
    requires
        0 <= i <= s.len(),
        forall|j: int| 0 <= j < i ==> #[trigger] s[j] != t && !text::lt(t, s[j]),
    ensures
        included(s, t) == s.take(i) + included(s.skip(i), t),
    decreases i,
{
    if i == 0 {
        assert(s.skip(0) =~= s);
        assert(included(s, t) =~= s.take(i) + included(s.skip(i), t));
    } else {
        add_skip(s.drop_first(), t, i - 1);
        assert(s.drop_first().skip(i - 1) =~= s.skip(i));
        assert(included(s, t) =~= s.take(i) + included(s.skip(i), t));
    }
}

proof fn excluded_skip(s: Seq<Seq<char>>, t: Seq<char>, i: int)
    requires
        0 <= i <= s.len(),
        forall|j: int| 0 <= j < i ==> #[trigger] s[j] != t,
    ensures
        excluded(s, t) == s.take(i) + excluded(s.skip(i), t),
    decreases i,
{
    if i == 0 {
        assert(s.skip(0) =~= s);
        assert(excluded(s, t) =~= s.take(i) + excluded(s.skip(i), t));
    } else {
        excluded_skip(s.drop_first(), t, i - 1);
        assert(s.drop_first().skip(i - 1) =~= s.skip(i));
        assert(excluded(s, t) =~= s.take(i) + excluded(s.skip(i), t));
    }
}

impl TextSet {
    /// The texts stand in order, each once.
    pub open spec fn wf(&self) -> bool {
        text::sorted(self@)
    }

    pub fn new() -> (m: Self)
        ensures
            m@ == Seq::<Seq<char>>::empty(),
            m.wf(),
    {
        let m = TextSet { items: Vec::new() };
        assert(m@ =~= Seq::<Seq<char>>::empty());
        m
    }

    pub fn is_empty(&self) -> (r: bool)
        ensures
            r == (self@.len() == 0),
    {
        self.items.len() == 0
    }

    pub fn contains(&self, t: &str) -> (r: bool)
        ensures
            r == self@.contains(t@),
    {
        text::holds(&self.items, t)
    }

    /// Removes `t`.
    pub fn remove(&mut self, t: &str)
        ensures
            final(self)@ == excluded(old(self)@, t@),
            old(self).wf() ==> final(self).wf(),
    {
        let ghost s = self@;
        proof {
            if text::sorted(s) {
                excluded_sorted(s, t@);
            }
        }
        let mut i: usize = 0;
        while i < self.items.len()
            invariant
                i <= self.items.len(),
                self@ == s,
                s == old(self)@,
                text::sorted(s) ==> text::sorted(excluded(s, t@)),
                forall|j: int| 0 <= j < i ==> #[trigger] s[j] != t@,
            decreases self.items.len() - i,
        {
            if text::same(self.items[i].as_str(), t) {
                proof {
                    excluded_skip(s, t@, i as int);
                    assert(s.skip(i as int)[0] == s[i as int]);
                    assert(s.skip(i as int).drop_first() =~= s.skip(i + 1));
                }
                let _ = self.items.remove(i);
                assert(self@ =~= s.take(i as int) + s.skip(i + 1));
                return ;
            }
            i += 1;
        }
        proof {
            excluded_skip(s, t@, i as int);
            assert(s.take(i as int) + excluded(s.skip(i as int), t@) =~= s);
        }
    }

    /// Adds `t`, and says whether it was not there.
    pub fn insert(&mut self, t: String) -> (fresh: bool)
        ensures
            final(self)@ == included(old(self)@, t@),
            old(self).wf() ==> final(self).wf(),
            old(self).wf() ==> fresh == !old(self)@.contains(t@),
    {
        let ghost s = self@;
        let ghost tt = t@;
        let mut i: usize = 0;
        while i < self.items.len() && !text::same(self.items[i].as_str(), t.as_str())
            && !text::less(t.as_str(), self.items[i].as_str())
            invariant
                i <= self.items.len(),
                self@ == s,
                tt == t@,
                forall|j: int| 0 <= j < i ==> #[trigger] s[j] != tt && !text::lt(tt, s[j]),
            decreases self.items.len() - i,
        {
            i += 1;
        }
        proof {
            add_skip(s, tt, i as int);
            if text::sorted(s) {
                add_sorted(s, tt);
            }
        }
        if i < self.items.len() && text::same(self.items[i].as_str(), t.as_str()) {
            proof {
                assert(s.take(i as int) + s.skip(i as int) =~= s);
                assert(s[i as int] == tt);
            }
            false
        } else {
            self.items.insert(i, t);
            proof {
                assert(self@ =~= s.take(i as int) + (seq![tt] + s.skip(i as int)));
                if i == s.len() {
                    assert(self@ =~= s.take(i as int) + seq![tt]);
                }
                if text::sorted(s) && s.contains(tt) {
                    let j = s.index_of(tt);
                    assert(j >= i);
                    assert(j > i);
                    assert(text::lt(s[i as int], s[j]));
                    assert(text::lt(tt, s[i as int]));
                    text::lt_transitive(tt, s[i as int], tt);
                    text::lt_irreflexive(tt);
                }
            }
            true
        }
    }
}

} // verus!
