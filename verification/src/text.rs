//! Text as a sequence of characters: comparison, order, splitting and joining.
use vstd::prelude::*;
use vstd::string::*;
use vstd::utf8::*;

verus! {

/// `String::push` appends one character.
pub assume_specification[ String::push ](s: &mut String, c: char)
    ensures
        final(s)@ == old(s)@.push(c),
;

/// `String::from_utf8` gives the text that the bytes encode, where they
/// encode one.
#[verifier::external_body]
fn from_utf8(bytes: Vec<u8>) -> (r: Option<String>)
    ensures
        r is Some == valid_utf8(bytes@),
        r matches Some(s) ==> encode_utf8(s@) == bytes@,
{
    String::from_utf8(bytes).ok()
}

/// The text that bytes encode, where they encode one.
pub open spec fn utf8_text_of(bytes: Seq<u8>) -> Option<Seq<char>> {
    if valid_utf8(bytes) {
        Some(decode_utf8(bytes))
    } else {
        None
    }
}

/// The text that bytes encode, where they encode one.
pub fn utf8_text(bytes: Vec<u8>) -> (r: Option<String>)
    ensures
        r.deep_view() == utf8_text_of(bytes@),
{
    let ghost b = bytes@;
    let r = from_utf8(bytes);
    proof {
        if r is Some {
            encode_utf8_decode_utf8(r->0@);
        }
    }
    r
}

/// The text that a text's bytes encode is that text.
pub proof fn utf8_reads_back(s: Seq<char>)
    ensures
        utf8_text_of(utf8(s)) == Some(s),
{
    encode_utf8_valid_utf8(s);
    encode_utf8_decode_utf8(s);
}

/// The texts of a sequence of strings.
pub open spec fn texts(v: Seq<String>) -> Seq<Seq<char>> {
    Seq::new(v.len(), |i: int| v[i]@)
}

/// The UTF-8 bytes of a text.
pub open spec fn utf8(s: Seq<char>) -> Seq<u8> {
    encode_utf8(s)
}

/// `a` stands before `b` in the order of code points, a prefix first.
pub open spec fn lt(a: Seq<char>, b: Seq<char>) -> bool
    decreases a.len(),
{
    if b.len() == 0 {
        false
    } else if a.len() == 0 {
        true
    } else if a[0] != b[0] {
        a[0] < b[0]
    } else {
        lt(a.drop_first(), b.drop_first())
    }
}

/// Strictly increasing in the order of [`lt`].
pub open spec fn sorted(v: Seq<Seq<char>>) -> bool {
    forall|i: int, j: int| 0 <= i < j < v.len() ==> lt(#[trigger] v[i], #[trigger] v[j])
}

/// The pieces of `s` between the separators.
pub open spec fn split(s: Seq<char>, sep: char) -> Seq<Seq<char>>
    decreases s.len(),
{
    if s.len() == 0 {
        seq![Seq::<char>::empty()]
    } else {
        let rest = split(s.drop_last(), sep);
        if s.last() == sep {
            rest.push(Seq::empty())
        } else {
            rest.drop_last().push(rest.last().push(s.last()))
        }
    }
}

/// The pieces with one separator between each two.
pub open spec fn join(v: Seq<Seq<char>>, sep: Seq<char>) -> Seq<char>
    decreases v.len(),
{
    if v.len() == 0 {
        Seq::empty()
    } else if v.len() == 1 {
        v[0]
    } else {
        join(v.drop_last(), sep) + sep + v.last()
    }
}

/// How many characters stand before the first `c`; all of them where there is none.
pub open spec fn first(s: Seq<char>, c: char) -> int
    decreases s.len(),
{
    if s.len() == 0 {
        0
    } else if s[0] == c {
        0
    } else {
        1 + first(s.drop_first(), c)
    }
}

/// `s` begins with `prefix`.
pub open spec fn begins(s: Seq<char>, prefix: Seq<char>) -> bool {
    prefix.len() <= s.len() && s.take(prefix.len() as int) == prefix
}

pub proof fn lt_irreflexive(a: Seq<char>)
    ensures
        !lt(a, a),
    decreases a.len(),
{
    if a.len() > 0 {
        lt_irreflexive(a.drop_first());
    }
}

pub proof fn lt_transitive(a: Seq<char>, b: Seq<char>, c: Seq<char>)
    requires
        lt(a, b),
        lt(b, c),
    ensures
        lt(a, c),
    decreases a.len(),
{
    if a.len() > 0 && a[0] == b[0] && b[0] == c[0] {
        lt_transitive(a.drop_first(), b.drop_first(), c.drop_first());
    }
}

pub proof fn lt_total(a: Seq<char>, b: Seq<char>)
    ensures
        lt(a, b) || lt(b, a) || a == b,
    decreases a.len(),
{
    if a.len() > 0 && b.len() > 0 && a[0] == b[0] {
        lt_total(a.drop_first(), b.drop_first());
        if a.drop_first() == b.drop_first() {
            assert(a =~= seq![a[0]] + a.drop_first());
            assert(b =~= seq![b[0]] + b.drop_first());
        }
    } else if a.len() == 0 && b.len() == 0 {
        assert(a =~= b);
    }
}

/// Two sorted sequences of the same texts are equal.
pub proof fn sorted_is_one(a: Seq<Seq<char>>, b: Seq<Seq<char>>)
    requires
        sorted(a),
        sorted(b),
        a.to_set() == b.to_set(),
    ensures
        a == b,
    decreases a.len(),
{
    if a.len() == 0 {
        if b.len() > 0 {
            assert(b.to_set().contains(b[0]));
            assert(a.to_set().contains(b[0]));
        }
        assert(a =~= b);
    } else {
        assert(a.to_set().contains(a[0]));
        assert(b.contains(a[0]));
        assert(b.to_set().contains(b[0]));
        assert(a.contains(b[0]));
        let i = b.index_of(a[0]);
        let j = a.index_of(b[0]);
        if i > 0 && j > 0 {
            assert(lt(b[0], b[i]));
            assert(lt(a[0], a[j]));
            lt_transitive(a[0], b[0], a[0]);
            lt_irreflexive(a[0]);
        }
        assert(a[0] == b[0]);
        let x = a.drop_first();
        let y = b.drop_first();
        assert forall|m: int, n: int| 0 <= m < n < x.len() implies lt(
            #[trigger] x[m],
            #[trigger] x[n],
        ) by {
            assert(lt(a[m + 1], a[n + 1]));
        }
        assert forall|m: int, n: int| 0 <= m < n < y.len() implies lt(
            #[trigger] y[m],
            #[trigger] y[n],
        ) by {
            assert(lt(b[m + 1], b[n + 1]));
        }
        assert forall|t: Seq<char>| x.to_set().contains(t) == y.to_set().contains(t) by {
            lt_irreflexive(t);
            if x.contains(t) {
                let k = x.index_of(t);
                assert(a[k + 1] == t);
                assert(lt(a[0], a[k + 1]));
                assert(a.to_set().contains(t));
                assert(b.contains(t));
                let m = b.index_of(t);
                assert(y[m - 1] == t);
            }
            if y.contains(t) {
                let k = y.index_of(t);
                assert(b[k + 1] == t);
                assert(lt(b[0], b[k + 1]));
                assert(b.to_set().contains(t));
                assert(a.contains(t));
                let m = a.index_of(t);
                assert(x[m - 1] == t);
            }
        }
        assert(x.to_set() =~= y.to_set());
        sorted_is_one(x, y);
        assert(a =~= seq![a[0]] + x);
        assert(b =~= seq![b[0]] + y);
    }
}

/// The bytes of two texts joined are their bytes joined.
pub proof fn utf8_joins(a: Seq<char>, b: Seq<char>)
    ensures
        utf8(a + b) == utf8(a) + utf8(b),
    decreases a.len(),
{
    if a.len() == 0 {
        assert(a + b =~= b);
        assert(utf8(a) =~= Seq::<u8>::empty());
        assert(utf8(a) + utf8(b) =~= utf8(b));
    } else {
        assert((a + b).drop_first() =~= a.drop_first() + b);
        utf8_joins(a.drop_first(), b);
        assert((a + b)[0] == a[0]);
        assert(utf8(a + b) =~= utf8(a) + utf8(b));
    }
}

/// The byte at `k` is the first of a character, or `k` is the end.
pub open spec fn begins_at(t: Seq<char>, k: int) -> bool {
    exists|j: int| 0 <= j <= t.len() && #[trigger] utf8(t.take(j)).len() == k
}

/// The bytes between two beginnings of characters are the bytes of a text.
pub proof fn between_beginnings(t: Seq<char>, a: int, b: int)
    requires
        begins_at(t, a),
        begins_at(t, b),
        a <= b,
    ensures
        0 <= a,
        b <= utf8(t).len(),
        utf8_text_of(utf8(t).subrange(a, b)) is Some,
{
    let i = choose|j: int| 0 <= j <= t.len() && #[trigger] utf8(t.take(j)).len() == a;
    let j = choose|j: int| 0 <= j <= t.len() && #[trigger] utf8(t.take(j)).len() == b;
    let whole = utf8(t);
    assert(t.take(j) + t.skip(j) =~= t);
    utf8_joins(t.take(j), t.skip(j));
    if i <= j {
        let mid = t.subrange(i, j);
        assert(t.take(i) + mid =~= t.take(j));
        utf8_joins(t.take(i), mid);
        assert(whole.subrange(a, b) =~= utf8(mid));
        utf8_reads_back(mid);
    } else {
        let mid = t.subrange(j, i);
        assert(t.take(j) + mid =~= t.take(i));
        utf8_joins(t.take(j), mid);
        assert(a == b);
        let none = Seq::<char>::empty();
        assert(utf8(none) =~= Seq::<u8>::empty());
        assert(whole.subrange(a, b) =~= utf8(none));
        utf8_reads_back(none);
    }
}

/// A text begins and ends at the beginning of a character or at its end.
pub proof fn text_begins_and_ends(t: Seq<char>)
    ensures
        begins_at(t, 0),
        begins_at(t, utf8(t).len() as int),
{
    assert(t.take(0) =~= Seq::<char>::empty());
    assert(utf8(t.take(0)).len() == 0);
    assert(t.take(t.len() as int) =~= t);
    assert(utf8(t.take(t.len() as int)).len() == utf8(t).len());
}

/// Equal bytes spell equal texts.
pub proof fn utf8_injective(a: Seq<char>, b: Seq<char>)
    requires
        utf8(a) == utf8(b),
    ensures
        a == b,
{
    encode_utf8_decode_utf8(a);
    encode_utf8_decode_utf8(b);
}

pub proof fn first_is(s: Seq<char>, c: char, i: int)
    requires
        0 <= i <= s.len(),
        forall|j: int| 0 <= j < i ==> s[j] != c,
        i < s.len() ==> s[i] == c,
    ensures
        first(s, c) == i,
    decreases s.len(),
{
    if i > 0 {
        first_is(s.drop_first(), c, i - 1);
    }
}

pub proof fn split_nonempty(s: Seq<char>, sep: char)
    ensures
        split(s, sep).len() >= 1,
    decreases s.len(),
{
    if s.len() > 0 {
        split_nonempty(s.drop_last(), sep);
    }
}

/// A separator at the end begins an empty piece.
pub proof fn split_sep(s: Seq<char>, sep: char)
    ensures
        split(s.push(sep), sep) == split(s, sep).push(Seq::empty()),
{
    assert(s.push(sep).drop_last() =~= s);
}

/// What holds no separator goes to the last piece.
pub proof fn split_extend(s: Seq<char>, x: Seq<char>, sep: char)
    requires
        !x.contains(sep),
    ensures
        split(s + x, sep) == split(s, sep).drop_last().push(split(s, sep).last() + x),
    decreases x.len(),
{
    split_nonempty(s, sep);
    if x.len() == 0 {
        assert(s + x =~= s);
        assert(split(s, sep).last() + x =~= split(s, sep).last());
        assert(split(s, sep) =~= split(s, sep).drop_last().push(split(s, sep).last()));
    } else {
        let y = x.drop_last();
        assert(x.contains(x.last()));
        assert forall|i: int| 0 <= i < y.len() implies y[i] != sep by {
            assert(x.contains(x[i]));
        }
        split_extend(s, y, sep);
        assert((s + x).drop_last() =~= s + y);
        assert((s + x).last() == x.last());
        let p = split(s, sep);
        let q = split(s + y, sep);
        assert(q.drop_last() =~= p.drop_last());
        assert(q.last().push(x.last()) =~= p.last() + x);
    }
}

/// Joined pieces that hold no separator are split into the same pieces.
pub proof fn split_of_join(v: Seq<Seq<char>>, sep: char)
    requires
        v.len() > 0,
        forall|i: int| 0 <= i < v.len() ==> !(#[trigger] v[i]).contains(sep),
    ensures
        split(join(v, seq![sep]), sep) == v,
    decreases v.len(),
{
    let none = Seq::<char>::empty();
    if v.len() == 1 {
        split_extend(none, v[0], sep);
        assert(none + v[0] =~= v[0]);
        assert(split(none, sep).drop_last().push(none + v[0]) =~= v);
    } else {
        let w = v.drop_last();
        split_of_join(w, sep);
        let j = join(w, seq![sep]);
        split_sep(j, sep);
        split_extend(j.push(sep), v.last(), sep);
        assert(j + seq![sep] =~= j.push(sep));
        assert(none + v.last() =~= v.last());
        assert(w.push(none).drop_last() =~= w);
        assert(w.push(v.last()) =~= v);
    }
}

/// The characters of `s`.
pub fn chars(s: &str) -> (v: Vec<char>)
    ensures
        v@ == s@,
{
    let mut v: Vec<char> = Vec::new();
    for c in it: s.chars()
        invariant
            it.seq() == s@,
            v@ == s@.take(it.index()),
    {
        v.push(c);
        proof {
            assert(s@.take(it.index() + 1) =~= s@.take(it.index()).push(c));
        }
    }
    assert(v@ =~= s@);
    v
}

/// The text spelled by `v[from..to]`.
pub fn spell(v: &Vec<char>, from: usize, to: usize) -> (s: String)
    requires
        from <= to <= v.len(),
    ensures
        s@ == v@.subrange(from as int, to as int),
{
    let mut s: String = String::new();
    let mut i: usize = from;
    assert(s@ =~= v@.subrange(from as int, from as int));
    while i < to
        invariant
            from <= i <= to <= v.len(),
            s@ == v@.subrange(from as int, i as int),
        decreases to - i,
    {
        s.push(v[i]);
        proof {
            assert(v@.subrange(from as int, i + 1) =~= v@.subrange(from as int, i as int).push(
                v[i as int],
            ));
        }
        i += 1;
    }
    s
}

/// Whether two texts are equal.
pub fn same(a: &str, b: &str) -> (r: bool)
    ensures
        r == (a@ == b@),
{
    let x = a.as_bytes();
    let y = b.as_bytes();
    if x.len() != y.len() {
        return false;
    }
    let mut i: usize = 0;
    while i < x.len()
        invariant
            i <= x.len() == y.len(),
            x@ == utf8(a@),
            y@ == utf8(b@),
            x@.take(i as int) == y@.take(i as int),
        decreases x.len() - i,
    {
        if x[i] != y[i] {
            assert(x@ != y@);
            return false;
        }
        proof {
            assert(x@.take(i + 1) =~= x@.take(i as int).push(x[i as int]));
            assert(y@.take(i + 1) =~= y@.take(i as int).push(y[i as int]));
        }
        i += 1;
    }
    proof {
        assert(x@.take(i as int) =~= x@);
        assert(y@.take(i as int) =~= y@);
        utf8_injective(a@, b@);
    }
    true
}

proof fn lt_step(a: Seq<char>, b: Seq<char>, i: int)
    requires
        0 <= i <= a.len(),
        i <= b.len(),
        a.take(i) == b.take(i),
    ensures
        lt(a, b) == lt(a.skip(i), b.skip(i)),
    decreases i,
{
    if i == 0 {
        assert(a.skip(0) =~= a);
        assert(b.skip(0) =~= b);
    } else {
        assert(a[0] == a.take(i)[0]);
        assert(b[0] == b.take(i)[0]);
        let p = a.drop_first();
        let q = b.drop_first();
        assert(p.take(i - 1) =~= a.take(i).drop_first());
        assert(q.take(i - 1) =~= b.take(i).drop_first());
        lt_step(p, q, i - 1);
        assert(p.skip(i - 1) =~= a.skip(i));
        assert(q.skip(i - 1) =~= b.skip(i));
    }
}

/// Whether `a` stands before `b`.
pub fn less(a: &str, b: &str) -> (r: bool)
    ensures
        r == lt(a@, b@),
{
    let x = chars(a);
    let y = chars(b);
    let mut i: usize = 0;
    while i < x.len() && i < y.len()
        invariant
            i <= x.len(),
            i <= y.len(),
            x@ == a@,
            y@ == b@,
            x@.take(i as int) == y@.take(i as int),
        decreases x.len() - i,
    {
        if x[i] != y[i] {
            proof {
                lt_step(a@, b@, i as int);
                assert(a@.skip(i as int)[0] == x[i as int]);
                assert(b@.skip(i as int)[0] == y[i as int]);
            }
            return x[i] < y[i];
        }
        proof {
            assert(x@.take(i + 1) =~= x@.take(i as int).push(x[i as int]));
            assert(y@.take(i + 1) =~= y@.take(i as int).push(y[i as int]));
        }
        i += 1;
    }
    proof {
        lt_step(a@, b@, i as int);
    }
    i < y.len()
}

/// The pieces of `s` between the separators.
pub fn pieces(s: &str, sep: char) -> (v: Vec<String>)
    ensures
        texts(v@) == split(s@, sep),
{
    let c = chars(s);
    let mut v: Vec<String> = Vec::new();
    let mut cur: String = String::new();
    let mut i: usize = 0;
    assert(texts(v@).push(cur@) =~= split(c@.take(0), sep));
    while i < c.len()
        invariant
            i <= c.len(),
            c@ == s@,
            texts(v@).push(cur@) == split(c@.take(i as int), sep),
        decreases c.len() - i,
    {
        let ghost before = texts(v@).push(cur@);
        let ghost old_v = texts(v@);
        proof {
            assert(c@.take(i + 1).drop_last() =~= c@.take(i as int));
            assert(c@.take(i + 1).last() == c[i as int]);
        }
        if c[i] == sep {
            v.push(cur);
            cur = String::new();
            assert(texts(v@) =~= before);
        } else {
            cur.push(c[i]);
            assert(before.drop_last() =~= old_v);
        }
        i += 1;
    }
    v.push(cur);
    proof {
        assert(c@.take(i as int) =~= s@);
        assert(texts(v@) =~= split(s@, sep));
    }
    v
}

/// The pieces with `sep` between each two.
pub fn joined(v: &Vec<String>, sep: &str) -> (s: String)
    ensures
        s@ == join(texts(v@), sep@),
{
    let mut s: String = String::new();
    let mut i: usize = 0;
    while i < v.len()
        invariant
            i <= v.len(),
            s@ == join(texts(v@).take(i as int), sep@),
        decreases v.len() - i,
    {
        proof {
            assert(texts(v@).take(i + 1).drop_last() =~= texts(v@).take(i as int));
            assert(texts(v@).take(i + 1).last() == v[i as int]@);
        }
        if i > 0 {
            s.append(sep);
        }
        s.append(v[i].as_str());
        proof {
            if i == 0 {
                assert(s@ =~= v[0]@);
            }
        }
        i += 1;
    }
    assert(texts(v@).take(i as int) =~= texts(v@));
    s
}

/// How many characters stand before the first `c`.
pub fn before(v: &Vec<char>, c: char) -> (i: usize)
    ensures
        i == first(v@, c),
        i <= v.len(),
        forall|j: int| 0 <= j < i ==> v@[j] != c,
        i < v.len() ==> v@[i as int] == c,
{
    let mut i: usize = 0;
    while i < v.len()
        invariant
            i <= v.len(),
            forall|j: int| 0 <= j < i ==> v@[j] != c,
        decreases v.len() - i,
    {
        if v[i] == c {
            proof {
                first_is(v@, c, i as int);
            }
            return i;
        }
        i += 1;
    }
    proof {
        first_is(v@, c, i as int);
    }
    i
}

/// What follows `prefix` in `s`, where `s` begins with it.
pub fn after(s: &str, prefix: &str) -> (r: Option<String>)
    ensures
        r is Some == begins(s@, prefix@),
        r matches Some(rest) ==> rest@ == s@.skip(prefix@.len() as int),
{
    let c = chars(s);
    let p = chars(prefix);
    if p.len() > c.len() {
        return None;
    }
    let mut i: usize = 0;
    while i < p.len()
        invariant
            i <= p.len() <= c.len(),
            c@ == s@,
            p@ == prefix@,
            c@.take(i as int) == p@.take(i as int),
        decreases p.len() - i,
    {
        if c[i] != p[i] {
            assert(c@.take(p@.len() as int)[i as int] == c@[i as int]);
            return None;
        }
        proof {
            assert(c@.take(i + 1) =~= c@.take(i as int).push(c[i as int]));
            assert(p@.take(i + 1) =~= p@.take(i as int).push(p[i as int]));
        }
        i += 1;
    }
    assert(p@.take(i as int) =~= p@);
    let rest = spell(&c, p.len(), c.len());
    assert(rest@ =~= s@.skip(prefix@.len() as int));
    Some(rest)
}

/// Whether `s` begins with `prefix`.
pub fn starts(s: &str, prefix: &str) -> (r: bool)
    ensures
        r == begins(s@, prefix@),
{
    after(s, prefix).is_some()
}

/// The UTF-8 bytes of `s`.
pub fn bytes(s: &str) -> (v: Vec<u8>)
    ensures
        v@ == utf8(s@),
{
    let b = s.as_bytes();
    let mut v: Vec<u8> = Vec::new();
    let mut i: usize = 0;
    while i < b.len()
        invariant
            i <= b.len(),
            v@ == b@.take(i as int),
        decreases b.len() - i,
    {
        v.push(b[i]);
        proof {
            assert(b@.take(i + 1) =~= b@.take(i as int).push(b[i as int]));
        }
        i += 1;
    }
    assert(b@.take(i as int) =~= b@);
    v
}

/// A copy of the list.
pub fn copied(v: &Vec<String>) -> (r: Vec<String>)
    ensures
        texts(r@) == texts(v@),
        r@.len() == v@.len(),
{
    let mut r: Vec<String> = Vec::new();
    let mut i: usize = 0;
    while i < v.len()
        invariant
            i <= v.len(),
            texts(r@) == texts(v@).take(i as int),
        decreases v.len() - i,
    {
        let ghost prior = r@;
        r.push(v[i].clone());
        proof {
            assert(texts(r@) =~= texts(prior).push(v[i as int]@));
            assert(texts(v@).take(i + 1) =~= texts(v@).take(i as int).push(v[i as int]@));
        }
        i += 1;
    }
    assert(texts(v@).take(i as int) =~= texts(v@));
    assert(r@.len() == texts(r@).len());
    r
}

/// Whether the list holds `s`.
pub fn holds(v: &Vec<String>, s: &str) -> (r: bool)
    ensures
        r == texts(v@).contains(s@),
{
    let mut i: usize = 0;
    while i < v.len()
        invariant
            i <= v.len(),
            forall|j: int| 0 <= j < i ==> v@[j]@ != s@,
        decreases v.len() - i,
    {
        if same(v[i].as_str(), s) {
            assert(texts(v@)[i as int] == s@);
            return true;
        }
        i += 1;
    }
    assert forall|j: int| 0 <= j < texts(v@).len() implies texts(v@)[j] != s@ by {
        assert(v@[j]@ != s@);
    }
    false
}

/// The bytes that encode a text are the text's.
pub proof fn utf8_text_is(bytes: Seq<u8>, t: Seq<char>)
    requires
        utf8_text_of(bytes) == Some(t),
    ensures
        bytes == utf8(t),
{
    decode_utf8_encode_utf8(bytes);
}

/// A text stands before another where they first differ by a lesser character,
/// or where it ends there.
pub proof fn when_a_text_stands_before(a: Seq<char>, b: Seq<char>, i: int)
    requires
        0 <= i < b.len(),
        i <= a.len(),
        a.take(i) == b.take(i),
        i < a.len() ==> a[i] != b[i],
    ensures
        lt(a, b) <==> i == a.len() || a[i] < b[i],
{
    lt_step(a, b, i);
    if i < a.len() {
        assert(a.skip(i)[0] == a[i]);
    }
    assert(b.skip(i)[0] == b[i]);
}

} // verus!
