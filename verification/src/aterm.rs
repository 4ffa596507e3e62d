//! The text of a derivation, read for its outputs.
use vstd::prelude::*;
use crate::text;

verus! {

/// An output of a derivation; its path is empty where it is not known yet.
#[derive(Debug, PartialEq, Eq)]
pub struct DrvOutput {
    pub name: String,
    pub path: String,
}

/// The model of [`DrvOutput`].
#[verifier::ext_equal]
pub struct DrvOutputV {
    pub name: Seq<char>,
    pub path: Seq<char>,
}

impl View for DrvOutput {
    type V = DrvOutputV;

    open spec fn view(&self) -> DrvOutputV {
        DrvOutputV { name: self.name@, path: self.path@ }
    }
}

impl DeepView for DrvOutput {
    type V = DrvOutputV;

    open spec fn deep_view(&self) -> DrvOutputV {
        self@
    }
}

/// The character that an escaped one stands for.
pub open spec fn unescaped(c: char) -> char {
    if c == 'n' {
        '\n'
    } else if c == 'r' {
        '\r'
    } else if c == 't' {
        '\t'
    } else {
        c
    }
}

/// The rest of a string from `i` on, and where it ends.
pub open spec fn chars_from(s: Seq<char>, i: int) -> Option<(Seq<char>, int)>
    decreases s.len() - i,
{
    if i < 0 || i >= s.len() {
        None
    } else if s[i] == '"' {
        Some((Seq::empty(), i + 1))
    } else if s[i] == '\\' {
        if i + 1 >= s.len() {
            None
        } else {
            prepended(seq![unescaped(s[i + 1])], chars_from(s, i + 2))
        }
    } else {
        prepended(seq![s[i]], chars_from(s, i + 1))
    }
}

pub open spec fn prepended(head: Seq<char>, r: Option<(Seq<char>, int)>) -> Option<
    (Seq<char>, int),
> {
    match r {
        Some((t, e)) => Some((head + t, e)),
        None => None,
    }
}

/// `c` stands at `i`.
pub open spec fn is_at(s: Seq<char>, i: int, c: char) -> bool {
    0 <= i < s.len() && s[i] == c
}

/// The string at `i`, and where it ends.
pub open spec fn string_from(s: Seq<char>, i: int) -> Option<(Seq<char>, int)> {
    if is_at(s, i, '"') {
        chars_from(s, i + 1)
    } else {
        None
    }
}

/// `n` strings with commas between them at `i`, and where they end.
pub open spec fn fields_from(s: Seq<char>, i: int, n: int) -> Option<(Seq<Seq<char>>, int)>
    decreases n,
{
    if n <= 0 {
        Some((Seq::empty(), i))
    } else if n == 1 {
        match string_from(s, i) {
            Some((t, e)) => Some((seq![t], e)),
            None => None,
        }
    } else {
        match fields_from(s, i, n - 1) {
            Some((v, e)) => if is_at(s, e, ',') {
                match string_from(s, e + 1) {
                    Some((t, f)) => Some((v.push(t), f)),
                    None => None,
                }
            } else {
                None
            },
            None => None,
        }
    }
}

/// The items of a list of strings from `i` on, behind those in `v`; the last
/// of them ends at `i`.
pub open spec fn more_strings(s: Seq<char>, i: int, v: Seq<Seq<char>>) -> Option<
    (Seq<Seq<char>>, int),
>
    decreases s.len() - i,
{
    if is_at(s, i, ']') {
        Some((v, i + 1))
    } else if is_at(s, i, ',') {
        match string_from(s, i + 1) {
            Some((t, e)) => if i < e <= s.len() {
                more_strings(s, e, v.push(t))
            } else {
                None
            },
            None => None,
        }
    } else {
        None
    }
}

/// The list of strings at `i`, and where it ends.
pub open spec fn strings_from(s: Seq<char>, i: int) -> Option<(Seq<Seq<char>>, int)> {
    if !is_at(s, i, '[') {
        None
    } else if is_at(s, i + 1, ']') {
        Some((Seq::empty(), i + 2))
    } else {
        match string_from(s, i + 1) {
            Some((t, e)) => more_strings(s, e, seq![t]),
            None => None,
        }
    }
}

/// The tuple at `i`, and where it ends: `n` strings; or, where `n` is 0, a
/// string and a list of strings, of which the string is taken.
pub open spec fn tuple_from(s: Seq<char>, i: int, n: int) -> Option<(Seq<Seq<char>>, int)> {
    if !is_at(s, i, '(') {
        None
    } else if n == 0 {
        match string_from(s, i + 1) {
            Some((t, e)) => if is_at(s, e, ',') {
                match strings_from(s, e + 1) {
                    Some((_, f)) => if is_at(s, f, ')') {
                        Some((seq![t], f + 1))
                    } else {
                        None
                    },
                    None => None,
                }
            } else {
                None
            },
            None => None,
        }
    } else {
        match fields_from(s, i + 1, n) {
            Some((v, e)) => if is_at(s, e, ')') {
                Some((v, e + 1))
            } else {
                None
            },
            None => None,
        }
    }
}

/// The items of a list of tuples from `i` on, behind those in `v`.
pub open spec fn more_tuples(s: Seq<char>, i: int, n: int, v: Seq<Seq<Seq<char>>>) -> Option<
    (Seq<Seq<Seq<char>>>, int),
>
    decreases s.len() - i,
{
    if is_at(s, i, ']') {
        Some((v, i + 1))
    } else if is_at(s, i, ',') {
        match tuple_from(s, i + 1, n) {
            Some((t, e)) => if i < e <= s.len() {
                more_tuples(s, e, n, v.push(t))
            } else {
                None
            },
            None => None,
        }
    } else {
        None
    }
}

/// The list of tuples at `i`, and where it ends.
pub open spec fn tuples_from(s: Seq<char>, i: int, n: int) -> Option<(Seq<Seq<Seq<char>>>, int)> {
    if !is_at(s, i, '[') {
        None
    } else if is_at(s, i + 1, ']') {
        Some((Seq::empty(), i + 2))
    } else {
        match tuple_from(s, i + 1, n) {
            Some((t, e)) => more_tuples(s, e, n, seq![t]),
            None => None,
        }
    }
}

/// Where a part ends that a comma follows.
pub open spec fn comma(s: Seq<char>, e: Option<int>) -> Option<int> {
    match e {
        Some(i) => if is_at(s, i, ',') {
            Some(i + 1)
        } else {
            None
        },
        None => None,
    }
}

pub open spec fn end_of<T>(r: Option<(T, int)>) -> Option<int> {
    match r {
        Some((_, e)) => Some(e),
        None => None,
    }
}

/// Where the parts behind the outputs end: the inputs that are derivations,
/// those that are not, the platform, the builder, its arguments, the
/// environment.
pub open spec fn rest_end(s: Seq<char>, i: int) -> Option<int> {
    match comma(s, end_of(tuples_from(s, i, 0))) {
        None => None,
        Some(a) => match comma(s, end_of(strings_from(s, a))) {
            None => None,
            Some(b) => match comma(s, end_of(string_from(s, b))) {
                None => None,
                Some(c) => match comma(s, end_of(string_from(s, c))) {
                    None => None,
                    Some(d) => match comma(s, end_of(strings_from(s, d))) {
                        None => None,
                        Some(e) => end_of(tuples_from(s, e, 2)),
                    },
                },
            },
        },
    }
}

/// The outputs of the derivation that `s` is the text of.
pub open spec fn outputs_of(s: Seq<char>) -> Option<Seq<DrvOutputV>> {
    if !text::begins(s, "Derive("@) {
        None
    } else {
        match tuples_from(s, 7, 4) {
            None => None,
            Some((v, e)) => if is_at(s, e, ',') {
                match rest_end(s, e + 1) {
                    Some(f) => if is_at(s, f, ')') && f + 1 == s.len() {
                        Some(Seq::new(v.len(), |i: int| DrvOutputV { name: v[i][0], path: v[i][1] }))
                    } else {
                        None
                    },
                    None => None,
                }
            } else {
                None
            },
        }
    }
}

fn at(s: &Vec<char>, i: usize, c: char) -> (r: bool)
    ensures
        r == is_at(s@, i as int, c),
        r ==> i < s.len(),
{
    i < s.len() && s[i] == c
}

proof fn prepended_twice(a: Seq<char>, b: Seq<char>, r: Option<(Seq<char>, int)>)
    ensures
        prepended(a, prepended(b, r)) == prepended(a + b, r),
{
    if let Some((t, e)) = r {
        assert(a + (b + t) =~= a + b + t);
    }
}

/// `r` is the outcome of a parse: the value and where it ends.
pub open spec fn got<T: DeepView>(r: Option<(T, usize)>) -> Option<(T::V, int)> {
    match r {
        Some((t, e)) => Some((t.deep_view(), e as int)),
        None => None,
    }
}

fn string_at(s: &Vec<char>, i: usize) -> (r: Option<(String, usize)>)
    ensures
        got(r) == string_from(s@, i as int),
        r matches Some((_, e)) ==> i < e <= s.len(),
{
    if !at(s, i, '"') {
        return None;
    }
    let ghost whole = string_from(s@, i as int);
    let mut t: String = String::new();
    let mut j: usize = i + 1;
    proof {
        if let Some((x, e)) = chars_from(s@, j as int) {
            assert(t@ + x =~= x);
        }
    }
    while j < s.len()
        invariant
            i < j <= s.len(),
            whole == string_from(s@, i as int),
            whole == prepended(t@, chars_from(s@, j as int)),
        decreases s.len() - j,
    {
        let c = s[j];
        if c == '"' {
            assert(t@ + Seq::<char>::empty() =~= t@);
            return Some((t, j + 1));
        }
        let ghost prior = t@;
        if c == '\\' {
            if j + 1 >= s.len() {
                return None;
            }
            let d = s[j + 1];
            let u = if d == 'n' {
                '\n'
            } else if d == 'r' {
                '\r'
            } else if d == 't' {
                '\t'
            } else {
                d
            };
            t.push(u);
            proof {
                prepended_twice(prior, seq![u], chars_from(s@, j + 2));
                assert(t@ =~= prior + seq![u]);
            }
            j += 2;
        } else {
            t.push(c);
            proof {
                prepended_twice(prior, seq![c], chars_from(s@, j + 1));
                assert(t@ =~= prior + seq![c]);
            }
            j += 1;
        }
    }
    None
}

fn fields_at(s: &Vec<char>, i: usize, n: usize) -> (r: Option<(Vec<String>, usize)>)
    requires
        n >= 1,
    ensures
        got(r) == fields_from(s@, i as int, n as int),
        r matches Some((v, e)) ==> i < e <= s.len() && v.len() == n,
    decreases n,
{
    if n == 1 {
        return match string_at(s, i) {
            Some((t, e)) => {
                let mut v: Vec<String> = Vec::new();
                v.push(t);
                assert(v.deep_view() =~= seq![t@]);
                Some((v, e))
            },
            None => None,
        };
    }
    let Some((mut v, e)) = fields_at(s, i, n - 1) else {
        return None;
    };
    if !at(s, e, ',') {
        return None;
    }
    let Some((t, f)) = string_at(s, e + 1) else {
        return None;
    };
    let ghost prior = v.deep_view();
    v.push(t);
    assert(v.deep_view() =~= prior.push(t@));
    Some((v, f))
}

fn strings_at(s: &Vec<char>, i: usize) -> (r: Option<(Vec<String>, usize)>)
    ensures
        got(r) == strings_from(s@, i as int),
        r matches Some((_, e)) ==> i < e <= s.len(),
{
    if !at(s, i, '[') {
        return None;
    }
    let mut v: Vec<String> = Vec::new();
    if at(s, i + 1, ']') {
        assert(v.deep_view() =~= Seq::<Seq<char>>::empty());
        return Some((v, i + 2));
    }
    let Some((t, e)) = string_at(s, i + 1) else {
        return None;
    };
    v.push(t);
    assert(v.deep_view() =~= seq![t@]);
    let ghost whole = strings_from(s@, i as int);
    let mut j: usize = e;
    while !at(s, j, ']')
        invariant
            i < j <= s.len(),
            whole == strings_from(s@, i as int),
            whole == more_strings(s@, j as int, v.deep_view()),
        decreases s.len() - j,
    {
        if !at(s, j, ',') {
            return None;
        }
        let Some((t, e)) = string_at(s, j + 1) else {
            return None;
        };
        let ghost prior = v.deep_view();
        v.push(t);
        assert(v.deep_view() =~= prior.push(t@));
        j = e;
    }
    Some((v, j + 1))
}

fn tuple_at(s: &Vec<char>, i: usize, n: usize) -> (r: Option<(Vec<String>, usize)>)
    ensures
        got(r) == tuple_from(s@, i as int, n as int),
        r matches Some((v, e)) ==> i < e <= s.len() && v.len() == (if n == 0 {
            1
        } else {
            n as int
        }),
{
    if !at(s, i, '(') {
        return None;
    }
    if n == 0 {
        let Some((t, e)) = string_at(s, i + 1) else {
            return None;
        };
        if !at(s, e, ',') {
            return None;
        }
        let Some((_, f)) = strings_at(s, e + 1) else {
            return None;
        };
        if !at(s, f, ')') {
            return None;
        }
        let mut v: Vec<String> = Vec::new();
        v.push(t);
        assert(v.deep_view() =~= seq![t@]);
        return Some((v, f + 1));
    }
    let Some((v, e)) = fields_at(s, i + 1, n) else {
        return None;
    };
    if !at(s, e, ')') {
        return None;
    }
    Some((v, e + 1))
}

fn tuples_at(s: &Vec<char>, i: usize, n: usize) -> (r: Option<(Vec<Vec<String>>, usize)>)
    ensures
        got(r) == tuples_from(s@, i as int, n as int),
        r matches Some((v, e)) ==> i < e <= s.len() && forall|k: int|
            0 <= k < v.len() ==> (#[trigger] v@[k]).len() >= n,
{
    if !at(s, i, '[') {
        return None;
    }
    let mut v: Vec<Vec<String>> = Vec::new();
    if at(s, i + 1, ']') {
        assert(v.deep_view() =~= Seq::<Seq<Seq<char>>>::empty());
        return Some((v, i + 2));
    }
    let Some((t, e)) = tuple_at(s, i + 1, n) else {
        return None;
    };
    let ghost first = t.deep_view();
    v.push(t);
    assert(v.deep_view() =~= seq![first]);
    let ghost whole = tuples_from(s@, i as int, n as int);
    let mut j: usize = e;
    while !at(s, j, ']')
        invariant
            i < j <= s.len(),
            whole == tuples_from(s@, i as int, n as int),
            whole == more_tuples(s@, j as int, n as int, v.deep_view()),
            forall|k: int| 0 <= k < v.len() ==> (#[trigger] v@[k]).len() >= n,
        decreases s.len() - j,
    {
        if !at(s, j, ',') {
            return None;
        }
        let Some((t, e)) = tuple_at(s, j + 1, n) else {
            return None;
        };
        let ghost prior = v.deep_view();
        let ghost item = t.deep_view();
        v.push(t);
        assert(v.deep_view() =~= prior.push(item));
        j = e;
    }
    Some((v, j + 1))
}

fn rest_at(s: &Vec<char>, i: usize) -> (r: Option<usize>)
    ensures
        (match r {
            Some(e) => Some(e as int),
            None => None,
        }) == rest_end(s@, i as int),
        r matches Some(e) ==> e <= s.len(),
{
    let Some((_, a)) = tuples_at(s, i, 0) else {
        return None;
    };
    if !at(s, a, ',') {
        return None;
    }
    let Some((_, b)) = strings_at(s, a + 1) else {
        return None;
    };
    if !at(s, b, ',') {
        return None;
    }
    let Some((_, c)) = string_at(s, b + 1) else {
        return None;
    };
    if !at(s, c, ',') {
        return None;
    }
    let Some((_, d)) = string_at(s, c + 1) else {
        return None;
    };
    if !at(s, d, ',') {
        return None;
    }
    let Some((_, e)) = strings_at(s, d + 1) else {
        return None;
    };
    if !at(s, e, ',') {
        return None;
    }
    match tuples_at(s, e + 1, 2) {
        Some((_, f)) => Some(f),
        None => None,
    }
}

/// The outputs of the derivation that `t` is the text of.
pub fn parse(t: &str) -> (r: Option<Vec<DrvOutput>>)
    ensures
        r.deep_view() == outputs_of(t@),
{
    if !text::starts(t, "Derive(") {
        return None;
    }
    let s = text::chars(t);
    let Some((v, e)) = tuples_at(&s, 7, 4) else {
        return None;
    };
    if !at(&s, e, ',') {
        return None;
    }
    let Some(f) = rest_at(&s, e + 1) else {
        return None;
    };
    if !at(&s, f, ')') || f + 1 != s.len() {
        return None;
    }
    let ghost all = v.deep_view();
    let ghost want = Seq::new(
        all.len(),
        |i: int| DrvOutputV { name: all[i][0], path: all[i][1] },
    );
    let mut out: Vec<DrvOutput> = Vec::new();
    let mut i: usize = 0;
    while i < v.len()
        invariant
            i <= v.len(),
            all == v.deep_view(),
            out.len() == i,
            forall|k: int| 0 <= k < v.len() ==> (#[trigger] v@[k]).len() >= 4,
            want == Seq::new(
                all.len(),
                |i: int| DrvOutputV { name: all[i][0], path: all[i][1] },
            ),
            forall|j: int| 0 <= j < i ==> (#[trigger] out@[j])@ == want[j],
        decreases v.len() - i,
    {
        let item = &v[i];
        out.push(DrvOutput { name: item[0].clone(), path: item[1].clone() });
        assert(want[i as int] == out@[i as int]@) by {
            assert(all[i as int] == v@[i as int].deep_view());
        }
        i += 1;
    }
    assert(out.deep_view() =~= want);
    Some(out)
}

/// `x` stands in `s` from `i` on.
pub open spec fn stands_at(s: Seq<char>, i: int, x: Seq<char>) -> bool {
    0 <= i && i + x.len() <= s.len() && s.subrange(i, i + x.len()) == x
}

/// The text needs no escape.
pub open spec fn unescaped_text(t: Seq<char>) -> bool {
    forall|i: int| 0 <= i < t.len() ==> #[trigger] t[i] != '"' && t[i] != '\\'
}

/// A text between quotation marks.
pub open spec fn quoted(t: Seq<char>) -> Seq<char> {
    seq!['"'] + t + seq!['"']
}

proof fn chars_are_read(s: Seq<char>, i: int, t: Seq<char>)
    requires
        unescaped_text(t),
        stands_at(s, i, t.push('"')),
    ensures
        chars_from(s, i) == Some((t, i + t.len() + 1)),
    decreases t.len(),
{
    let x = t.push('"');
    assert(s.subrange(i, i + x.len())[0] == s[i]);
    assert(x[0] == s[i]);
    if t.len() == 0 {
        assert(t =~= Seq::<char>::empty());
    } else {
        let rest = t.drop_first();
        assert(t[0] != '"' && t[0] != '\\');
        assert forall|k: int| 0 <= k < rest.len() implies #[trigger] rest[k] != '"' && rest[k]
            != '\\' by {
            assert(rest[k] == t[k + 1]);
        }
        assert(s.subrange(i + 1, i + 1 + rest.push('"').len()) =~= rest.push('"')) by {
            assert forall|k: int| 0 <= k < rest.push('"').len() implies s[i + 1 + k]
                == #[trigger] rest.push('"')[k] by {
                assert(s.subrange(i, i + x.len())[k + 1] == x[k + 1]);
            }
        }
        chars_are_read(s, i + 1, rest);
        assert(seq![s[i]] + rest =~= t);
    }
}

/// A text between quotation marks is read as it is.
pub proof fn a_quoted_text_is_read(s: Seq<char>, i: int, t: Seq<char>)
    requires
        unescaped_text(t),
        stands_at(s, i, quoted(t)),
    ensures
        string_from(s, i) == Some((t, i + t.len() + 2)),
{
    let x = quoted(t);
    assert(s.subrange(i, i + x.len())[0] == x[0]);
    assert(s.subrange(i + 1, i + 1 + t.push('"').len()) =~= t.push('"')) by {
        assert forall|k: int| 0 <= k < t.push('"').len() implies s[i + 1 + k] == #[trigger] t.push(
            '"',
        )[k] by {
            assert(s.subrange(i, i + x.len())[k + 1] == x[k + 1]);
        }
    }
    chars_are_read(s, i + 1, t);
}

/// Behind a backslash stands an escape: of a line feed, a return or a tab by
/// its letter, and of each other character by itself.
pub proof fn what_an_escape_stands_for(s: Seq<char>, i: int)
    requires
        0 <= i,
        i + 1 < s.len(),
        s[i] == '\\',
    ensures
        chars_from(s, i + 2) matches Some((t, e)) ==> chars_from(s, i) == Some(
            (
                seq![
                    if s[i + 1] == 'n' {
                        '\n'
                    } else if s[i + 1] == 'r' {
                        '\r'
                    } else if s[i + 1] == 't' {
                        '\t'
                    } else {
                        s[i + 1]
                    },
                ] + t,
                e,
            ),
        ),
{
}

/// An output as a derivation's text gives it: its name, its path, and how and
/// to what its contents are hashed.
pub struct WrittenOutput {
    pub name: Seq<char>,
    pub path: Seq<char>,
    pub algo: Seq<char>,
    pub hash: Seq<char>,
}

/// The output in a derivation's text.
pub open spec fn output_written(o: WrittenOutput) -> Seq<char> {
    seq!['('] + quoted(o.name) + seq![','] + quoted(o.path) + seq![','] + quoted(o.algo) + seq![
        ',',
    ] + quoted(o.hash) + seq![')']
}

/// The outputs, with commas between them.
pub open spec fn outputs_written(v: Seq<WrittenOutput>) -> Seq<char>
    decreases v.len(),
{
    if v.len() == 0 {
        Seq::empty()
    } else if v.len() == 1 {
        output_written(v[0])
    } else {
        output_written(v[0]) + seq![','] + outputs_written(v.drop_first())
    }
}

/// No part of the output needs an escape.
pub open spec fn plain_output(o: WrittenOutput) -> bool {
    unescaped_text(o.name) && unescaped_text(o.path) && unescaped_text(o.algo) && unescaped_text(
        o.hash,
    )
}

proof fn stands_within(s: Seq<char>, i: int, a: Seq<char>, b: Seq<char>, c: Seq<char>)
    requires
        stands_at(s, i, a + b + c),
    ensures
        stands_at(s, i + a.len(), b),
{
    let x = a + b + c;
    assert(s.subrange(i + a.len(), i + a.len() + b.len()) =~= b) by {
        assert forall|k: int| 0 <= k < b.len() implies s[i + a.len() + k] == #[trigger] b[k] by {
            assert(s.subrange(i, i + x.len())[a.len() + k] == x[a.len() + k]);
        }
    }
}

proof fn an_output_is_read(s: Seq<char>, i: int, o: WrittenOutput)
    requires
        plain_output(o),
        stands_at(s, i, output_written(o)),
    ensures
        tuple_from(s, i, 4) == Some(
            (seq![o.name, o.path, o.algo, o.hash], i + output_written(o).len()),
        ),
{
    let x = output_written(o);
    let none = Seq::<char>::empty();
    let open = seq!['('];
    let comma = seq![','];
    let close = seq![')'];
    let (n, p, a, h) = (quoted(o.name), quoted(o.path), quoted(o.algo), quoted(o.hash));
    let a1 = open;
    let a2 = a1 + n;
    let a3 = a2 + comma;
    let a4 = a3 + p;
    let a5 = a4 + comma;
    let a6 = a5 + a;
    let a7 = a6 + comma;
    let a8 = a7 + h;
    assert(x =~= none + open + (n + comma + p + comma + a + comma + h + close));
    stands_within(s, i, none, open, n + comma + p + comma + a + comma + h + close);
    assert(x =~= a1 + n + (comma + p + comma + a + comma + h + close));
    stands_within(s, i, a1, n, comma + p + comma + a + comma + h + close);
    assert(x =~= a2 + comma + (p + comma + a + comma + h + close));
    stands_within(s, i, a2, comma, p + comma + a + comma + h + close);
    assert(x =~= a3 + p + (comma + a + comma + h + close));
    stands_within(s, i, a3, p, comma + a + comma + h + close);
    assert(x =~= a4 + comma + (a + comma + h + close));
    stands_within(s, i, a4, comma, a + comma + h + close);
    assert(x =~= a5 + a + (comma + h + close));
    stands_within(s, i, a5, a, comma + h + close);
    assert(x =~= a6 + comma + (h + close));
    stands_within(s, i, a6, comma, h + close);
    assert(x =~= a7 + h + close);
    stands_within(s, i, a7, h, close);
    assert(x =~= a8 + close + none);
    stands_within(s, i, a8, close, none);
    one_stands(s, i, '(');
    one_stands(s, i + a2.len(), ',');
    one_stands(s, i + a4.len(), ',');
    one_stands(s, i + a6.len(), ',');
    one_stands(s, i + a8.len(), ')');
    a_quoted_text_is_read(s, i + a1.len(), o.name);
    a_quoted_text_is_read(s, i + a3.len(), o.path);
    a_quoted_text_is_read(s, i + a5.len(), o.algo);
    a_quoted_text_is_read(s, i + a7.len(), o.hash);
    reveal_with_fuel(fields_from, 5);
    let at = i + 1;
    assert(fields_from(s, at, 1) == Some((seq![o.name], i + a2.len() as int)));
    assert(fields_from(s, at, 2) == Some((seq![o.name].push(o.path), i + a4.len() as int)));
    assert(fields_from(s, at, 3) == Some(
        (seq![o.name].push(o.path).push(o.algo), i + a6.len() as int),
    ));
    assert(fields_from(s, at, 4) == Some(
        (seq![o.name].push(o.path).push(o.algo).push(o.hash), i + a8.len() as int),
    ));
    assert(seq![o.name].push(o.path).push(o.algo).push(o.hash) =~= seq![
        o.name,
        o.path,
        o.algo,
        o.hash,
    ]);
}

proof fn one_stands(s: Seq<char>, i: int, c: char)
    requires
        stands_at(s, i, seq![c]),
    ensures
        is_at(s, i, c),
{
    assert(s.subrange(i, i + 1)[0] == s[i]);
    assert(seq![c][0] == c);
}

/// The parts of the outputs.
pub open spec fn output_parts(v: Seq<WrittenOutput>) -> Seq<Seq<Seq<char>>> {
    Seq::new(v.len(), |i: int| seq![v[i].name, v[i].path, v[i].algo, v[i].hash])
}

proof fn more_outputs_are_read(
    s: Seq<char>,
    i: int,
    v: Seq<WrittenOutput>,
    seen: Seq<Seq<Seq<char>>>,
)
    requires
        forall|k: int| 0 <= k < v.len() ==> plain_output(#[trigger] v[k]),
        v.len() > 0 ==> stands_at(s, i, seq![','] + outputs_written(v) + seq![']']),
        v.len() == 0 ==> stands_at(s, i, seq![']']),
    ensures
        more_tuples(s, i, 4, seen) == Some(
            (
                seen + output_parts(v),
                i + (if v.len() > 0 {
                    outputs_written(v).len() + 2
                } else {
                    1
                }),
            ),
        ),
    decreases v.len(),
{
    let none = Seq::<char>::empty();
    if v.len() == 0 {
        one_stands(s, i, ']');
        assert(seen + output_parts(v) =~= seen);
    } else {
        let comma = seq![','];
        let close = seq![']'];
        let o = output_written(v[0]);
        let rest = v.drop_first();
        let tail = if v.len() == 1 {
            close
        } else {
            comma + outputs_written(rest) + close
        };
        let x = comma + outputs_written(v) + close;
        assert(x =~= comma + o + tail);
        assert(x =~= none + comma + (o + tail));
        stands_within(s, i, none, comma, o + tail);
        one_stands(s, i, ',');
        stands_within(s, i, comma, o, tail);
        assert(x =~= (comma + o) + tail + none);
        stands_within(s, i, comma + o, tail, none);
        assert(plain_output(v[0]));
        an_output_is_read(s, i + 1, v[0]);
        let e = i + 1 + o.len();
        let parts = seq![v[0].name, v[0].path, v[0].algo, v[0].hash];
        assert forall|k: int| 0 <= k < rest.len() implies plain_output(#[trigger] rest[k]) by {
            assert(rest[k] == v[k + 1]);
        }
        more_outputs_are_read(s, e, rest, seen.push(parts));
        assert(seen.push(parts) + output_parts(rest) =~= seen + output_parts(v));
    }
}

proof fn the_list_is_read(s: Seq<char>, i: int, v: Seq<WrittenOutput>)
    requires
        forall|k: int| 0 <= k < v.len() ==> plain_output(#[trigger] v[k]),
        stands_at(s, i, seq!['['] + outputs_written(v) + seq![']']),
    ensures
        tuples_from(s, i, 4) matches Some((parts, e)) && parts == output_parts(v),
{
    let open = seq!['['];
    let close = seq![']'];
    let none = Seq::<char>::empty();
    let x = open + outputs_written(v) + close;
    assert(x =~= none + open + (outputs_written(v) + close));
    stands_within(s, i, none, open, outputs_written(v) + close);
    one_stands(s, i, '[');
    if v.len() == 0 {
        assert(outputs_written(v) =~= none);
        assert(x =~= open + close + none);
        stands_within(s, i, open, close, none);
        one_stands(s, i + 1, ']');
        assert(output_parts(v) =~= Seq::<Seq<Seq<char>>>::empty());
    } else {
        let o = output_written(v[0]);
        let more = v.drop_first();
        let tail = if v.len() == 1 {
            close
        } else {
            seq![','] + outputs_written(more) + close
        };
        assert(x =~= open + o + tail);
        stands_within(s, i, open, o, tail);
        assert(x =~= (open + o) + tail + none);
        stands_within(s, i, open + o, tail, none);
        assert(plain_output(v[0]));
        an_output_is_read(s, i + 1, v[0]);
        assert(o[0] == '(');
        assert(s.subrange(i + 1, i + 1 + o.len() as int)[0] == s[i + 1]);
        assert forall|k: int| 0 <= k < more.len() implies plain_output(#[trigger] more[k]) by {
            assert(more[k] == v[k + 1]);
        }
        let parts = seq![v[0].name, v[0].path, v[0].algo, v[0].hash];
        more_outputs_are_read(s, i + 1 + o.len() as int, more, seq![parts]);
        assert(seq![parts] + output_parts(more) =~= output_parts(v));
    }
}

proof fn outputs_are_of_the_list(s: Seq<char>, v: Seq<WrittenOutput>, e: int)
    requires
        outputs_of(s) is Some,
        tuples_from(s, 7, 4) == Some((output_parts(v), e)),
    ensures
        outputs_of(s) == Some(
            Seq::new(v.len(), |i: int| DrvOutputV { name: v[i].name, path: v[i].path }),
        ),
{
    let parts = output_parts(v);
    let a = Seq::new(parts.len(), |i: int| DrvOutputV { name: parts[i][0], path: parts[i][1] });
    let b = Seq::new(v.len(), |i: int| DrvOutputV { name: v[i].name, path: v[i].path });
    assert(outputs_of(s) == Some(a));
    assert forall|k: int| 0 <= k < b.len() implies a[k] == b[k] by {
        assert(parts[k] == seq![v[k].name, v[k].path, v[k].algo, v[k].hash]);
    }
    assert(a =~= b);
}

/// The outputs that a derivation's text lists are read by their names, each
/// with its path: the first and the second of its four parts.
pub proof fn the_outputs_are_read(v: Seq<WrittenOutput>, s: Seq<char>)
    requires
        forall|k: int| 0 <= k < v.len() ==> plain_output(#[trigger] v[k]),
        stands_at(s, 7, seq!['['] + outputs_written(v) + seq![']']),
        outputs_of(s) is Some,
    ensures
        outputs_of(s) == Some(
            Seq::new(v.len(), |i: int| DrvOutputV { name: v[i].name, path: v[i].path }),
        ),
{
    the_list_is_read(s, 7, v);
    match tuples_from(s, 7, 4) {
        Some((parts, e)) => {
            outputs_are_of_the_list(s, v, e);
        },
        None => {},
    }
}

/// A derivation's text is one from its first character to its last.
pub proof fn a_derivation_is_the_whole_text(s: Seq<char>)
    requires
        outputs_of(s) is Some,
    ensures
        s.len() > 8,
        s.take(7) == "Derive("@,
        s[7] == '[',
        s.last() == ')',
{
    reveal_strlit("Derive(");
}

} // verus!
