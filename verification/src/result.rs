//! The outcome of an evaluation, and how it is written.
use vstd::prelude::*;
use crate::codec;
use crate::codec::{CanonV, CanonValue};
use crate::model;
use crate::model::Plain;
use crate::number;
use crate::recorder;
use crate::recorder::{Emission, EmissionV};
use crate::refusal;
use crate::refusal::RefusalToken;
use crate::table;
use crate::text;

verus! {

/// A place in a source.
#[derive(Debug, PartialEq, Eq)]
pub struct SrcPos {
    pub file: Option<String>,
    pub line: u32,
    pub column: u32,
}

/// The model of [`SrcPos`].
#[verifier::ext_equal]
pub struct SrcPosV {
    pub file: Option<Seq<char>>,
    pub line: u32,
    pub column: u32,
}

impl View for SrcPos {
    type V = SrcPosV;

    open spec fn view(&self) -> SrcPosV {
        SrcPosV {
            file: self.file.deep_view(),
            line: self.line,
            column: self.column,
        }
    }
}

impl DeepView for SrcPos {
    type V = SrcPosV;

    open spec fn deep_view(&self) -> SrcPosV {
        self@
    }
}

impl Clone for SrcPos {
    fn clone(&self) -> (r: Self)
        ensures
            r@ == self@,
    {
        self.copied()
    }
}

impl Plain for SrcPos {
    fn copied(&self) -> (r: Self) {
        SrcPos {
            file: self.file.copied(),
            line: self.line.copied(),
            column: self.column.copied(),
        }
    }

    fn same(&self, other: &Self) -> (r: bool) {
        let s0 = self.file.same(&other.file);
        let s1 = self.line.same(&other.line);
        let s2 = self.column.same(&other.column);
        s0 && s1 && s2
    }
}

/// The outcome of an evaluation.
#[derive(Debug, PartialEq, Eq)]
pub struct EvalResult {
    pub status: String,
    pub value: String,
    /// What the evaluation said, in order.
    pub emissions: Vec<Emission>,
    /// The kind of refusal that the status records.
    pub token: Option<RefusalToken>,
    /// Where the failure happened.
    pub pos: Option<SrcPos>,
}

/// The model of [`EvalResult`].
#[verifier::ext_equal]
pub struct EvalResultV {
    pub status: Seq<char>,
    pub value: Seq<char>,
    pub emissions: Seq<EmissionV>,
    pub token: Option<RefusalToken>,
    pub pos: Option<SrcPosV>,
}

impl View for EvalResult {
    type V = EvalResultV;

    open spec fn view(&self) -> EvalResultV {
        EvalResultV {
            status: self.status@,
            value: self.value@,
            emissions: self.emissions.deep_view(),
            token: self.token.deep_view(),
            pos: self.pos.deep_view(),
        }
    }
}

impl DeepView for EvalResult {
    type V = EvalResultV;

    open spec fn deep_view(&self) -> EvalResultV {
        self@
    }
}

impl Clone for EvalResult {
    fn clone(&self) -> (r: Self)
        ensures
            r@ == self@,
    {
        self.copied()
    }
}

impl Plain for EvalResult {
    fn copied(&self) -> (r: Self) {
        EvalResult {
            status: self.status.copied(),
            value: self.value.copied(),
            emissions: self.emissions.copied(),
            token: self.token.copied(),
            pos: self.pos.copied(),
        }
    }

    fn same(&self, other: &Self) -> (r: bool) {
        let s0 = self.status.same(&other.status);
        let s1 = self.value.same(&other.value);
        let s2 = self.emissions.same(&other.emissions);
        let s3 = self.token.same(&other.token);
        let s4 = self.pos.same(&other.pos);
        s0 && s1 && s2 && s3 && s4
    }
}

impl Default for EvalResult {
    fn default() -> (r: Self)
        ensures
            r@ == (EvalResultV {
                status: Seq::empty(),
                value: Seq::empty(),
                emissions: Seq::empty(),
                token: None,
                pos: None,
            }),
    {
        let r = EvalResult {
            status: String::new(),
            value: String::new(),
            emissions: Vec::new(),
            token: None,
            pos: None,
        };
        assert(r.emissions.deep_view() =~= Seq::<EmissionV>::empty());
        r
    }
}

/// A place as a list: nothing, or its file, line and column.
pub open spec fn pos_written(pos: Option<SrcPosV>) -> Seq<CanonV> {
    match pos {
        None => Seq::empty(),
        Some(p) => seq![
            CanonV::Str(
                match p.file {
                    Some(f) => f,
                    None => Seq::empty(),
                },
            ),
            CanonV::Str(number::decimal(p.line as nat)),
            CanonV::Str(number::decimal(p.column as nat)),
        ],
    }
}

/// An emission as a list: its kind and its message.
pub open spec fn emission_written(e: EmissionV) -> CanonV {
    CanonV::Array(seq![CanonV::Str(e.spec_parts().0), CanonV::Str(e.spec_parts().1)])
}

/// What is written of a token: its name, or nothing.
pub open spec fn token_written(token: Option<RefusalToken>) -> Seq<char> {
    match token {
        Some(t) => t.name(),
        None => Seq::empty(),
    }
}

/// What an outcome is written as.
pub open spec fn result_written(r: EvalResultV) -> CanonV {
    CanonV::Table(
        seq![
            (CanonV::Str("status"@), CanonV::Str(r.status)),
            (CanonV::Str("value"@), CanonV::Str(r.value)),
            (CanonV::Str("token"@), CanonV::Str(token_written(r.token))),
            (CanonV::Str("pos"@), CanonV::Array(pos_written(r.pos))),
            (
                CanonV::Str("emissions"@),
                CanonV::Array(
                    Seq::new(r.emissions.len(), |i: int| emission_written(r.emissions[i])),
                ),
            ),
        ],
    )
}

/// The emission that is written so.
pub open spec fn emission_read(v: CanonV) -> Option<EmissionV> {
    match v {
        CanonV::Array(pair) => if pair.len() != 2 {
            None
        } else {
            match (pair[0], pair[1]) {
                (CanonV::Str(kind), CanonV::Str(message)) => EmissionV::read(kind, message),
                _ => None,
            }
        },
        _ => None,
    }
}

/// The emissions that are written so.
pub open spec fn emissions_read(items: Seq<CanonV>) -> Option<Seq<EmissionV>> {
    if forall|i: int| 0 <= i < items.len() ==> emission_read(#[trigger] items[i]) is Some {
        Some(Seq::new(items.len(), |i: int| emission_read(items[i])->0))
    } else {
        None
    }
}

/// The number of a line or a column, which may have a plus sign.
pub open spec fn place_read(s: Seq<char>) -> Option<u32> {
    let digits = if s.len() > 1 && s[0] == '+' {
        s.skip(1)
    } else {
        s
    };
    match number::read(digits) {
        Some(n) => if n <= u32::MAX {
            Some(n as u32)
        } else {
            None
        },
        None => None,
    }
}

/// The place that is written so: no items are no place.
pub open spec fn pos_read(items: Seq<CanonV>) -> Option<Option<SrcPosV>> {
    if items.len() == 0 {
        Some(None)
    } else if items.len() != 3 {
        None
    } else {
        match (items[0], items[1], items[2]) {
            (CanonV::Str(file), CanonV::Str(line), CanonV::Str(column)) => match (
                place_read(line),
                place_read(column),
            ) {
                (Some(line), Some(column)) => Some(
                    Some(
                        SrcPosV {
                            file: if file.len() == 0 {
                                None
                            } else {
                                Some(file)
                            },
                            line,
                            column,
                        },
                    ),
                ),
                _ => None,
            },
            _ => None,
        }
    }
}

/// The token of a name; no name is no token.
pub open spec fn token_read(name: Seq<char>) -> Option<Option<RefusalToken>> {
    if name.len() == 0 {
        Some(None)
    } else {
        match RefusalToken::named(name) {
            Some(t) => Some(Some(t)),
            None => None,
        }
    }
}

/// The outcome in the entries of a table.
pub open spec fn fields_read(t: Seq<(CanonV, CanonV)>) -> Option<EvalResultV> {
    match (
        table::list_field(t, "emissions"@),
        table::text_field(t, "status"@),
        table::text_field(t, "token"@),
        table::list_field(t, "pos"@),
        table::text_field(t, "value"@),
    ) {
        (Some(emissions), Some(status), Some(token), Some(pos), Some(value)) => match (
            emissions_read(emissions),
            token_read(token),
            pos_read(pos),
        ) {
            (Some(emissions), Some(token), Some(pos)) => Some(
                EvalResultV { status, value, emissions, token, pos },
            ),
            _ => None,
        },
        _ => None,
    }
}

/// The outcome that is written so.
pub open spec fn result_read(v: CanonV) -> Option<EvalResultV> {
    match v {
        CanonV::Table(t) => fields_read(t),
        _ => None,
    }
}

proof fn place_reads_back(n: u32)
    ensures
        place_read(number::decimal(n as nat)) == Some(n),
{
    number::decimal_reads_back(n as u64);
    let s = number::decimal(n as nat);
    assert(s.len() > 0);
    assert(number::is_digit(s[0]));
}

proof fn written_fields(r: EvalResultV)
    ensures
        result_written(r) matches CanonV::Table(t) && {
            &&& table::text_field(t, "status"@) == Some(r.status)
            &&& table::text_field(t, "value"@) == Some(r.value)
            &&& table::text_field(t, "token"@) == Some(token_written(r.token))
            &&& table::list_field(t, "pos"@) == Some(pos_written(r.pos))
            &&& table::list_field(t, "emissions"@) == Some(
                Seq::new(r.emissions.len(), |i: int| emission_written(r.emissions[i])),
            )
        },
{
    reveal_strlit("status");
    reveal_strlit("value");
    reveal_strlit("token");
    reveal_strlit("pos");
    reveal_strlit("emissions");
    assert("value"@[0] != "token"@[0]);
    assert("status"@.len() == 6 && "value"@.len() == 5 && "token"@.len() == 5 && "pos"@.len() == 3
        && "emissions"@.len() == 9);
    if let CanonV::Table(t) = result_written(r) {
        let t1 = t.drop_first();
        let t2 = t1.drop_first();
        let t3 = t2.drop_first();
        let t4 = t3.drop_first();
        assert(t1[0] == t[1] && t2[0] == t[2] && t3[0] == t[3] && t4[0] == t[4]);
        assert(table::text_field(t, "status"@) == Some(r.status));
        assert(table::text_field(t1, "value"@) == Some(r.value));
        assert(table::text_field(t, "value"@) == Some(r.value));
        assert(table::text_field(t2, "token"@) == Some(token_written(r.token)));
        assert(table::text_field(t1, "token"@) == Some(token_written(r.token)));
        assert(table::text_field(t, "token"@) == Some(token_written(r.token)));
        let p = pos_written(r.pos);
        assert(table::list_field(t3, "pos"@) == Some(p));
        assert(table::list_field(t2, "pos"@) == Some(p));
        assert(table::list_field(t1, "pos"@) == Some(p));
        assert(table::list_field(t, "pos"@) == Some(p));
        let e = Seq::new(r.emissions.len(), |i: int| emission_written(r.emissions[i]));
        assert(table::list_field(t4, "emissions"@) == Some(e));
        assert(table::list_field(t3, "emissions"@) == Some(e));
        assert(table::list_field(t2, "emissions"@) == Some(e));
        assert(table::list_field(t1, "emissions"@) == Some(e));
        assert(table::list_field(t, "emissions"@) == Some(e));
    }
}

proof fn pos_reads_back(pos: Option<SrcPosV>)
    requires
        pos matches Some(p) ==> p.file != Some(Seq::<char>::empty()),
    ensures
        pos_read(pos_written(pos)) == Some(pos),
{
    if let Some(p) = pos {
        place_reads_back(p.line);
        place_reads_back(p.column);
        if let Some(f) = p.file {
            if f.len() == 0 {
                assert(f =~= Seq::<char>::empty());
            }
        }
    }
}

/// An outcome is read back as it was written, wherever its place does not
/// name its file with the empty text.
pub proof fn result_round_trips(r: EvalResultV)
    requires
        r.pos matches Some(p) ==> p.file != Some(Seq::<char>::empty()),
    ensures
        result_read(result_written(r)) == Some(r),
{
    written_fields(r);
    pos_reads_back(r.pos);
    let e = Seq::new(r.emissions.len(), |i: int| emission_written(r.emissions[i]));
    assert forall|i: int| 0 <= i < e.len() implies emission_read(#[trigger] e[i]) == Some(
        r.emissions[i],
    ) by {
        recorder::emission_reads_back(r.emissions[i]);
    }
    assert(emissions_read(e)->0 =~= r.emissions);
    if let Some(t) = r.token {
        refusal::names_are_bare(t);
        refusal::named_is(t);
    }
}

fn pos_values(pos: &Option<SrcPos>) -> (r: CanonValue)
    ensures
        r@ == CanonV::Array(pos_written(pos.deep_view())),
{
    let mut items: Vec<CanonValue> = Vec::new();
    if let Some(p) = pos {
        let file = match &p.file {
            Some(f) => f.clone(),
            None => String::new(),
        };
        items.push(CanonValue::Str(file));
        items.push(CanonValue::Str(number::show(p.line as u64)));
        items.push(CanonValue::Str(number::show(p.column as u64)));
    }
    assert(model::deep(items@) =~= pos_written(pos.deep_view()));
    codec::array_of(items)
}

fn emission_values(emissions: &Vec<Emission>) -> (r: CanonValue)
    ensures
        r@ == CanonV::Array(
            Seq::new(
                emissions.deep_view().len(),
                |i: int| emission_written(emissions.deep_view()[i]),
            ),
        ),
{
    let ghost e = emissions.deep_view();
    let ghost all = Seq::new(e.len(), |i: int| emission_written(e[i]));
    let mut items: Vec<CanonValue> = Vec::new();
    let mut i: usize = 0;
    assert(model::deep(items@) =~= all.take(0));
    while i < emissions.len()
        invariant
            i <= emissions.len(),
            e == emissions.deep_view(),
            all == Seq::new(e.len(), |i: int| emission_written(e[i])),
            model::deep(items@) == all.take(i as int),
        decreases emissions.len() - i,
    {
        let (kind, message) = emissions[i].parts();
        let mut pair: Vec<CanonValue> = Vec::new();
        pair.push(CanonValue::Str(kind.to_owned()));
        pair.push(CanonValue::Str(message.clone()));
        assert(e[i as int] == emissions@[i as int]@);
        assert(model::deep(pair@) =~= seq![CanonV::Str(kind@), CanonV::Str(message@)]);
        let v = codec::array_of(pair);
        proof {
            model::deep_push(items@, v);
            assert(all.take(i + 1) =~= all.take(i as int).push(v@));
        }
        items.push(v);
        i += 1;
    }
    assert(all.take(i as int) =~= all);
    codec::array_of(items)
}

/// What an outcome is written as.
pub fn encode_result(result: &EvalResult) -> (r: CanonValue)
    ensures
        r@ == result_written(result@),
{
    let mut names: Vec<&'static str> = Vec::new();
    names.push("status");
    names.push("value");
    names.push("token");
    names.push("pos");
    names.push("emissions");
    let mut values: Vec<CanonValue> = Vec::new();
    values.push(CanonValue::Str(result.status.clone()));
    values.push(CanonValue::Str(result.value.clone()));
    let token = match result.token {
        Some(t) => t.as_str().to_owned(),
        None => String::new(),
    };
    values.push(CanonValue::Str(token));
    values.push(pos_values(&result.pos));
    values.push(emission_values(&result.emissions));
    let r = table::table(names, values);
    proof {
        if let CanonV::Table(t) = r@ {
            if let CanonV::Table(w) = result_written(result@) {
                assert(t =~= w);
            }
        }
    }
    r
}

fn emissions_from(items: &Vec<CanonValue>) -> (r: Option<Vec<Emission>>)
    ensures
        r.deep_view() == emissions_read(model::deep(items@)),
{
    let ghost all = model::deep(items@);
    let mut out: Vec<Emission> = Vec::new();
    let mut i: usize = 0;
    while i < items.len()
        invariant
            i <= items.len(),
            all == model::deep(items@),
            out.len() == i,
            forall|j: int|
                0 <= j < i ==> emission_read(#[trigger] all[j]) == Some(out@[j]@),
        decreases items.len() - i,
    {
        assert(all[i as int] == items@[i as int]@);
        let CanonValue::Array(pair) = &items[i] else {
            assert(emission_read(all[i as int]) is None);
            return None;
        };
        proof {
            codec::canon_array(*pair);
        }
        if pair.len() != 2 {
            assert(emission_read(all[i as int]) is None);
            return None;
        }
        assert(model::deep(pair@)[0] == pair@[0]@);
        assert(model::deep(pair@)[1] == pair@[1]@);
        let CanonValue::Str(kind) = &pair[0] else {
            assert(emission_read(all[i as int]) is None);
            return None;
        };
        let CanonValue::Str(message) = &pair[1] else {
            assert(emission_read(all[i as int]) is None);
            return None;
        };
        let Some(emission) = Emission::from_parts(kind.as_str(), message.clone()) else {
            assert(emission_read(all[i as int]) is None);
            return None;
        };
        assert(emission_read(all[i as int]) == Some(emission@));
        out.push(emission);
        i += 1;
    }
    assert(emissions_read(all)->0 =~= out.deep_view());
    Some(out)
}

fn place_from(s: &str) -> (r: Option<u32>)
    ensures
        r == place_read(s@),
{
    let c = text::chars(s);
    let n = if c.len() > 1 && c[0] == '+' {
        let digits = text::spell(&c, 1, c.len());
        assert(digits@ =~= s@.skip(1));
        number::parse(digits.as_str())
    } else {
        number::parse(s)
    };
    match n {
        Some(n) => if n <= u32::MAX as u64 {
            Some(n as u32)
        } else {
            None
        },
        None => None,
    }
}

fn pos_from(items: &Vec<CanonValue>) -> (r: Option<Option<SrcPos>>)
    ensures
        r.deep_view() == pos_read(model::deep(items@)),
{
    let ghost all = model::deep(items@);
    if items.len() == 0 {
        return Some(None);
    }
    if items.len() != 3 {
        return None;
    }
    assert(all[0] == items@[0]@ && all[1] == items@[1]@ && all[2] == items@[2]@);
    let CanonValue::Str(file) = &items[0] else {
        return None;
    };
    let CanonValue::Str(line) = &items[1] else {
        return None;
    };
    let CanonValue::Str(column) = &items[2] else {
        return None;
    };
    let Some(line) = place_from(line.as_str()) else {
        return None;
    };
    let Some(column) = place_from(column.as_str()) else {
        return None;
    };
    let c = text::chars(file.as_str());
    let file = if c.len() == 0 {
        None
    } else {
        Some(file.clone())
    };
    Some(Some(SrcPos { file, line, column }))
}

/// The outcome that is written so, if one is.
pub fn decode_result(value: &CanonValue) -> (r: Option<EvalResult>)
    ensures
        r.deep_view() == result_read(value@),
{
    let Some(t) = table::entries(value) else {
        return None;
    };
    let Some(items) = table::list_of(t, "emissions") else {
        return None;
    };
    let emissions = emissions_from(items);
    let Some(status) = table::text_of(t, "status") else {
        return None;
    };
    let Some(name) = table::text_of(t, "token") else {
        return None;
    };
    let Some(place) = table::list_of(t, "pos") else {
        return None;
    };
    let Some(content) = table::text_of(t, "value") else {
        return None;
    };
    let Some(emissions) = emissions else {
        return None;
    };
    let c = text::chars(name.as_str());
    let token = if c.len() == 0 {
        None
    } else {
        let Some(t) = RefusalToken::parse(name.as_str()) else {
            return None;
        };
        Some(t)
    };
    let Some(pos) = pos_from(place) else {
        return None;
    };
    Some(
        EvalResult { status: status.clone(), value: content.clone(), emissions, token, pos },
    )
}

/// An outcome is written as a table that gives each part under its name.
pub proof fn an_outcome_is_written_by_its_parts(r: EvalResultV)
    ensures
        result_written(r) matches CanonV::Table(t) && {
            &&& table::text_field(t, "status"@) == Some(r.status)
            &&& table::text_field(t, "value"@) == Some(r.value)
            &&& table::text_field(t, "token"@) == Some(
                match r.token {
                    Some(k) => k.name(),
                    None => Seq::empty(),
                },
            )
            &&& table::list_field(t, "emissions"@) matches Some(items) && items.len()
                == r.emissions.len()
            &&& table::list_field(t, "pos"@) matches Some(items) && items.len() == (if r.pos
                is Some {
                3nat
            } else {
                0nat
            })
        },
{
    written_fields(r);
}

/// No two outcomes are written alike, wherever their places do not name a
/// file with the empty text.
pub proof fn outcomes_are_written_apart(a: EvalResultV, b: EvalResultV)
    requires
        a.pos matches Some(p) ==> p.file != Some(Seq::<char>::empty()),
        b.pos matches Some(p) ==> p.file != Some(Seq::<char>::empty()),
        result_written(a) == result_written(b),
    ensures
        a == b,
{
    result_round_trips(a);
    result_round_trips(b);
}

} // verus!
