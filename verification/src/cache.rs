//! The cache of evaluation results: what it holds, and how an answer is looked up.
use vstd::prelude::*;
use std::rc::Rc;
use crate::codec::{CanonV, CanonValue};
use crate::complaint;
use crate::complaint::{Complaint, ComplaintV, Severity};
use crate::digest;
use crate::digest::ObjId;
use crate::model;
use crate::model::Plain;
use crate::ordered;
use crate::ordered::TextMap;
use crate::question::WitnessRow;
use crate::readset::EvalId;
use crate::replay::{ReplayFailure, ReplayFailureV};
use crate::result::{EvalResult, EvalResultV};
use crate::retained;
use crate::retained::{Entry, EntryV, Retained, RetainedV};
use crate::text;
use crate::validity::RowsV;
use crate::witness::WITNESS_HISTORY;

verus! {

/// A kind of effect whose results are kept: what performs it, and what it yields.
#[derive(Debug, PartialEq, Eq)]
pub struct Domain {
    pub effect: &'static str,
    pub yields: &'static str,
}

/// The effect whose results are kept: evaluating a module to a printed result.
pub fn eval_domain() -> (r: Domain)
    ensures
        r.effect@ == "ix-eval.evaluate"@,
        r.yields@ == "module-result"@,
{
    Domain { effect: "ix-eval.evaluate", yields: "module-result" }
}

/// The request that a result is filed under, when it is looked up and when it
/// is recorded.
pub fn request_value(key: &digest::Hash) -> (r: CanonValue)
    ensures
        r@ == CanonV::Bytes(key@),
{
    CanonValue::Bytes(key.to_vec())
}

/// The rows of a witness and their shape.
#[derive(Debug)]
pub struct Held {
    pub rows: Rc<Vec<WitnessRow>>,
    pub shape: digest::Hash,
}

/// The model of [`Held`].
#[verifier::ext_equal]
pub struct HeldV {
    pub rows: RowsV,
    pub shape: Seq<u8>,
}

impl View for Held {
    type V = HeldV;

    open spec fn view(&self) -> HeldV {
        HeldV { rows: self.rows.deep_view(), shape: self.shape@ }
    }
}

impl DeepView for Held {
    type V = HeldV;

    open spec fn deep_view(&self) -> HeldV {
        self@
    }
}

impl Clone for Held {
    fn clone(&self) -> (r: Self)
        ensures
            r@ == self@,
    {
        Held { rows: retained::share(&self.rows), shape: self.shape }
    }
}

/// The witnesses of one evaluation that are in memory, newest first.
#[derive(Debug)]
pub struct History {
    pub slots: Vec<Option<Held>>,
}

impl View for History {
    type V = Seq<Option<HeldV>>;

    open spec fn view(&self) -> Seq<Option<HeldV>> {
        self.slots.deep_view()
    }
}

impl DeepView for History {
    type V = Seq<Option<HeldV>>;

    open spec fn deep_view(&self) -> Seq<Option<HeldV>> {
        self@
    }
}

/// No witness in any slot.
pub open spec fn no_slots() -> Seq<Option<HeldV>> {
    Seq::new(WITNESS_HISTORY as nat, |i: int| None::<HeldV>)
}

impl History {
    pub fn none() -> (r: History)
        ensures
            r@ == no_slots(),
    {
        let mut slots: Vec<Option<Held>> = Vec::new();
        let mut i: usize = 0;
        while i < WITNESS_HISTORY
            invariant
                i <= WITNESS_HISTORY,
                slots.len() == i,
                forall|j: int| 0 <= j < i ==> (#[trigger] slots@[j]) is None,
            decreases WITNESS_HISTORY - i,
        {
            slots.push(None);
            i += 1;
        }
        let r = History { slots };
        assert(r@ =~= no_slots());
        r
    }

    pub fn copied(&self) -> (r: History)
        ensures
            r@ == self@,
    {
        let mut slots: Vec<Option<Held>> = Vec::new();
        let mut i: usize = 0;
        while i < self.slots.len()
            invariant
                i <= self.slots.len(),
                slots.len() == i,
                forall|j: int| 0 <= j < i ==> (#[trigger] slots@[j]).deep_view() == self@[j],
            decreases self.slots.len() - i,
        {
            assert(self@[i as int] == self.slots@[i as int].deep_view());
            match &self.slots[i] {
                Some(h) => slots.push(Some(h.clone())),
                None => slots.push(None),
            }
            i += 1;
        }
        let r = History { slots };
        assert(r@ =~= self@);
        r
    }
}

/// What the verifier of the cache has counted.
#[derive(Clone, Copy, Debug, PartialEq, Eq, Structural)]
pub struct VerifierCounts {
    pub hits_checked: u64,
    pub hits_disagreed: u64,
    pub records_checked: u64,
    pub records_not_replayable: u64,
}

impl Default for VerifierCounts {
    fn default() -> (r: Self)
        ensures
            r == (VerifierCounts {
                hits_checked: 0,
                hits_disagreed: 0,
                records_checked: 0,
                records_not_replayable: 0,
            }),
    {
        VerifierCounts {
            hits_checked: 0,
            hits_disagreed: 0,
            records_checked: 0,
            records_not_replayable: 0,
        }
    }
}

/// What was found of a result's object.
pub enum ObjectRead {
    Missing,
    /// It does not hash to its name.
    Corrupt,
    /// It could not be read.
    Failed(String),
    /// What it holds, where that is a result.
    Found(Option<EvalResult>),
}

/// The model of [`ObjectRead`].
#[verifier::ext_equal]
pub enum ObjectReadV {
    Missing,
    Corrupt,
    Failed(Seq<char>),
    Found(Option<EvalResultV>),
}

impl View for ObjectRead {
    type V = ObjectReadV;

    open spec fn view(&self) -> ObjectReadV {
        match self {
            ObjectRead::Missing => ObjectReadV::Missing,
            ObjectRead::Corrupt => ObjectReadV::Corrupt,
            ObjectRead::Failed(e) => ObjectReadV::Failed(e@),
            ObjectRead::Found(r) => ObjectReadV::Found(r.deep_view()),
        }
    }
}

/// Why a result's object cannot be used.
#[derive(Debug)]
pub enum ResultObjectFailure {
    Missing,
    Invalid(String),
}

/// The model of [`ResultObjectFailure`].
#[verifier::ext_equal]
pub enum ResultObjectFailureV {
    Missing,
    Invalid(Seq<char>),
}

impl View for ResultObjectFailure {
    type V = ResultObjectFailureV;

    open spec fn view(&self) -> ResultObjectFailureV {
        match self {
            ResultObjectFailure::Missing => ResultObjectFailureV::Missing,
            ResultObjectFailure::Invalid(d) => ResultObjectFailureV::Invalid(d@),
        }
    }
}

impl DeepView for ResultObjectFailure {
    type V = ResultObjectFailureV;

    open spec fn deep_view(&self) -> ResultObjectFailureV {
        self@
    }
}

impl ResultObjectFailureV {
    /// The failure in words.
    pub open spec fn detail(self) -> Seq<char> {
        match self {
            ResultObjectFailureV::Missing => "the store does not have it"@,
            ResultObjectFailureV::Invalid(d) => d,
        }
    }
}

/// What kind of thing is wrong with the cache.
#[derive(Clone, Copy, Debug, PartialEq, Eq, Structural)]
pub enum CacheCorruption {
    ObjectMissing,
    ObjectInvalid,
    WitnessRefused,
}

impl View for CacheCorruption {
    type V = CacheCorruption;

    open spec fn view(&self) -> CacheCorruption {
        *self
    }
}

impl DeepView for CacheCorruption {
    type V = CacheCorruption;

    open spec fn deep_view(&self) -> CacheCorruption {
        *self
    }
}

impl Plain for CacheCorruption {
    fn copied(&self) -> (r: Self) {
        *self
    }

    fn same(&self, other: &Self) -> (r: bool) {
        *self == *other
    }
}

impl ResultObjectFailure {
    /// The kind of the failure.
    pub fn kind(&self) -> (r: CacheCorruption)
        ensures
            r == (match self@ {
                ResultObjectFailureV::Missing => CacheCorruption::ObjectMissing,
                ResultObjectFailureV::Invalid(_) => CacheCorruption::ObjectInvalid,
            }),
    {
        match self {
            ResultObjectFailure::Missing => CacheCorruption::ObjectMissing,
            ResultObjectFailure::Invalid(_) => CacheCorruption::ObjectInvalid,
        }
    }
}

/// The result that an object holds, or why it cannot be used.
pub open spec fn loaded(o: ObjectReadV) -> Result<EvalResultV, ResultObjectFailureV> {
    match o {
        ObjectReadV::Missing => Err(ResultObjectFailureV::Missing),
        ObjectReadV::Corrupt => Err(
            ResultObjectFailureV::Invalid("it does not hash to its address"@),
        ),
        ObjectReadV::Failed(e) => Err(ResultObjectFailureV::Invalid(e)),
        ObjectReadV::Found(None) => Err(
            ResultObjectFailureV::Invalid("it is not a memoised result"@),
        ),
        ObjectReadV::Found(Some(r)) => Ok(r),
    }
}

/// The result that an object holds, or why it cannot be used.
pub fn load_result_object(o: ObjectRead) -> (r: Result<EvalResult, ResultObjectFailure>)
    ensures
        model::outcome(r) == loaded(o@),
{
    match o {
        ObjectRead::Missing => Err(ResultObjectFailure::Missing),
        ObjectRead::Corrupt => Err(
            ResultObjectFailure::Invalid("it does not hash to its address".to_owned()),
        ),
        ObjectRead::Failed(e) => Err(ResultObjectFailure::Invalid(e)),
        ObjectRead::Found(None) => Err(
            ResultObjectFailure::Invalid("it is not a memoised result".to_owned()),
        ),
        ObjectRead::Found(Some(r)) => Ok(r),
    }
}

/// What was found of a row of the result table.
pub enum RowRead {
    Missing,
    Refused(String),
    Found(ObjId),
}

/// The model of [`RowRead`].
#[verifier::ext_equal]
pub enum RowReadV {
    Missing,
    Refused(Seq<char>),
    Found(Seq<u8>),
}

impl View for RowRead {
    type V = RowReadV;

    open spec fn view(&self) -> RowReadV {
        match self {
            RowRead::Missing => RowReadV::Missing,
            RowRead::Refused(reason) => RowReadV::Refused(reason@),
            RowRead::Found(output) => RowReadV::Found(output@),
        }
    }
}

/// The cache of evaluation results.
pub struct ResultCache {
    /// The witness directory of the store, where there is one.
    pub store: Option<String>,
    /// The result object of each key.
    pub table: TextMap<ObjId>,
    /// The witnesses in memory of each evaluation.
    pub slots: TextMap<History>,
    /// The slot that an evaluation was last served from.
    pub preferred: TextMap<u64>,
    /// What is kept between caches.
    pub retained: Option<Retained>,
    pub corruption: Vec<Complaint>,
    pub served: Option<digest::Hash>,
    pub verify_rate: u32,
    pub verify_state: u64,
    pub verifier: VerifierCounts,
    pub hits: u64,
    pub misses: u64,
    pub wasted_replays: u64,
    pub lookup_replayed: bool,
}

/// Witnesses in memory, by the evaluation's hash in hexadecimal.
pub type SlotsV = Seq<(Seq<char>, Seq<Option<HeldV>>)>;

/// The model of [`ResultCache`].
#[verifier::ext_equal]
pub struct CacheV {
    pub store: Option<Seq<char>>,
    pub table: Seq<(Seq<char>, Seq<u8>)>,
    pub slots: SlotsV,
    pub preferred: Seq<(Seq<char>, u64)>,
    pub retained: Option<RetainedV>,
    pub corruption: Seq<ComplaintV>,
    pub served: Option<Seq<u8>>,
    pub verify_rate: u32,
    pub verify_state: u64,
    pub verifier: VerifierCounts,
    pub hits: u64,
    pub misses: u64,
    pub wasted: u64,
    pub replayed: bool,
}

/// What is kept between caches, where anything is.
pub open spec fn retained_of(r: Option<Retained>) -> Option<RetainedV> {
    match r {
        Some(r) => Some(r@),
        None => None,
    }
}

impl View for ResultCache {
    type V = CacheV;

    open spec fn view(&self) -> CacheV {
        CacheV {
            store: self.store.deep_view(),
            table: self.table@,
            slots: self.slots@,
            preferred: self.preferred@,
            retained: retained_of(self.retained),
            corruption: self.corruption.deep_view(),
            served: self.served.deep_view(),
            verify_rate: self.verify_rate,
            verify_state: self.verify_state,
            verifier: self.verifier,
            hits: self.hits,
            misses: self.misses,
            wasted: self.wasted_replays,
            replayed: self.lookup_replayed,
        }
    }
}

/// The witnesses in memory of an evaluation.
pub open spec fn history_of(slots: SlotsV, id: Seq<u8>) -> Seq<Option<HeldV>> {
    match ordered::find(slots, digest::hex(id)) {
        Some(h) => h,
        None => no_slots(),
    }
}

/// With a slot of an evaluation set.
pub open spec fn with_slot(slots: SlotsV, id: Seq<u8>, slot: int, h: Option<HeldV>) -> SlotsV {
    if 0 <= slot < WITNESS_HISTORY {
        ordered::put(slots, digest::hex(id), history_of(slots, id).update(slot, h))
    } else {
        slots
    }
}

impl CacheV {
    /// The witness in a slot of an evaluation.
    pub open spec fn held(self, id: Seq<u8>, slot: int) -> Option<HeldV> {
        if 0 <= slot < WITNESS_HISTORY {
            history_of(self.slots, id)[slot]
        } else {
            None
        }
    }

    /// With a slot of an evaluation empty.
    pub open spec fn dropping(self, id: Seq<u8>, slot: int) -> CacheV {
        CacheV { slots: with_slot(self.slots, id, slot, None), ..self }
    }

    /// With a witness in a slot of an evaluation.
    pub open spec fn holding(self, id: Seq<u8>, slot: int, h: HeldV) -> CacheV {
        CacheV { slots: with_slot(self.slots, id, slot, Some(h)), ..self }
    }

    /// With all slots of an evaluation empty, and none of them preferred.
    pub open spec fn clearing(self, id: Seq<u8>) -> CacheV {
        CacheV {
            slots: ordered::put(self.slots, digest::hex(id), no_slots()),
            preferred: ordered::dropped(self.preferred, digest::hex(id)),
            ..self
        }
    }

    /// The slot that an evaluation was last served from.
    pub open spec fn prefers(self, id: Seq<u8>) -> Option<u64> {
        ordered::find(self.preferred, digest::hex(id))
    }

    /// With a slot preferred.
    pub open spec fn preferring(self, id: Seq<u8>, slot: u64) -> CacheV {
        CacheV { preferred: ordered::put(self.preferred, digest::hex(id), slot), ..self }
    }

    /// The result object of a key.
    pub open spec fn output(self, key: Seq<u8>) -> Option<Seq<u8>> {
        ordered::find(self.table, digest::hex(key))
    }

    /// With a result object under a key.
    pub open spec fn filing(self, key: Seq<u8>, output: Seq<u8>) -> CacheV {
        CacheV { table: ordered::put(self.table, digest::hex(key), output), ..self }
    }

    /// With a warning.
    pub open spec fn warning(self, message: Seq<char>) -> CacheV {
        CacheV { corruption: self.corruption.push(complaint::warned(message)), ..self }
    }

    /// Without what is kept between caches of an evaluation in this store.
    pub open spec fn letting_go(self, id: Seq<u8>) -> CacheV {
        match (self.retained, self.store) {
            (Some(r), Some(dir)) => CacheV { retained: Some(r.removing(dir, id)), ..self },
            _ => self,
        }
    }

    /// Without the result of a key and the witness of a slot, whose object
    /// cannot be used.
    pub open spec fn evicting(
        self,
        id: Seq<u8>,
        slot: int,
        key: Seq<u8>,
        output: Seq<u8>,
        failure: ResultObjectFailureV,
    ) -> CacheV {
        let c = self.warning(
            "object "@ + digest::hex(output) + " for a memoised result was unusable ("@
                + failure.detail() + "); re-evaluating"@,
        );
        CacheV { table: ordered::dropped(c.table, digest::hex(key)), ..c }.dropping(id, slot)
    }

    /// What is kept between caches of a slot's witness.
    pub open spec fn to_retain(self, id: Seq<u8>, slot: u64) -> Option<(Seq<char>, EntryV)> {
        match (self.retained, self.store, self.held(id, slot as int)) {
            (Some(_), Some(dir), Some(h)) => Some(
                (dir, EntryV { rows: h.rows, shape: h.shape, slot: slot as usize }),
            ),
            _ => None,
        }
    }
}

/// The cache is as it should be, with a slot's witness kept between caches.
pub open spec fn retaining(want: CacheV, got: CacheV, id: Seq<u8>, slot: u64) -> bool {
    &&& got == CacheV { retained: got.retained, ..want }
    &&& match want.to_retain(id, slot) {
        None => got.retained == want.retained,
        Some((dir, entry)) => got.retained matches Some(r) && retained::inserted(
            want.retained->0,
            r,
            dir,
            id,
            entry,
        ),
    }
}

/// Where a candidate is from.
#[derive(Clone, Copy, Debug, PartialEq, Eq, Structural)]
pub enum Source {
    /// There is no store: all slots are in memory.
    Memory,
    /// The slot that was last served from.
    Preferred,
    /// The slots in the store.
    Disk,
}

impl View for Source {
    type V = Source;

    open spec fn view(&self) -> Source {
        *self
    }
}

impl DeepView for Source {
    type V = Source;

    open spec fn deep_view(&self) -> Source {
        *self
    }
}

impl Plain for Source {
    fn copied(&self) -> (r: Self) {
        *self
    }

    fn same(&self, other: &Self) -> (r: bool) {
        *self == *other
    }
}

/// A lookup that is going on.
pub struct Lookup {
    pub identity: EvalId,
    pub from: Source,
    pub slot: u64,
    /// The shape of the preferred witness, which was tried.
    pub tried: Option<digest::Hash>,
    /// The candidate, where it came from the store.
    pub disk: Option<Held>,
    pub key: Option<digest::Hash>,
    pub output: Option<ObjId>,
}

/// The model of [`Lookup`].
#[verifier::ext_equal]
pub struct LookupV {
    pub identity: Seq<u8>,
    pub from: Source,
    pub slot: u64,
    pub tried: Option<Seq<u8>>,
    pub disk: Option<HeldV>,
    pub key: Option<Seq<u8>>,
    pub output: Option<Seq<u8>>,
}

impl View for Lookup {
    type V = LookupV;

    open spec fn view(&self) -> LookupV {
        LookupV {
            identity: self.identity@,
            from: self.from,
            slot: self.slot,
            tried: self.tried.deep_view(),
            disk: self.disk.deep_view(),
            key: self.key.deep_view(),
            output: self.output.deep_view(),
        }
    }
}

/// What a lookup asks for next, or what came of it.
pub enum LookupAction {
    /// Read the witness in a slot of the store.
    ReadWitness(u64),
    /// Tell whether the witness in a slot of the store has that shape.
    CompareShape(u64, digest::Hash),
    /// Replay the rows, and hash the key that they make.
    Replay(Rc<Vec<WitnessRow>>),
    /// Read the row of a key.
    ReadRow(digest::Hash),
    /// Read a result's object.
    ReadObject(ObjId),
    /// The answer. In a store, the row and the witness were used just now.
    Serve(EvalResult),
    /// There is no answer.
    Miss,
}

/// The model of [`LookupAction`].
#[verifier::ext_equal]
pub enum LookupActionV {
    ReadWitness(u64),
    CompareShape(u64, Seq<u8>),
    Replay(RowsV),
    ReadRow(Seq<u8>),
    ReadObject(Seq<u8>),
    Serve(EvalResultV),
    Miss,
}

impl View for LookupAction {
    type V = LookupActionV;

    open spec fn view(&self) -> LookupActionV {
        match self {
            LookupAction::ReadWitness(slot) => LookupActionV::ReadWitness(*slot),
            LookupAction::CompareShape(slot, shape) => LookupActionV::CompareShape(*slot, shape@),
            LookupAction::Replay(rows) => LookupActionV::Replay(rows.deep_view()),
            LookupAction::ReadRow(key) => LookupActionV::ReadRow(key@),
            LookupAction::ReadObject(output) => LookupActionV::ReadObject(output@),
            LookupAction::Serve(r) => LookupActionV::Serve(r@),
            LookupAction::Miss => LookupActionV::Miss,
        }
    }
}

/// What a lookup is told.
pub enum LookupEvent {
    /// The witness in the slot, or why it is refused.
    Witness(Result<Option<Held>, String>),
    /// Whether the witness in the slot has the shape.
    SameShape(bool),
    /// The key that the rows make now.
    Replayed(Result<Option<digest::Hash>, ReplayFailure>),
    Row(RowRead),
    Object(ObjectRead),
}

/// The model of [`LookupEvent`].
#[verifier::ext_equal]
pub enum LookupEventV {
    Witness(Result<Option<HeldV>, Seq<char>>),
    SameShape(bool),
    Replayed(Result<Option<Seq<u8>>, ReplayFailureV>),
    Row(RowReadV),
    Object(ObjectReadV),
}

impl View for LookupEvent {
    type V = LookupEventV;

    open spec fn view(&self) -> LookupEventV {
        match self {
            LookupEvent::Witness(w) => LookupEventV::Witness(model::outcome(*w)),
            LookupEvent::SameShape(b) => LookupEventV::SameShape(*b),
            LookupEvent::Replayed(r) => LookupEventV::Replayed(model::outcome(*r)),
            LookupEvent::Row(r) => LookupEventV::Row(r@),
            LookupEvent::Object(o) => LookupEventV::Object(o@),
        }
    }
}

/// The cache, the lookup and what it asks for.
pub type Stepped = (CacheV, LookupV, LookupActionV);

/// The candidates in memory from a slot on.
pub open spec fn memory_from(c: CacheV, l: LookupV, slot: int) -> Stepped
    decreases WITNESS_HISTORY - slot,
{
    if slot >= WITNESS_HISTORY {
        (c, l, LookupActionV::Miss)
    } else {
        match c.held(l.identity, slot) {
            Some(h) => (
                CacheV { replayed: true, ..c },
                LookupV { slot: slot as u64, disk: None, ..l },
                LookupActionV::Replay(h.rows),
            ),
            None => memory_from(c, l, slot + 1),
        }
    }
}

/// The candidates in the store from a slot on: not the one that was tried.
pub open spec fn disk_from(c: CacheV, l: LookupV, slot: int) -> Stepped {
    if slot >= WITNESS_HISTORY {
        (c, l, LookupActionV::Miss)
    } else {
        (
            c,
            LookupV { from: Source::Disk, slot: slot as u64, disk: None, ..l },
            match l.tried {
                Some(shape) => LookupActionV::CompareShape(slot as u64, shape),
                None => LookupActionV::ReadWitness(slot as u64),
            },
        )
    }
}

/// The preferred witness did not serve: it is let go of, and the store is read.
pub open spec fn to_disk(c: CacheV, l: LookupV) -> Stepped {
    let tried = match c.prefers(l.identity) {
        Some(slot) => match c.held(l.identity, slot as int) {
            Some(h) => Some(h.shape),
            None => None,
        },
        None => None,
    };
    let let_go = c.letting_go(l.identity);
    let dropped = match let_go.prefers(l.identity) {
        Some(slot) => CacheV {
            preferred: ordered::dropped(let_go.preferred, digest::hex(l.identity)),
            ..let_go
        }.dropping(l.identity, slot as int),
        None => let_go,
    };
    disk_from(dropped, LookupV { tried, ..l }, 0)
}

/// The next candidate.
pub open spec fn next_candidate(c: CacheV, l: LookupV) -> Stepped {
    match l.from {
        Source::Memory => memory_from(c, l, l.slot + 1),
        Source::Preferred => to_disk(c, l),
        Source::Disk => disk_from(c, l, l.slot + 1),
    }
}

/// With what was kept between caches in place of what was in memory.
pub open spec fn refreshed(c: CacheV, id: Seq<u8>) -> CacheV {
    match (c.retained, c.store) {
        (Some(r), Some(dir)) => {
            let cleared = CacheV { retained: Some(r.reading(dir, id)), ..c }.clearing(id);
            match r.kept(dir, id) {
                Some(e) => cleared.preferring(id, e.slot as u64).holding(
                    id,
                    e.slot as int,
                    HeldV { rows: e.rows, shape: e.shape },
                ),
                None => cleared,
            }
        },
        _ => c,
    }
}

/// The beginning of a lookup; one that repairs finds nothing.
pub open spec fn begun(c: CacheV, id: Seq<u8>, repair: bool) -> Stepped {
    let start = CacheV { replayed: false, served: None, ..c };
    let l = LookupV {
        identity: id,
        from: Source::Memory,
        slot: 0,
        tried: None,
        disk: None,
        key: None,
        output: None,
    };
    if repair {
        (start, l, LookupActionV::Miss)
    } else {
        let fresh = refreshed(start, id);
        if fresh.store is None {
            memory_from(fresh, l, 0)
        } else {
            let p = LookupV { from: Source::Preferred, ..l };
            match fresh.prefers(id) {
                None => to_disk(fresh, p),
                Some(slot) => match fresh.held(id, slot as int) {
                    Some(h) => (
                        CacheV { replayed: true, ..fresh },
                        LookupV { slot, ..p },
                        LookupActionV::Replay(h.rows),
                    ),
                    None => (fresh, LookupV { slot, ..p }, LookupActionV::ReadWitness(slot)),
                },
            }
        }
    }
}

/// The cache after an answer was served from a slot.
pub open spec fn serving(c: CacheV, l: LookupV) -> CacheV {
    let hit = CacheV { hits: (c.hits + 1) as u64, served: l.key, ..c };
    if c.store is Some {
        let previous = match hit.prefers(l.identity) {
            Some(p) => p,
            None => 0,
        };
        let preferred = hit.preferring(l.identity, l.slot);
        let single = if previous != l.slot {
            preferred.dropping(l.identity, previous as int)
        } else {
            preferred
        };
        match l.disk {
            Some(h) => single.holding(l.identity, l.slot as int, h),
            None => single,
        }
    } else {
        hit
    }
}

/// The witness of a candidate was read from the store.
pub open spec fn witness_told(c: CacheV, l: LookupV, w: Result<Option<HeldV>, Seq<char>>) -> Stepped {
    match w {
        Ok(None) => next_candidate(c, l),
        Ok(Some(h)) => (
            CacheV {
                replayed: true,
                retained: match c.retained {
                    Some(r) => Some(
                        RetainedV { disk_loads: retained::counted(r.disk_loads, 1), ..r },
                    ),
                    None => None,
                },
                ..c
            },
            LookupV { disk: Some(h), ..l },
            LookupActionV::Replay(h.rows),
        ),
        Err(reason) => next_candidate(c.warning(reason + "; treating it as a cache miss"@), l),
    }
}

/// A candidate's rows were replayed.
pub open spec fn replay_told(
    c: CacheV,
    l: LookupV,
    r: Result<Option<Seq<u8>>, ReplayFailureV>,
) -> Stepped {
    match r {
        Ok(None) => next_candidate(c, l),
        Err(f) => next_candidate(
            c.warning(
                complaint::replay_failure(f) + "; treating the witness as a cache miss"@,
            ).dropping(l.identity, l.slot as int),
            l,
        ),
        Ok(Some(key)) => {
            let m = LookupV { key: Some(key), ..l };
            match c.output(key) {
                Some(output) => (
                    c,
                    LookupV { output: Some(output), ..m },
                    LookupActionV::ReadObject(output),
                ),
                None => if c.store is Some {
                    (c, m, LookupActionV::ReadRow(key))
                } else {
                    next_candidate(c, m)
                },
            }
        },
    }
}

/// The row of a candidate's key was read.
pub open spec fn row_told(c: CacheV, l: LookupV, r: RowReadV) -> Stepped {
    match (r, l.key) {
        (RowReadV::Found(output), Some(key)) => (
            c.filing(key, output),
            LookupV { output: Some(output), ..l },
            LookupActionV::ReadObject(output),
        ),
        (RowReadV::Refused(reason), _) => next_candidate(c.warning(reason), l),
        _ => next_candidate(c, l),
    }
}

/// The object of a candidate's result was read.
pub open spec fn object_told(c: CacheV, l: LookupV, o: ObjectReadV) -> Stepped {
    match (loaded(o), l.key, l.output) {
        (Ok(r), Some(_), _) => (serving(c, l), l, LookupActionV::Serve(r)),
        (Err(failure), Some(key), Some(output)) => next_candidate(
            c.evicting(l.identity, l.slot as int, key, output, failure),
            l,
        ),
        _ => next_candidate(c, l),
    }
}

/// What a lookup comes to with what it is told.
pub open spec fn told(c: CacheV, l: LookupV, e: LookupEventV) -> Stepped {
    match e {
        LookupEventV::Witness(w) => witness_told(c, l, w),
        LookupEventV::SameShape(b) => if b {
            next_candidate(c, l)
        } else {
            (c, l, LookupActionV::ReadWitness(l.slot))
        },
        LookupEventV::Replayed(r) => replay_told(c, l, r),
        LookupEventV::Row(r) => row_told(c, l, r),
        LookupEventV::Object(o) => object_told(c, l, o),
    }
}

/// The step of a cache, up to what an answer that was served leaves between caches.
pub open spec fn stepped(before: CacheV, l: LookupV, e: LookupEventV, after: CacheV) -> bool {
    let (c, m, a) = told(before, l, e);
    if a is Serve {
        retaining(c, after, l.identity, l.slot)
    } else {
        after == c
    }
}

impl ResultCache {
    /// Every evaluation in memory has all its slots, and what is kept between
    /// caches is within its limits.
    pub open spec fn wf(&self) -> bool {
        &&& whole(self.slots@)
        &&& self.slots.wf()
        &&& self.table.wf()
        &&& self.preferred.wf()
        &&& self.retained matches Some(r) ==> r.wf()
    }

    pub fn new() -> (r: ResultCache)
        ensures
            r.wf(),
            r@ == empty_cache(None),
    {
        let r = ResultCache {
            store: None,
            table: TextMap::new(),
            slots: TextMap::new(),
            preferred: TextMap::new(),
            retained: None,
            corruption: Vec::new(),
            served: None,
            verify_rate: 0,
            verify_state: 0x2545_f491_4f6c_dd1d,
            verifier: VerifierCounts::default(),
            hits: 0,
            misses: 0,
            wasted_replays: 0,
            lookup_replayed: false,
        };
        assert(r.corruption.deep_view() =~= Seq::<ComplaintV>::empty());
        r
    }

    /// A cache over the store whose witnesses are in that directory.
    pub fn persistent(witness_dir: String) -> (r: ResultCache)
        ensures
            r.wf(),
            r@ == empty_cache(Some(witness_dir@)),
    {
        let mut r = ResultCache::new();
        r.store = Some(witness_dir);
        r
    }

    pub fn with_retained(self, retained: Option<Retained>) -> (r: ResultCache)
        requires
            self.wf(),
            retained matches Some(x) ==> x.wf(),
        ensures
            r.wf(),
            r@ == (CacheV { retained: retained_of(retained), ..self@ }),
    {
        let mut r = self;
        r.retained = retained;
        r
    }

    fn forget_retained(&mut self, identity: &EvalId)
        requires
            old(self).wf(),
        ensures
            final(self).wf(),
            final(self)@ == old(self)@.letting_go(identity@),
    {
        if let Some(retained) = &mut self.retained {
            if let Some(store) = &self.store {
                retained.remove(store.as_str(), identity);
            }
        }
    }

    fn held(&self, identity: &EvalId, slot: u64) -> (r: Option<&Held>)
        requires
            self.wf(),
        ensures
            match r {
                Some(h) => self@.held(identity@, slot as int) == Some(h@),
                None => self@.held(identity@, slot as int) is None,
            },
    {
        if slot >= WITNESS_HISTORY as u64 {
            return None;
        }
        let name = identity.as_hash().to_hex();
        let Some(h) = self.slots.get(name.as_str()) else {
            return None;
        };
        proof {
            whole_at(self.slots@, name@);
            assert(h@.len() == h.slots@.len());
        }
        assert(h@[slot as int] == h.slots@[slot as int].deep_view());
        match &h.slots[slot as usize] {
            Some(h) => Some(h),
            None => None,
        }
    }

    pub(crate) fn set_slot(&mut self, identity: &EvalId, slot: u64, held: Option<Held>)
        requires
            old(self).wf(),
        ensures
            final(self).wf(),
            final(self)@ == (CacheV {
                slots: with_slot(old(self)@.slots, identity@, slot as int, held.deep_view()),
                ..old(self)@
            }),
    {
        if slot >= WITNESS_HISTORY as u64 {
            return ;
        }
        let name = identity.as_hash().to_hex();
        let ghost before = self.slots@;
        let mut h = match self.slots.get(name.as_str()) {
            Some(h) => h.copied(),
            None => History::none(),
        };
        let ghost prior = h@;
        let ghost set = held.deep_view();
        proof {
            whole_at(before, name@);
        }
        assert(prior == history_of(before, identity@));
        assert(h.slots@.len() == prior.len());
        h.slots[slot as usize] = held;
        assert(h@ =~= prior.update(slot as int, set));
        self.slots.insert(name, h);
        proof {
            whole_put(before, digest::hex(identity@), prior.update(slot as int, set));
        }
    }

    fn clear_slots(&mut self, identity: &EvalId)
        requires
            old(self).wf(),
        ensures
            final(self).wf(),
            final(self)@ == old(self)@.clearing(identity@),
    {
        let name = identity.as_hash().to_hex();
        let ghost before = self.slots@;
        let _ = self.preferred.remove(name.as_str());
        self.slots.insert(name, History::none());
        proof {
            whole_put(before, digest::hex(identity@), no_slots());
        }
    }

    /// Keeps a slot's witness between caches.
    pub(crate) fn remember_retained(&mut self, identity: &EvalId, slot: u64)
        requires
            old(self).wf(),
        ensures
            final(self).wf(),
            retaining(old(self)@, final(self)@, identity@, slot),
    {
        let kept = match self.held(identity, slot) {
            Some(h) => Some(
                Entry { rows: retained::share(&h.rows), shape: h.shape, slot: slot as usize },
            ),
            None => None,
        };
        if let Some(entry) = kept {
            if let Some(retained) = &mut self.retained {
                if let Some(store) = &self.store {
                    retained.insert(store.clone(), *identity, entry);
                }
            }
        }
    }

    fn warn(&mut self, message: String)
        requires
            old(self).wf(),
        ensures
            final(self).wf(),
            final(self)@ == old(self)@.warning(message@),
    {
        let ghost prior = self.corruption.deep_view();
        let ghost m = message@;
        self.corruption.push(Complaint::warning(message));
        assert(self.corruption.deep_view() =~= prior.push(complaint::warned(m)));
    }

    pub(crate) fn evict_result_object(
        &mut self,
        identity: &EvalId,
        slot: u64,
        key: &digest::Hash,
        output: &ObjId,
        failure: ResultObjectFailure,
    )
        requires
            old(self).wf(),
        ensures
            final(self).wf(),
            final(self)@ == old(self)@.evicting(identity@, slot as int, key@, output@, failure@),
    {
        let mut said = "object ".to_owned();
        said.append(output.hash.to_hex().as_str());
        said.append(" for a memoised result was unusable (");
        match &failure {
            ResultObjectFailure::Missing => said.append("the store does not have it"),
            ResultObjectFailure::Invalid(detail) => said.append(detail.as_str()),
        }
        said.append("); re-evaluating");
        assert(said@ =~= "object "@ + digest::hex(output@)
            + " for a memoised result was unusable ("@ + failure@.detail() + "); re-evaluating"@);
        self.warn(said);
        let _ = self.table.remove(key.to_hex().as_str());
        self.set_slot(identity, slot, None);
    }

    /// The candidates in memory from a slot on.
    fn memory_from(&mut self, lookup: Lookup, slot: u64) -> (r: (Lookup, LookupAction))
        requires
            old(self).wf(),
        ensures
            final(self).wf(),
            (final(self)@, r.0@, r.1@) == memory_from(old(self)@, lookup@, slot as int),
        decreases WITNESS_HISTORY - slot,
    {
        if slot >= WITNESS_HISTORY as u64 {
            return (lookup, LookupAction::Miss);
        }
        let rows = match self.held(&lookup.identity, slot) {
            Some(h) => Some(retained::share(&h.rows)),
            None => None,
        };
        match rows {
            Some(rows) => {
                let mut lookup = lookup;
                lookup.slot = slot;
                lookup.disk = None;
                self.lookup_replayed = true;
                (lookup, LookupAction::Replay(rows))
            },
            None => self.memory_from(lookup, slot + 1),
        }
    }

    /// The candidates in the store from a slot on: not the one that was tried.
    fn disk_from(&mut self, lookup: Lookup, slot: u64) -> (r: (Lookup, LookupAction))
        requires
            old(self).wf(),
        ensures
            final(self).wf(),
            (final(self)@, r.0@, r.1@) == disk_from(old(self)@, lookup@, slot as int),
    {
        if slot >= WITNESS_HISTORY as u64 {
            return (lookup, LookupAction::Miss);
        }
        let mut lookup = lookup;
        lookup.from = Source::Disk;
        lookup.slot = slot;
        lookup.disk = None;
        let action = match lookup.tried {
            Some(shape) => LookupAction::CompareShape(slot, shape),
            None => LookupAction::ReadWitness(slot),
        };
        (lookup, action)
    }

    /// The preferred witness did not serve: it is let go of, and the store is read.
    fn to_disk(&mut self, lookup: Lookup) -> (r: (Lookup, LookupAction))
        requires
            old(self).wf(),
        ensures
            final(self).wf(),
            (final(self)@, r.0@, r.1@) == to_disk(old(self)@, lookup@),
    {
        let name = lookup.identity.as_hash().to_hex();
        let preferred = match self.preferred.get(name.as_str()) {
            Some(slot) => Some(*slot),
            None => None,
        };
        let tried = match preferred {
            Some(slot) => match self.held(&lookup.identity, slot) {
                Some(h) => Some(h.shape),
                None => None,
            },
            None => None,
        };
        self.forget_retained(&lookup.identity);
        if let Some(slot) = preferred {
            let _ = self.preferred.remove(name.as_str());
            self.set_slot(&lookup.identity, slot, None);
        }
        let mut lookup = lookup;
        lookup.tried = tried;
        self.disk_from(lookup, 0)
    }

    /// The next candidate.
    fn next_candidate(&mut self, lookup: Lookup) -> (r: (Lookup, LookupAction))
        requires
            old(self).wf(),
            lookup.slot < u64::MAX,
        ensures
            final(self).wf(),
            (final(self)@, r.0@, r.1@) == next_candidate(old(self)@, lookup@),
    {
        match lookup.from {
            Source::Memory => {
                let slot = lookup.slot + 1;
                self.memory_from(lookup, slot)
            },
            Source::Preferred => self.to_disk(lookup),
            Source::Disk => {
                let slot = lookup.slot + 1;
                self.disk_from(lookup, slot)
            },
        }
    }

    fn refresh(&mut self, identity: &EvalId)
        requires
            old(self).wf(),
        ensures
            final(self).wf(),
            final(self)@ == refreshed(old(self)@, identity@),
    {
        let ghost before = self@;
        let cached = match &mut self.retained {
            Some(retained) => match &self.store {
                Some(store) => Some(retained.get(store.as_str(), identity)),
                None => None,
            },
            None => None,
        };
        let Some(cached) = cached else {
            return ;
        };
        self.clear_slots(identity);
        if let Some(entry) = cached {
            let slot = entry.slot as u64;
            self.preferred.insert(identity.as_hash().to_hex(), slot);
            self.set_slot(
                identity,
                slot,
                Some(Held { rows: entry.rows, shape: entry.shape }),
            );
        }
    }

    /// Begins a lookup; one that repairs finds nothing.
    pub fn lookup(&mut self, identity: &EvalId, repair: bool) -> (r: (Lookup, LookupAction))
        requires
            old(self).wf(),
        ensures
            final(self).wf(),
            (final(self)@, r.0@, r.1@) == begun(old(self)@, identity@, repair),
    {
        self.lookup_replayed = false;
        self.served = None;
        let lookup = Lookup {
            identity: *identity,
            from: Source::Memory,
            slot: 0,
            tried: None,
            disk: None,
            key: None,
            output: None,
        };
        if repair {
            return (lookup, LookupAction::Miss);
        }
        self.refresh(identity);
        if self.store.is_none() {
            return self.memory_from(lookup, 0);
        }
        let mut lookup = lookup;
        lookup.from = Source::Preferred;
        let preferred = match self.preferred.get(identity.as_hash().to_hex().as_str()) {
            Some(slot) => Some(*slot),
            None => None,
        };
        let Some(slot) = preferred else {
            return self.to_disk(lookup);
        };
        lookup.slot = slot;
        let rows = match self.held(identity, slot) {
            Some(h) => Some(retained::share(&h.rows)),
            None => None,
        };
        match rows {
            Some(rows) => {
                self.lookup_replayed = true;
                (lookup, LookupAction::Replay(rows))
            },
            None => (lookup, LookupAction::ReadWitness(slot)),
        }
    }

    fn witness_told(&mut self, lookup: Lookup, w: Result<Option<Held>, String>) -> (r: (
        Lookup,
        LookupAction,
    ))
        requires
            old(self).wf(),
            lookup.slot < u64::MAX,
        ensures
            final(self).wf(),
            (final(self)@, r.0@, r.1@) == witness_told(
                old(self)@,
                lookup@,
                model::outcome(w),
            ),
    {
        match w {
            Ok(None) => self.next_candidate(lookup),
            Ok(Some(held)) => {
                if let Some(retained) = &mut self.retained {
                    retained.note_disk_load();
                }
                self.lookup_replayed = true;
                let mut lookup = lookup;
                let rows = retained::share(&held.rows);
                lookup.disk = Some(held);
                (lookup, LookupAction::Replay(rows))
            },
            Err(reason) => {
                let mut said = reason;
                said.append("; treating it as a cache miss");
                self.warn(said);
                self.next_candidate(lookup)
            },
        }
    }

    fn replay_told(
        &mut self,
        lookup: Lookup,
        outcome: Result<Option<digest::Hash>, ReplayFailure>,
    ) -> (r: (Lookup, LookupAction))
        requires
            old(self).wf(),
            lookup.slot < u64::MAX,
        ensures
            final(self).wf(),
            (final(self)@, r.0@, r.1@) == replay_told(
                old(self)@,
                lookup@,
                model::outcome(outcome),
            ),
    {
        match outcome {
            Ok(None) => self.next_candidate(lookup),
            Err(failure) => {
                let mut said = complaint::show_replay_failure(&failure);
                said.append("; treating the witness as a cache miss");
                self.warn(said);
                self.set_slot(&lookup.identity, lookup.slot, None);
                self.next_candidate(lookup)
            },
            Ok(Some(key)) => {
                let mut lookup = lookup;
                lookup.key = Some(key);
                let found = match self.table.get(key.to_hex().as_str()) {
                    Some(output) => Some(*output),
                    None => None,
                };
                match found {
                    Some(output) => {
                        lookup.output = Some(output);
                        (lookup, LookupAction::ReadObject(output))
                    },
                    None => if self.store.is_some() {
                        (lookup, LookupAction::ReadRow(key))
                    } else {
                        self.next_candidate(lookup)
                    },
                }
            },
        }
    }

    fn row_told(&mut self, lookup: Lookup, row: RowRead) -> (r: (Lookup, LookupAction))
        requires
            old(self).wf(),
            lookup.slot < u64::MAX,
        ensures
            final(self).wf(),
            (final(self)@, r.0@, r.1@) == row_told(old(self)@, lookup@, row@),
    {
        match row {
            RowRead::Found(output) => {
                let Some(key) = lookup.key else {
                    return self.next_candidate(lookup);
                };
                self.table.insert(key.to_hex(), output);
                let mut lookup = lookup;
                lookup.output = Some(output);
                (lookup, LookupAction::ReadObject(output))
            },
            RowRead::Refused(reason) => {
                self.warn(reason);
                self.next_candidate(lookup)
            },
            RowRead::Missing => self.next_candidate(lookup),
        }
    }

    /// The answer is served from the candidate's slot.
    fn serve(&mut self, lookup: &Lookup)
        requires
            old(self).wf(),
            old(self).hits < u64::MAX,
        ensures
            final(self).wf(),
            final(self)@ == serving(old(self)@, lookup@),
    {
        self.hits += 1;
        self.served = lookup.key;
        if self.store.is_some() {
            let name = lookup.identity.as_hash().to_hex();
            let previous = match self.preferred.get(name.as_str()) {
                Some(slot) => *slot,
                None => 0,
            };
            self.preferred.insert(name, lookup.slot);
            if previous != lookup.slot {
                self.set_slot(&lookup.identity, previous, None);
            }
            if let Some(h) = &lookup.disk {
                self.set_slot(&lookup.identity, lookup.slot, Some(h.clone()));
            }
        }
    }

    fn object_told(&mut self, lookup: Lookup, object: ObjectRead) -> (r: (Lookup, LookupAction))
        requires
            old(self).wf(),
            old(self).hits < u64::MAX,
            lookup.slot < u64::MAX,
        ensures
            final(self).wf(),
            stepped(old(self)@, lookup@, LookupEventV::Object(object@), final(self)@),
            (r.0@, r.1@) == (
                object_told(old(self)@, lookup@, object@).1,
                object_told(old(self)@, lookup@, object@).2,
            ),
    {
        proof {
            only_objects_serve(self@, lookup@, LookupEventV::Object(object@));
            candidates_never_serve(self@, lookup@);
        }
        match load_result_object(object) {
            Ok(result) => {
                if lookup.key.is_none() {
                    return self.next_candidate(lookup);
                }
                self.serve(&lookup);
                self.remember_retained(&lookup.identity, lookup.slot);
                (lookup, LookupAction::Serve(result))
            },
            Err(failure) => {
                let Some(key) = lookup.key else {
                    return self.next_candidate(lookup);
                };
                let Some(output) = lookup.output else {
                    return self.next_candidate(lookup);
                };
                self.evict_result_object(&lookup.identity, lookup.slot, &key, &output, failure);
                self.next_candidate(lookup)
            },
        }
    }

    /// Goes on with a lookup that was told what it asked for.
    pub fn step(&mut self, lookup: Lookup, event: LookupEvent) -> (r: (Lookup, LookupAction))
        requires
            old(self).wf(),
            old(self).hits < u64::MAX,
            lookup.slot < u64::MAX,
        ensures
            final(self).wf(),
            stepped(old(self)@, lookup@, event@, final(self)@),
            (r.0@, r.1@) == (
                told(old(self)@, lookup@, event@).1,
                told(old(self)@, lookup@, event@).2,
            ),
    {
        proof {
            only_objects_serve(self@, lookup@, event@);
        }
        match event {
            LookupEvent::Witness(w) => self.witness_told(lookup, w),
            LookupEvent::SameShape(b) => if b {
                self.next_candidate(lookup)
            } else {
                let slot = lookup.slot;
                (lookup, LookupAction::ReadWitness(slot))
            },
            LookupEvent::Replayed(r) => self.replay_told(lookup, r),
            LookupEvent::Row(row) => self.row_told(lookup, row),
            LookupEvent::Object(object) => self.object_told(lookup, object),
        }
    }

    /// The key of the answer that was served last.
    pub fn served_key(&self) -> (r: Option<digest::Hash>)
        ensures
            r.deep_view() == self@.served,
    {
        self.served
    }

    /// Forgets an answer that whoever asked rejected: the evaluation's
    /// witnesses and the key's result, which are to go from the store too
    /// where there is one.
    pub fn forget(&mut self, identity: &EvalId, key: &digest::Hash, why: &str)
        requires
            old(self).wf(),
        ensures
            final(self).wf(),
            final(self)@ == forgetting(old(self)@, identity@, key@, why@),
    {
        let mut said = "a memoised answer was rejected by its consumer (".to_owned();
        said.append(why);
        said.append("); forgetting it and re-evaluating");
        self.warn(said);
        self.forget_retained(identity);
        self.clear_slots(identity);
        self.served = None;
        let _ = self.table.remove(key.to_hex().as_str());
    }

    pub fn note_record_failure(&mut self, detail: String)
        requires
            old(self).wf(),
        ensures
            final(self).wf(),
            final(self)@ == old(self)@.warning(detail@),
    {
        self.warn(detail);
    }

    /// Notes how sweeping the store went.
    pub fn note_sweep(&mut self, outcome: Result<(), String>)
        requires
            old(self).wf(),
        ensures
            final(self).wf(),
            final(self)@ == (match outcome {
                Ok(_) => old(self)@,
                Err(e) => old(self)@.warning("sweeping the evaluation cache failed: "@ + e@),
            }),
    {
        if let Some(complaint) = sweep_complaint(outcome) {
            let ghost prior = self.corruption.deep_view();
            let ghost c = complaint@;
            self.corruption.push(complaint);
            assert(self.corruption.deep_view() =~= prior.push(c));
        }
    }

    pub fn set_verify_rate(&mut self, rate: u32)
        requires
            old(self).wf(),
        ensures
            final(self).wf(),
            final(self)@ == (CacheV { verify_rate: rate, ..old(self)@ }),
    {
        self.verify_rate = rate;
    }

    /// Whether the next answer is to be verified: never at rate 0, always at
    /// rate 1, else about once in that many.
    pub fn should_verify(&mut self) -> (r: bool)
        requires
            old(self).wf(),
        ensures
            final(self).wf(),
            r == due(old(self)@.verify_rate, old(self)@.verify_state),
            final(self)@ == (CacheV {
                verify_state: drawn(old(self)@.verify_rate, old(self)@.verify_state),
                ..old(self)@
            }),
    {
        if self.verify_rate == 0 {
            return false;
        }
        if self.verify_rate == 1 {
            return true;
        }
        let mut x: u64 = self.verify_state;
        x = x ^ (x << 13u64);
        x = x ^ (x >> 7u64);
        x = x ^ (x << 17u64);
        self.verify_state = x;
        x % (self.verify_rate as u64) == 0
    }

    pub fn verify_state(&self) -> (r: u64)
        ensures
            r == self@.verify_state,
    {
        self.verify_state
    }

    pub fn set_verify_state(&mut self, state: u64)
        requires
            old(self).wf(),
        ensures
            final(self).wf(),
            final(self)@ == (CacheV { verify_state: state, ..old(self)@ }),
    {
        self.verify_state = state;
    }

    pub fn verifier_counts(&self) -> (r: VerifierCounts)
        ensures
            r == self@.verifier,
    {
        self.verifier
    }

    pub fn note_hit_verified(&mut self)
        requires
            old(self).wf(),
            old(self).verifier.hits_checked < u64::MAX,
        ensures
            final(self).wf(),
            final(self)@ == (CacheV {
                verifier: VerifierCounts {
                    hits_checked: (old(self)@.verifier.hits_checked + 1) as u64,
                    ..old(self)@.verifier
                },
                ..old(self)@
            }),
    {
        self.verifier.hits_checked += 1;
    }

    /// Notes that an answer that was served is not what evaluating gives.
    pub fn note_hit_disagreed(&mut self, identity: &EvalId, served: &str, fresh: &str)
        requires
            old(self).wf(),
            old(self).verifier.hits_checked < u64::MAX,
            old(self).verifier.hits_disagreed < u64::MAX,
        ensures
            final(self).wf(),
            final(self)@ == (CacheV {
                verifier: VerifierCounts {
                    hits_checked: (old(self)@.verifier.hits_checked + 1) as u64,
                    hits_disagreed: (old(self)@.verifier.hits_disagreed + 1) as u64,
                    ..old(self)@.verifier
                },
                corruption: old(self)@.corruption.push(
                    ComplaintV {
                        severity: Severity::Error,
                        message: disagreed(identity@, served@, fresh@),
                    },
                ),
                ..old(self)@
            }),
    {
        self.verifier.hits_checked += 1;
        self.verifier.hits_disagreed += 1;
        let mut said =
            "the evaluation cache served an answer that re-evaluating does not reproduce. memo key ".to_owned();
        said.append(identity.as_hash().to_hex().as_str());
        said.append(": served ");
        said.append(complaint::quote(served).as_str());
        said.append(", evaluating now gives ");
        said.append(complaint::quote(fresh).as_str());
        said.append(
            ". Every answer this cache has given for this key is suspect; the key is printed so the row can be found and the inputs that differ identified.",
        );
        assert(said@ =~= disagreed(identity@, served@, fresh@));
        self.blame(said);
    }

    fn blame(&mut self, message: String)
        requires
            old(self).wf(),
        ensures
            final(self).wf(),
            final(self)@ == (CacheV {
                corruption: old(self)@.corruption.push(
                    ComplaintV { severity: Severity::Error, message: message@ },
                ),
                ..old(self)@
            }),
    {
        let ghost prior = self.corruption.deep_view();
        let ghost m = message@;
        self.corruption.push(Complaint::error(message));
        assert(self.corruption.deep_view() =~= prior.push(
            ComplaintV { severity: Severity::Error, message: m },
        ));
    }

    /// Notes whether a result that was recorded can be found again.
    pub fn note_record_replayable(&mut self, replayable: bool, identity: &EvalId)
        requires
            old(self).wf(),
            old(self).verifier.records_checked < u64::MAX,
            old(self).verifier.records_not_replayable < u64::MAX,
        ensures
            final(self).wf(),
            final(self)@ == (if replayable {
                CacheV {
                    verifier: VerifierCounts {
                        records_checked: (old(self)@.verifier.records_checked + 1) as u64,
                        ..old(self)@.verifier
                    },
                    ..old(self)@
                }
            } else {
                CacheV {
                    verifier: VerifierCounts {
                        records_checked: (old(self)@.verifier.records_checked + 1) as u64,
                        records_not_replayable: (old(self)@.verifier.records_not_replayable
                            + 1) as u64,
                        ..old(self)@.verifier
                    },
                    corruption: old(self)@.corruption.push(
                        ComplaintV {
                            severity: Severity::Error,
                            message: unreachable_text(identity@),
                        },
                    ),
                    ..old(self)@
                }
            }),
    {
        self.verifier.records_checked += 1;
        if !replayable {
            self.verifier.records_not_replayable += 1;
            let mut said =
                "the evaluation cache recorded a result and then could not find it again in the same process. memo key ".to_owned();
            said.append(identity.as_hash().to_hex().as_str());
            said.append(
                ": everything filed under this key is unreachable, so the cache is paying to write answers it will never serve. This is what a key that differs between the record and lookup paths looks like, and what an unreadable witness looks like.",
            );
            assert(said@ =~= unreachable_text(identity@));
            self.blame(said);
        }
    }

    /// Takes the complaints.
    pub fn take_corruption(&mut self) -> (r: Vec<Complaint>)
        requires
            old(self).wf(),
        ensures
            final(self).wf(),
            r.deep_view() == old(self)@.corruption,
            final(self)@ == (CacheV { corruption: Seq::empty(), ..old(self)@ }),
    {
        let mut r: Vec<Complaint> = Vec::new();
        std::mem::swap(&mut r, &mut self.corruption);
        assert(self.corruption.deep_view() =~= Seq::<ComplaintV>::empty());
        r
    }

    pub fn hits(&self) -> (r: u64)
        ensures
            r == self@.hits,
    {
        self.hits
    }

    pub fn misses(&self) -> (r: u64)
        ensures
            r == self@.misses,
    {
        self.misses
    }

    pub fn wasted_replays(&self) -> (r: u64)
        ensures
            r == self@.wasted,
    {
        self.wasted_replays
    }

    /// Notes that the evaluation is done: for nothing was anything replayed.
    pub fn note_miss(&mut self, identity: &EvalId)
        requires
            old(self).wf(),
            old(self).misses < u64::MAX,
            old(self).wasted_replays < u64::MAX,
        ensures
            final(self).wf(),
            final(self)@ == (CacheV {
                misses: (old(self)@.misses + 1) as u64,
                wasted: if old(self)@.replayed || old(self)@.held(identity@, 0) is Some {
                    (old(self)@.wasted + 1) as u64
                } else {
                    old(self)@.wasted
                },
                ..old(self)@
            }),
    {
        self.misses += 1;
        let held = self.held(identity, 0).is_some();
        if self.lookup_replayed || held {
            self.wasted_replays += 1;
        }
    }
}

/// The complaint about a sweep that failed.
pub fn sweep_complaint(outcome: Result<(), String>) -> (r: Option<Complaint>)
    ensures
        r.deep_view() == (match outcome {
            Ok(_) => None,
            Err(e) => Some(
                complaint::warned("sweeping the evaluation cache failed: "@ + e@),
            ),
        }),
{
    match outcome {
        Ok(_) => None,
        Err(e) => {
            let mut said = "sweeping the evaluation cache failed: ".to_owned();
            said.append(e.as_str());
            Some(Complaint::warning(said))
        },
    }
}

/// What is said of an answer that evaluating does not give again.
pub open spec fn disagreed(id: Seq<u8>, served: Seq<char>, fresh: Seq<char>) -> Seq<char> {
    "the evaluation cache served an answer that re-evaluating does not reproduce. memo key "@
        + digest::hex(id) + ": served "@ + complaint::quoted(served) + ", evaluating now gives "@
        + complaint::quoted(fresh)
        + ". Every answer this cache has given for this key is suspect; the key is printed so the row can be found and the inputs that differ identified."@
}

/// What is said of a result that cannot be found again.
pub open spec fn unreachable_text(id: Seq<u8>) -> Seq<char> {
    "the evaluation cache recorded a result and then could not find it again in the same process. memo key "@
        + digest::hex(id)
        + ": everything filed under this key is unreachable, so the cache is paying to write answers it will never serve. This is what a key that differs between the record and lookup paths looks like, and what an unreadable witness looks like."@
}

/// The next state of the verifier's draw.
pub open spec fn shuffled(x: u64) -> u64 {
    let a = x ^ (x << 13u64);
    let b = a ^ (a >> 7u64);
    b ^ (b << 17u64)
}

/// The state after asking whether to verify.
pub open spec fn drawn(rate: u32, state: u64) -> u64 {
    if rate <= 1 {
        state
    } else {
        shuffled(state)
    }
}

/// The next answer is to be verified.
pub open spec fn due(rate: u32, state: u64) -> bool {
    if rate == 0 {
        false
    } else if rate == 1 {
        true
    } else {
        shuffled(state) % (rate as u64) == 0
    }
}

/// A cache with nothing in it.
pub open spec fn empty_cache(store: Option<Seq<char>>) -> CacheV {
    CacheV {
        store,
        table: Seq::empty(),
        slots: Seq::empty(),
        preferred: Seq::empty(),
        retained: None,
        corruption: Seq::empty(),
        served: None,
        verify_rate: 0,
        verify_state: 0x2545_f491_4f6c_dd1d,
        verifier: VerifierCounts {
            hits_checked: 0,
            hits_disagreed: 0,
            records_checked: 0,
            records_not_replayable: 0,
        },
        hits: 0,
        misses: 0,
        wasted: 0,
        replayed: false,
    }
}

/// The cache after an answer was forgotten.
pub open spec fn forgetting(c: CacheV, id: Seq<u8>, key: Seq<u8>, why: Seq<char>) -> CacheV {
    let said = c.warning(
        "a memoised answer was rejected by its consumer ("@ + why
            + "); forgetting it and re-evaluating"@,
    );
    let cleared = said.letting_go(id).clearing(id);
    CacheV { served: None, table: ordered::dropped(cleared.table, digest::hex(key)), ..cleared }
}

/// Every evaluation has all its slots.
pub open spec fn whole(slots: SlotsV) -> bool {
    forall|i: int| 0 <= i < slots.len() ==> (#[trigger] slots[i]).1.len() == WITNESS_HISTORY
}

pub proof fn whole_at(slots: SlotsV, name: Seq<char>)
    requires
        whole(slots),
    ensures
        ordered::find(slots, name) matches Some(h) ==> h.len() == WITNESS_HISTORY,
    decreases slots.len(),
{
    if slots.len() > 0 {
        assert(slots[0].1.len() == WITNESS_HISTORY);
        let rest = slots.drop_first();
        assert forall|i: int| 0 <= i < rest.len() implies (#[trigger] rest[i]).1.len()
            == WITNESS_HISTORY by {
            assert(rest[i] == slots[i + 1]);
        }
        whole_at(rest, name);
    }
}

pub proof fn whole_put(slots: SlotsV, name: Seq<char>, h: Seq<Option<HeldV>>)
    requires
        whole(slots),
        h.len() == WITNESS_HISTORY,
    ensures
        whole(ordered::put(slots, name, h)),
    decreases slots.len(),
{
    let r = ordered::put(slots, name, h);
    if slots.len() > 0 {
        let rest = slots.drop_first();
        assert forall|i: int| 0 <= i < rest.len() implies (#[trigger] rest[i]).1.len()
            == WITNESS_HISTORY by {
            assert(rest[i] == slots[i + 1]);
        }
        whole_put(rest, name, h);
        assert(slots[0].1.len() == WITNESS_HISTORY);
        assert forall|i: int| 0 <= i < r.len() implies (#[trigger] r[i]).1.len()
            == WITNESS_HISTORY by {
            if i > 0 {
                if slots[0].0 == name {
                    assert(r[i] == rest[i - 1]);
                } else if text::lt(name, slots[0].0) {
                    assert(r[i] == slots[i - 1]);
                } else {
                    assert(r[i] == ordered::put(rest, name, h)[i - 1]);
                }
            }
        }
    }
}

proof fn memory_never_serves(c: CacheV, l: LookupV, slot: int)
    ensures
        !(memory_from(c, l, slot).2 is Serve),
    decreases WITNESS_HISTORY - slot,
{
    if slot < WITNESS_HISTORY && c.held(l.identity, slot) is None {
        memory_never_serves(c, l, slot + 1);
    }
}

proof fn candidates_never_serve(c: CacheV, l: LookupV)
    ensures
        !(next_candidate(c, l).2 is Serve),
{
    memory_never_serves(c, l, l.slot + 1);
}

/// Only an object that was found, and that holds a result, is served: that result.
pub proof fn only_objects_serve(c: CacheV, l: LookupV, e: LookupEventV)
    ensures
        told(c, l, e).2 is Serve ==> (e matches LookupEventV::Object(o) && loaded(o) == Ok::<
            EvalResultV,
            ResultObjectFailureV,
        >(told(c, l, e).2->Serve_0)),
{
    candidates_never_serve(c, l);
    match e {
        LookupEventV::Witness(Err(reason)) => {
            candidates_never_serve(c.warning(reason + "; treating it as a cache miss"@), l);
        },
        LookupEventV::Replayed(Err(f)) => {
            candidates_never_serve(
                c.warning(
                    complaint::replay_failure(f) + "; treating the witness as a cache miss"@,
                ).dropping(l.identity, l.slot as int),
                l,
            );
        },
        LookupEventV::Replayed(Ok(Some(key))) => {
            candidates_never_serve(c, LookupV { key: Some(key), ..l });
        },
        LookupEventV::Row(RowReadV::Refused(reason)) => {
            candidates_never_serve(c.warning(reason), l);
        },
        LookupEventV::Object(o) => {
            if loaded(o) is Err && l.key is Some && l.output is Some {
                candidates_never_serve(
                    c.evicting(
                        l.identity,
                        l.slot as int,
                        l.key->0,
                        l.output->0,
                        loaded(o)->Err_0,
                    ),
                    l,
                );
            }
        },
        _ => {},
    }
}

/// A lookup that repairs serves nothing, and no key was served after it.
pub proof fn repairing_serves_nothing(c: CacheV, id: Seq<u8>)
    ensures
        begun(c, id, true).2 is Miss,
        begun(c, id, true).0.served is None,
{
}

/// How much of a lookup is left.
pub open spec fn left(l: LookupV, a: LookupActionV) -> nat {
    let stage: nat = match a {
        LookupActionV::CompareShape(_, _) => 5,
        LookupActionV::ReadWitness(_) => 4,
        LookupActionV::Replay(_) => 3,
        LookupActionV::ReadRow(_) => 2,
        LookupActionV::ReadObject(_) => 1,
        _ => 0,
    };
    let candidates: nat = match l.from {
        Source::Preferred => (WITNESS_HISTORY + 1) as nat,
        _ => if l.slot < WITNESS_HISTORY {
            (WITNESS_HISTORY - l.slot) as nat
        } else {
            0
        },
    };
    stage + 6 * candidates
}

/// The event is what the action asked for.
pub open spec fn answers_action(a: LookupActionV, e: LookupEventV) -> bool {
    match a {
        LookupActionV::ReadWitness(_) => e is Witness,
        LookupActionV::CompareShape(_, _) => e is SameShape,
        LookupActionV::Replay(_) => e is Replayed,
        LookupActionV::ReadRow(_) => e is Row,
        LookupActionV::ReadObject(_) => e is Object,
        _ => false,
    }
}

proof fn memory_goes_on(c: CacheV, l: LookupV, slot: int)
    requires
        0 <= slot,
        l.from is Memory,
    ensures
        ({
            let (d, m, a) = memory_from(c, l, slot);
            a is Miss || (m.from is Memory && slot <= m.slot < WITNESS_HISTORY && a is Replay)
        }),
    decreases WITNESS_HISTORY - slot,
{
    if slot < WITNESS_HISTORY && c.held(l.identity, slot) is None {
        memory_goes_on(c, l, slot + 1);
    }
}

proof fn candidates_go_on(c: CacheV, l: LookupV)
    requires
        l.from is Preferred || l.slot < WITNESS_HISTORY,
    ensures
        ({
            let (d, m, a) = next_candidate(c, l);
            a is Miss || (left(m, a) + 1 <= 6 * (match l.from {
                Source::Preferred => WITNESS_HISTORY + 1,
                _ => WITNESS_HISTORY - l.slot,
            }) && (m.from is Preferred || m.slot < WITNESS_HISTORY))
        }),
{
    if l.from is Memory {
        memory_goes_on(c, l, l.slot + 1);
    }
}

/// Every answer brings a lookup nearer to its end, so that it asks only so often.
pub proof fn a_lookup_ends(c: CacheV, l: LookupV, a: LookupActionV, e: LookupEventV)
    requires
        answers_action(a, e),
        l.from is Preferred || l.slot < WITNESS_HISTORY,
    ensures
        ({
            let (d, m, b) = told(c, l, e);
            b is Serve || b is Miss || (left(m, b) < left(l, a) && (m.from is Preferred || m.slot
                < WITNESS_HISTORY))
        }),
{
    candidates_go_on(c, l);
    match e {
        LookupEventV::Witness(Err(reason)) => {
            candidates_go_on(c.warning(reason + "; treating it as a cache miss"@), l);
        },
        LookupEventV::Replayed(Err(f)) => {
            candidates_go_on(
                c.warning(
                    complaint::replay_failure(f) + "; treating the witness as a cache miss"@,
                ).dropping(l.identity, l.slot as int),
                l,
            );
        },
        LookupEventV::Replayed(Ok(Some(key))) => {
            candidates_go_on(c, LookupV { key: Some(key), ..l });
        },
        LookupEventV::Row(RowReadV::Refused(reason)) => {
            candidates_go_on(c.warning(reason), l);
        },
        LookupEventV::Object(o) => {
            if loaded(o) is Err && l.key is Some && l.output is Some {
                candidates_go_on(
                    c.evicting(
                        l.identity,
                        l.slot as int,
                        l.key->0,
                        l.output->0,
                        loaded(o)->Err_0,
                    ),
                    l,
                );
            }
        },
        _ => {},
    }
}

proof fn nothing_in_memory(c: CacheV, l: LookupV, slot: int)
    requires
        0 <= slot,
        history_of(c.slots, l.identity) == no_slots(),
    ensures
        memory_from(c, l, slot).2 is Miss,
    decreases WITNESS_HISTORY - slot,
{
    if slot < WITNESS_HISTORY {
        nothing_in_memory(c, l, slot + 1);
    }
}

/// A forgotten answer is gone: no witness of the evaluation is in memory or
/// kept between caches, the key has no result, and where there is no store the
/// next lookup finds nothing.
pub proof fn a_forgotten_answer_is_gone(c: CacheV, id: Seq<u8>, key: Seq<u8>, why: Seq<char>)
    requires
        text::sorted(ordered::keys(c.table)),
        text::sorted(ordered::keys(c.preferred)),
        c.retained matches Some(r) ==> r.bounded(),
    ensures
        ({
            let f = forgetting(c, id, key, why);
            &&& f.output(key) is None
            &&& f.prefers(id) is None
            &&& forall|slot: int| f.held(id, slot) is None
            &&& f.served is None
            &&& f.store matches Some(dir) ==> (f.retained matches Some(r) ==> r.kept(dir, id)
                is None)
            &&& f.store is None ==> begun(f, id, false).2 is Miss
        }),
{
    let f = forgetting(c, id, key, why);
    ordered::dropped_found(c.table, digest::hex(key), digest::hex(key));
    ordered::dropped_found(c.preferred, digest::hex(id), digest::hex(id));
    ordered::put_found(c.slots, digest::hex(id), no_slots());
    assert(history_of(f.slots, id) == no_slots());
    if let Some(dir) = c.store {
        if let Some(r) = c.retained {
            retained::removing_leaves_the_others(r, dir, id, dir, id + seq![0u8]);
            assert(id.len() != (id + seq![0u8]).len());
        }
    } else {
        let start = CacheV { replayed: false, served: None, ..f };
        nothing_in_memory(
            start,
            LookupV {
                identity: id,
                from: Source::Memory,
                slot: 0,
                tried: None,
                disk: None,
                key: None,
                output: None,
            },
            0,
        );
    }
}

/// Forgetting an answer leaves the witnesses of other evaluations, in memory
/// and between caches, and the results of other keys.
pub proof fn forgetting_leaves_the_others(
    c: CacheV,
    id: Seq<u8>,
    key: Seq<u8>,
    why: Seq<char>,
    other: Seq<u8>,
    other_key: Seq<u8>,
    slot: int,
)
    requires
        text::sorted(ordered::keys(c.table)),
        text::sorted(ordered::keys(c.preferred)),
        c.retained matches Some(r) ==> r.bounded(),
        other != id,
        other_key != key,
    ensures
        ({
            let f = forgetting(c, id, key, why);
            &&& f.output(other_key) == c.output(other_key)
            &&& f.held(other, slot) == c.held(other, slot)
            &&& f.prefers(other) == c.prefers(other)
            &&& f.hits == c.hits && f.misses == c.misses && f.store == c.store
            &&& c.store matches Some(dir) ==> (c.retained matches Some(r) ==> (
            f.retained matches Some(s) && s.kept(dir, other) == r.kept(dir, other)))
        }),
{
    if digest::hex(other) == digest::hex(id) {
        digest::hex_injective(other, id);
    }
    if digest::hex(other_key) == digest::hex(key) {
        digest::hex_injective(other_key, key);
    }
    ordered::dropped_found(c.table, digest::hex(key), digest::hex(other_key));
    ordered::dropped_found(c.preferred, digest::hex(id), digest::hex(other));
    ordered::put_keeps(c.slots, digest::hex(id), no_slots(), digest::hex(other));
    if let (Some(r), Some(dir)) = (c.retained, c.store) {
        retained::removing_leaves_the_others(r, dir, id, dir, other);
    }
}

/// A result whose object cannot be used goes, with the witness that led to it,
/// and a warning that names the object; the results of other keys stay.
pub proof fn an_unusable_result_goes(
    c: CacheV,
    id: Seq<u8>,
    slot: int,
    key: Seq<u8>,
    output: Seq<u8>,
    failure: ResultObjectFailureV,
    other_key: Seq<u8>,
)
    requires
        text::sorted(ordered::keys(c.table)),
        whole(c.slots),
        other_key != key,
        0 <= slot < WITNESS_HISTORY,
    ensures
        ({
            let e = c.evicting(id, slot, key, output, failure);
            &&& e.output(key) is None
            &&& e.output(other_key) == c.output(other_key)
            &&& e.held(id, slot) is None
            &&& e.corruption.len() == c.corruption.len() + 1
            &&& e.corruption.last().severity is Warning
            &&& text::begins(e.corruption.last().message, "object "@ + digest::hex(output))
        }),
{
    if digest::hex(other_key) == digest::hex(key) {
        digest::hex_injective(other_key, key);
    }
    let e = c.evicting(id, slot, key, output, failure);
    ordered::dropped_found(c.table, digest::hex(key), digest::hex(key));
    ordered::dropped_found(c.table, digest::hex(key), digest::hex(other_key));
    whole_at(c.slots, digest::hex(id));
    ordered::put_found(c.slots, digest::hex(id), history_of(c.slots, id).update(slot, None));
    let m = e.corruption.last().message;
    let head = "object "@ + digest::hex(output);
    assert(m.take(head.len() as int) =~= head);
}

/// Of the witnesses in memory the next one that there is is tried, from the
/// newest; there is no answer only where no more are left.
pub proof fn the_next_witness_in_memory_is_tried(c: CacheV, l: LookupV, slot: int)
    requires
        0 <= slot <= WITNESS_HISTORY,
    ensures
        ({
            let (d, m, a) = memory_from(c, l, slot);
            &&& a is Miss <==> forall|k: int|
                slot <= k < WITNESS_HISTORY ==> #[trigger] c.held(l.identity, k) is None
            &&& !(a is Miss) ==> slot <= m.slot < WITNESS_HISTORY && (c.held(
                l.identity,
                m.slot as int,
            ) matches Some(h) && a == LookupActionV::Replay(h.rows)) && forall|k: int|
                slot <= k < m.slot ==> #[trigger] c.held(l.identity, k) is None
        }),
    decreases WITNESS_HISTORY - slot,
{
    if slot < WITNESS_HISTORY && c.held(l.identity, slot) is None {
        the_next_witness_in_memory_is_tried(c, l, slot + 1);
    }
}

/// In a store each slot is read in its turn, unless its witness has the shape
/// of the one that was tried already; a witness that is read is replayed as it
/// was read.
pub proof fn each_slot_of_a_store_is_tried(c: CacheV, l: LookupV, h: HeldV)
    requires
        l.from is Disk,
        l.slot < WITNESS_HISTORY,
    ensures
        l.slot + 1 < WITNESS_HISTORY ==> ({
            let (d, m, a) = next_candidate(c, l);
            m.slot == l.slot + 1 && (match l.tried {
                Some(shape) => a == LookupActionV::CompareShape(m.slot, shape),
                None => a == LookupActionV::ReadWitness(m.slot),
            })
        }),
        l.slot + 1 == WITNESS_HISTORY ==> next_candidate(c, l).2 is Miss,
        told(c, l, LookupEventV::SameShape(false)).2 == LookupActionV::ReadWitness(l.slot),
        told(c, l, LookupEventV::SameShape(true)) == next_candidate(c, l),
        told(c, l, LookupEventV::Witness(Ok(None))) == next_candidate(c, l),
        told(c, l, LookupEventV::Witness(Ok(Some(h)))).2 == LookupActionV::Replay(h.rows),
{
}

/// In a store, the witness that served is tried first by the next lookup, as
/// long as nothing is kept between caches in its place.
pub proof fn what_served_is_tried_first(c: CacheV, l: LookupV, h: HeldV)
    requires
        whole(c.slots),
        c.store is Some,
        c.retained is None,
        l.disk == Some(h),
        l.slot < WITNESS_HISTORY,
    ensures
        serving(c, l).prefers(l.identity) == Some(l.slot),
        serving(c, l).held(l.identity, l.slot as int) == Some(h),
        begun(serving(c, l), l.identity, false).2 == LookupActionV::Replay(h.rows),
{
    let name = digest::hex(l.identity);
    let s = serving(c, l);
    whole_at(c.slots, name);
    ordered::put_found(c.preferred, name, l.slot);
    let previous = match c.prefers(l.identity) {
        Some(p) => p,
        None => 0,
    };
    let old = history_of(c.slots, l.identity);
    if previous != l.slot && previous < WITNESS_HISTORY {
        ordered::put_found(c.slots, name, old.update(previous as int, None));
        ordered::put_found(
            ordered::put(c.slots, name, old.update(previous as int, None)),
            name,
            old.update(previous as int, None).update(l.slot as int, Some(h)),
        );
    } else {
        ordered::put_found(c.slots, name, old.update(l.slot as int, Some(h)));
    }
}

/// What is kept between caches of an evaluation in this store is tried first.
pub proof fn what_is_kept_is_tried_first(c: CacheV, id: Seq<u8>, dir: Seq<char>, e: EntryV)
    requires
        c.store == Some(dir),
        c.retained matches Some(r) && r.kept(dir, id) == Some(e),
        e.slot < WITNESS_HISTORY,
    ensures
        begun(c, id, false).2 == LookupActionV::Replay(e.rows),
        begun(c, id, false).1.slot == e.slot,
        begun(c, id, false).1.from is Preferred,
{
    let r = c.retained->0;
    let name = digest::hex(id);
    let start = CacheV { replayed: false, served: None, ..c };
    let cleared = CacheV { retained: Some(r.reading(dir, id)), ..start }.clearing(id);
    ordered::put_found(start.slots, name, no_slots());
    let p = cleared.preferring(id, e.slot as u64);
    ordered::put_found(cleared.preferred, name, e.slot as u64);
    let h = HeldV { rows: e.rows, shape: e.shape };
    ordered::put_found(
        p.slots,
        name,
        history_of(p.slots, id).update(e.slot as int, Some(h)),
    );
    let fresh = refreshed(start, id);
    assert(fresh == p.holding(id, e.slot as int, h));
    assert(fresh.prefers(id) == Some(e.slot as u64));
    assert(fresh.held(id, e.slot as int) == Some(h));
}

/// An object is used only where it was found and holds a result: that result.
pub proof fn what_is_loaded(o: ObjectReadV, r: EvalResultV)
    ensures
        loaded(o) matches Ok(x) ==> o == ObjectReadV::Found(Some(x)),
        o == ObjectReadV::Found(Some(r)) ==> loaded(o) == Ok::<EvalResultV, ResultObjectFailureV>(
            r,
        ),
        o is Missing <==> (loaded(o) matches Err(e) && e is Missing),
{
}

/// No answer is verified at rate 0 and every one at rate 1, without a draw; at
/// another rate a number is drawn, and an answer is verified where the rate
/// divides it.
pub proof fn when_an_answer_is_verified(rate: u32, state: u64)
    ensures
        !due(0, state),
        due(1, state),
        drawn(0, state) == state && drawn(1, state) == state,
        rate > 1 ==> (due(rate, state) <==> drawn(rate, state) % (rate as u64) == 0),
        rate > 1 && state != 0 ==> drawn(rate, state) != 0,
{
    if rate > 1 && state != 0 {
        assert((state ^ (state << 13u64)) != 0) by (bit_vector)
            requires
                state != 0,
        ;
        let a = state ^ (state << 13u64);
        assert((a ^ (a >> 7u64)) != 0) by (bit_vector)
            requires
                a != 0,
        ;
        let b = a ^ (a >> 7u64);
        assert((b ^ (b << 17u64)) != 0) by (bit_vector)
            requires
                b != 0,
        ;
    }
}

/// What is kept between caches of a witness in memory is that witness, with the
/// slot that it is of, under the store.
pub proof fn what_is_kept_between_caches(
    c: CacheV,
    id: Seq<u8>,
    slot: u64,
    dir: Seq<char>,
    e: EntryV,
)
    requires
        c.to_retain(id, slot) == Some((dir, e)),
    ensures
        c.store == Some(dir),
        c.held(id, slot as int) matches Some(h) && e.rows == h.rows && e.shape == h.shape,
        e.slot == slot as usize,
{
}

/// A lookup begins with nothing served and nothing replayed, as far as it does
/// not replay at once; and it looks for the evaluation that it is of.
pub proof fn how_a_lookup_begins(c: CacheV, id: Seq<u8>, repair: bool)
    ensures
        begun(c, id, repair).0.served is None,
        begun(c, id, repair).1.identity == id,
        begun(c, id, repair).0.replayed <==> begun(c, id, repair).2 is Replay,
        begun(c, id, repair).0.hits == c.hits,
        begun(c, id, repair).0.misses == c.misses,
        begun(c, id, repair).0.table == c.table,
        repair ==> begun(c, id, repair).2 is Miss,
{
    let start = CacheV { replayed: false, served: None, ..c };
    let fresh = refreshed(start, id);
    let l = LookupV {
        identity: id,
        from: Source::Memory,
        slot: 0,
        tried: None,
        disk: None,
        key: None,
        output: None,
    };
    memory_begins(fresh, l, 0);
}

proof fn memory_begins(c: CacheV, l: LookupV, slot: int)
    requires
        !c.replayed,
    ensures
        memory_from(c, l, slot).0.replayed <==> memory_from(c, l, slot).2 is Replay,
        memory_from(c, l, slot).0.served == c.served,
        memory_from(c, l, slot).0.hits == c.hits,
        memory_from(c, l, slot).0.misses == c.misses,
        memory_from(c, l, slot).0.table == c.table,
        memory_from(c, l, slot).1.identity == l.identity,
        memory_from(c, l, slot).2 is Replay || memory_from(c, l, slot).2 is Miss,
    decreases WITNESS_HISTORY - slot,
{
    if slot < WITNESS_HISTORY && c.held(l.identity, slot) is None {
        memory_begins(c, l, slot + 1);
    }
}

proof fn going_on_says_nothing(c: CacheV, l: LookupV)
    ensures
        next_candidate(c, l).0.corruption == c.corruption,
{
    memory_says_nothing(c, l, l.slot + 1);
}

proof fn memory_says_nothing(c: CacheV, l: LookupV, slot: int)
    ensures
        memory_from(c, l, slot).0.corruption == c.corruption,
    decreases WITNESS_HISTORY - slot,
{
    if slot < WITNESS_HISTORY && c.held(l.identity, slot) is None {
        memory_says_nothing(c, l, slot + 1);
    }
}

/// Whatever is refused on the way of a lookup is said, once and with its
/// reason, and is no answer: a witness that cannot be read, one that cannot be
/// replayed, and a row that the store refuses. What is simply not there is not
/// complained of.
pub proof fn what_is_refused_is_said(
    c: CacheV,
    l: LookupV,
    reason: Seq<char>,
    f: ReplayFailureV,
)
    ensures
        told(c, l, LookupEventV::Witness(Err(reason))).0.corruption == c.corruption.push(
            complaint::warned(reason + "; treating it as a cache miss"@),
        ),
        told(c, l, LookupEventV::Replayed(Err(f))).0.corruption == c.corruption.push(
            complaint::warned(
                complaint::replay_failure(f) + "; treating the witness as a cache miss"@,
            ),
        ),
        told(c, l, LookupEventV::Row(RowReadV::Refused(reason))).0.corruption
            == c.corruption.push(complaint::warned(reason)),
        told(c, l, LookupEventV::Witness(Ok(None))).0.corruption == c.corruption,
        told(c, l, LookupEventV::Replayed(Ok(None))).0.corruption == c.corruption,
        told(c, l, LookupEventV::Row(RowReadV::Missing)).0.corruption == c.corruption,
{
    going_on_says_nothing(c, l);
    going_on_says_nothing(c.warning(reason + "; treating it as a cache miss"@), l);
    going_on_says_nothing(
        c.warning(
            complaint::replay_failure(f) + "; treating the witness as a cache miss"@,
        ).dropping(l.identity, l.slot as int),
        l,
    );
    going_on_says_nothing(c.warning(reason), l);
}

/// A preferred witness that did not serve is let go of, in memory and between
/// caches, and the store is read from its first slot, but for a witness of the
/// same shape.
pub proof fn a_preferred_witness_that_fails_is_let_go(
    c: CacheV,
    l: LookupV,
    dir: Seq<char>,
    slot: u64,
    h: HeldV,
)
    requires
        c.store == Some(dir),
        whole(c.slots),
        text::sorted(ordered::keys(c.preferred)),
        c.retained matches Some(r) ==> r.bounded(),
        l.from is Preferred,
        c.prefers(l.identity) == Some(slot),
        slot < WITNESS_HISTORY,
        c.held(l.identity, slot as int) == Some(h),
    ensures
        ({
            let (d, m, a) = next_candidate(c, l);
            &&& d.prefers(l.identity) is None
            &&& d.held(l.identity, slot as int) is None
            &&& d.retained matches Some(r) ==> r.kept(dir, l.identity) is None
            &&& a == LookupActionV::CompareShape(0, h.shape)
            &&& m.slot == 0 && m.from is Disk && m.tried == Some(h.shape)
        }),
{
    let name = digest::hex(l.identity);
    ordered::dropped_found(c.preferred, name, name);
    whole_at(c.slots, name);
    ordered::put_found(
        c.slots,
        name,
        history_of(c.slots, l.identity).update(slot as int, None),
    );
    if let Some(r) = c.retained {
        retained::removing_leaves_the_others(
            r,
            dir,
            l.identity,
            dir,
            l.identity + seq![0u8],
        );
        assert(l.identity.len() != (l.identity + seq![0u8]).len());
    }
}

/// In a store one witness of an evaluation at most is in memory after it
/// served: the one that the slot it was last served from had is let go of.
pub proof fn one_witness_stays_in_memory(c: CacheV, l: LookupV, h: HeldV, previous: u64)
    requires
        whole(c.slots),
        c.store is Some,
        l.disk == Some(h),
        l.slot < WITNESS_HISTORY,
        previous < WITNESS_HISTORY,
        previous != l.slot,
        c.prefers(l.identity) == Some(previous),
        forall|k: int| 0 <= k < WITNESS_HISTORY && k != previous ==> #[trigger] c.held(
            l.identity,
            k,
        ) is None,
    ensures
        forall|k: int|
            0 <= k < WITNESS_HISTORY ==> #[trigger] serving(c, l).held(l.identity, k) == (if k
                == l.slot {
                Some(h)
            } else {
                None
            }),
{
    let name = digest::hex(l.identity);
    whole_at(c.slots, name);
    let old = history_of(c.slots, l.identity);
    let once = old.update(previous as int, None);
    ordered::put_found(c.slots, name, once);
    ordered::put_found(
        ordered::put(c.slots, name, once),
        name,
        once.update(l.slot as int, Some(h)),
    );
    assert forall|k: int| 0 <= k < WITNESS_HISTORY implies #[trigger] serving(c, l).held(
        l.identity,
        k,
    ) == (if k == l.slot {
        Some(h)
    } else {
        None
    }) by {
        assert(c.held(l.identity, k) == old[k]);
    }
}

/// What is kept between caches takes the place of what is in memory: nothing
/// else of the evaluation is tried from memory.
pub proof fn what_is_kept_takes_the_place(c: CacheV, id: Seq<u8>, dir: Seq<char>, k: int)
    requires
        c.store == Some(dir),
        c.retained is Some,
        text::sorted(ordered::keys(c.preferred)),
    ensures
        c.retained->0.kept(dir, id) is None ==> refreshed(c, id).held(id, k) is None && refreshed(
            c,
            id,
        ).prefers(id) is None,
        c.retained->0.kept(dir, id) matches Some(e) ==> (refreshed(c, id).held(id, k)
            matches Some(h) ==> k == e.slot && h.rows == e.rows && h.shape == e.shape),
{
    let r = c.retained->0;
    let name = digest::hex(id);
    let cleared = CacheV { retained: Some(r.reading(dir, id)), ..c }.clearing(id);
    ordered::put_found(c.slots, name, no_slots());
    ordered::dropped_found(c.preferred, name, name);
    assert(history_of(cleared.slots, id) == no_slots());
    if let Some(e) = r.kept(dir, id) {
        let p = cleared.preferring(id, e.slot as u64);
        let h = HeldV { rows: e.rows, shape: e.shape };
        if e.slot < WITNESS_HISTORY {
            ordered::put_found(p.slots, name, no_slots().update(e.slot as int, Some(h)));
        }
    }
}

} // verus!
