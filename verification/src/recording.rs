//! How a result is recorded in the cache.
use vstd::prelude::*;
use std::rc::Rc;
use crate::cache;
use crate::cache::{
    CacheV,
    Held,
    HeldV,
    History,
    LookupActionV,
    LookupEventV,
    ObjectRead,
    ObjectReadV,
    ResultCache,
};
use crate::codec::{CanonV, CanonValue};
use crate::digest;
use crate::digest::{ObjId, Preimage, PreimageV};
use crate::history;
use crate::model::Plain;
use crate::named;
use crate::ordered;
use crate::question::WitnessRow;
use crate::readset;
use crate::readset::{EvalId, Folded, ReadSet};
use crate::result;
use crate::result::{EvalResult, EvalResultV};
use crate::retained;
use crate::retained::EntryV;
use crate::text;
use crate::validity::RowsV;
use crate::witness;
use crate::witness::WITNESS_HISTORY;

verus! {

/// A recording that is going on.
pub struct Recording {
    pub identity: EvalId,
    /// The folded rows.
    pub rows: Rc<Vec<WitnessRow>>,
    /// The derivations that were written, with their names.
    pub aterms: Vec<(ObjId, Vec<u8>)>,
    /// Which of them is being stored.
    pub at: usize,
    /// How many were stored, and how many were there.
    pub stored: u64,
    pub reused: u64,
    pub result: EvalResult,
    pub key: Option<digest::Hash>,
    pub output: Option<ObjId>,
    pub shape: Option<digest::Hash>,
}

/// The model of [`Recording`].
#[verifier::ext_equal]
pub struct RecordingV {
    pub identity: Seq<u8>,
    pub rows: RowsV,
    pub aterms: Seq<(Seq<u8>, Seq<u8>)>,
    pub at: usize,
    pub stored: u64,
    pub reused: u64,
    pub result: EvalResultV,
    pub key: Option<Seq<u8>>,
    pub output: Option<Seq<u8>>,
    pub shape: Option<Seq<u8>>,
}

impl View for Recording {
    type V = RecordingV;

    open spec fn view(&self) -> RecordingV {
        RecordingV {
            identity: self.identity@,
            rows: self.rows.deep_view(),
            aterms: self.aterms.deep_view(),
            at: self.at,
            stored: self.stored,
            reused: self.reused,
            result: self.result@,
            key: self.key.deep_view(),
            output: self.output.deep_view(),
            shape: self.shape.deep_view(),
        }
    }
}

/// What a recording asks for next, or what came of it.
pub enum RecordAction {
    /// Hash the bytes, and read what the object store has under the name.
    CheckAterm(ObjId, Vec<u8>),
    /// Store the bytes.
    PutAterm(Vec<u8>),
    /// Hash the key.
    TakeKey(Preimage),
    /// Read a result's object.
    ReadObject(ObjId),
    /// Store the result.
    PutResult(CanonValue),
    /// Hash the rows of the shape, and the shape.
    TakeShape(Vec<Preimage>),
    /// Put the witness into the store's history.
    PutWitness(Rc<Vec<WitnessRow>>, digest::Hash),
    /// Put the row of the key into the store.
    PutRow(digest::Hash, ObjId),
    Finished,
    Refused(String),
}

/// The model of [`RecordAction`].
#[verifier::ext_equal]
pub enum RecordActionV {
    CheckAterm(Seq<u8>, Seq<u8>),
    PutAterm(Seq<u8>),
    TakeKey(PreimageV),
    ReadObject(Seq<u8>),
    PutResult(CanonV),
    TakeShape(Seq<PreimageV>),
    PutWitness(RowsV, Seq<u8>),
    PutRow(Seq<u8>, Seq<u8>),
    Finished,
    Refused(Seq<char>),
}

impl View for RecordAction {
    type V = RecordActionV;

    open spec fn view(&self) -> RecordActionV {
        match self {
            RecordAction::CheckAterm(id, bytes) => RecordActionV::CheckAterm(id@, bytes@),
            RecordAction::PutAterm(bytes) => RecordActionV::PutAterm(bytes@),
            RecordAction::TakeKey(p) => RecordActionV::TakeKey(p@),
            RecordAction::ReadObject(output) => RecordActionV::ReadObject(output@),
            RecordAction::PutResult(v) => RecordActionV::PutResult(v@),
            RecordAction::TakeShape(rows) => RecordActionV::TakeShape(rows.deep_view()),
            RecordAction::PutWitness(rows, shape) => RecordActionV::PutWitness(
                rows.deep_view(),
                shape@,
            ),
            RecordAction::PutRow(key, output) => RecordActionV::PutRow(key@, output@),
            RecordAction::Finished => RecordActionV::Finished,
            RecordAction::Refused(s) => RecordActionV::Refused(s@),
        }
    }
}

/// What a recording is told.
pub enum RecordEvent {
    /// The name that the bytes hash to, and what is stored under the one they have.
    Aterm(ObjId, Option<Vec<u8>>),
    /// The name under which an object was stored.
    Put(ObjId),
    Key(digest::Hash),
    Object(ObjectRead),
    Shape(digest::Hash),
    WitnessPut,
    RowPut,
}

/// The model of [`RecordEvent`].
#[verifier::ext_equal]
pub enum RecordEventV {
    Aterm(Seq<u8>, Option<Seq<u8>>),
    Put(Seq<u8>),
    Key(Seq<u8>),
    Object(ObjectReadV),
    Shape(Seq<u8>),
    WitnessPut,
    RowPut,
}

impl View for RecordEvent {
    type V = RecordEventV;

    open spec fn view(&self) -> RecordEventV {
        match self {
            RecordEvent::Aterm(id, stored) => RecordEventV::Aterm(id@, stored.deep_view()),
            RecordEvent::Put(id) => RecordEventV::Put(id@),
            RecordEvent::Key(key) => RecordEventV::Key(key@),
            RecordEvent::Object(o) => RecordEventV::Object(o@),
            RecordEvent::Shape(shape) => RecordEventV::Shape(shape@),
            RecordEvent::WitnessPut => RecordEventV::WitnessPut,
            RecordEvent::RowPut => RecordEventV::RowPut,
        }
    }
}

/// The cache, the recording and what it asks for.
pub type Recorded = (CacheV, RecordingV, RecordActionV);

/// The next derivation to store, or the key once there is none.
pub open spec fn next_aterm(r: RecordingV) -> (RecordingV, RecordActionV) {
    if r.at < r.aterms.len() {
        (r, RecordActionV::CheckAterm(r.aterms[r.at as int].0, r.aterms[r.at as int].1))
    } else {
        (r, RecordActionV::TakeKey(readset::key(r.rows, r.identity)))
    }
}

/// The number after `n`, from the greatest to 0.
pub open spec fn after(n: u64) -> u64 {
    crate::recorder::after(n)
}

/// What the object store has of a derivation was read: bytes that do not hash
/// to their name are refused, and what is there is not stored again.
pub open spec fn aterm_told(r: RecordingV, computed: Seq<u8>, stored: Option<Seq<u8>>) -> (
    RecordingV,
    RecordActionV,
) {
    let (expected, bytes) = r.aterms[r.at as int];
    if computed != expected {
        (
            r,
            RecordActionV::Refused(
                "ATerm bytes do not hash to their recorded address "@ + digest::hex(expected),
            ),
        )
    } else if stored == Some(bytes) {
        next_aterm(RecordingV { at: (r.at + 1) as usize, reused: after(r.reused), ..r })
    } else {
        (r, RecordActionV::PutAterm(bytes))
    }
}

/// A derivation was stored: under another name it is refused.
pub open spec fn aterm_put(r: RecordingV, id: Seq<u8>) -> (RecordingV, RecordActionV) {
    let (expected, bytes) = r.aterms[r.at as int];
    if id != expected {
        (
            r,
            RecordActionV::Refused(
                "CAS returned "@ + digest::hex(id) + " after storing ATerm "@ + digest::hex(
                    expected,
                ),
            ),
        )
    } else {
        next_aterm(RecordingV { at: (r.at + 1) as usize, stored: after(r.stored), ..r })
    }
}

/// The key was hashed: its result is looked at where the table has one.
pub open spec fn key_told(c: CacheV, r: RecordingV, key: Seq<u8>) -> Recorded {
    let k = RecordingV { key: Some(key), ..r };
    match c.output(key) {
        Some(output) => (
            c,
            RecordingV { output: Some(output), ..k },
            RecordActionV::ReadObject(output),
        ),
        None => (c, k, RecordActionV::PutResult(result::result_written(r.result))),
    }
}

/// The table's result for the key was read: one that can be used stays, and
/// one that cannot goes, and the new one is stored.
pub open spec fn object_told(c: CacheV, r: RecordingV, o: ObjectReadV) -> Recorded {
    match (cache::loaded(o), r.key, r.output) {
        (Err(failure), Some(key), Some(output)) => (
            c.evicting(r.identity, 0, key, output, failure),
            RecordingV { output: None, ..r },
            RecordActionV::PutResult(result::result_written(r.result)),
        ),
        _ => (c, r, RecordActionV::TakeShape(witness::shape_rows_of(r.rows))),
    }
}

/// The result was stored: the table has it under the key.
pub open spec fn result_put(c: CacheV, r: RecordingV, id: Seq<u8>) -> Recorded {
    let d = match r.key {
        Some(key) => c.filing(key, id),
        None => c,
    };
    (
        d,
        RecordingV { output: Some(id), ..r },
        RecordActionV::TakeShape(witness::shape_rows_of(r.rows)),
    )
}

/// The shapes of a history.
pub open spec fn shapes(h: Seq<Option<HeldV>>) -> Seq<Option<Seq<u8>>> {
    Seq::new(
        h.len(),
        |i: int|
            match h[i] {
                Some(x) => Some(x.shape),
                None => None,
            },
    )
}

/// The cache with the witness of a recording as the evaluation's newest: in a
/// store it is the only one in memory, and without one the older move back.
pub open spec fn keeping(c: CacheV, id: Seq<u8>, h: HeldV) -> CacheV {
    if c.store is Some {
        let preferred = c.preferring(id, 0);
        let single = match c.prefers(id) {
            Some(previous) => preferred.dropping(id, previous as int),
            None => preferred,
        };
        single.holding(id, 0, h)
    } else {
        let old = cache::history_of(c.slots, id);
        CacheV {
            slots: ordered::put(
                c.slots,
                digest::hex(id),
                history::shifted(old, history::gives_way(shapes(old), h.shape, 0), h),
            ),
            ..c
        }
    }
}

/// The shape was hashed: in a store the witness is put next.
pub open spec fn shape_told(c: CacheV, r: RecordingV, shape: Seq<u8>) -> Recorded {
    let s = RecordingV { shape: Some(shape), ..r };
    if c.store is Some {
        (c, s, RecordActionV::PutWitness(r.rows, shape))
    } else {
        finishing(c, s)
    }
}

/// The witness was put: the key's row is next.
pub open spec fn witness_put(c: CacheV, r: RecordingV) -> Recorded {
    match (r.key, r.output) {
        (Some(key), Some(output)) => (c, r, RecordActionV::PutRow(key, output)),
        _ => (c, r, RecordActionV::Finished),
    }
}

/// All is stored: the witness is kept in memory.
pub open spec fn finishing(c: CacheV, r: RecordingV) -> Recorded {
    match r.shape {
        Some(shape) => (
            keeping(c, r.identity, HeldV { rows: r.rows, shape }),
            r,
            RecordActionV::Finished,
        ),
        None => (c, r, RecordActionV::Finished),
    }
}

/// What a recording comes to with what it is told.
pub open spec fn told(c: CacheV, r: RecordingV, e: RecordEventV) -> Recorded {
    match e {
        RecordEventV::Aterm(computed, stored) => if r.at < r.aterms.len() {
            let (s, a) = aterm_told(r, computed, stored);
            (c, s, a)
        } else {
            (c, r, RecordActionV::Finished)
        },
        RecordEventV::Put(id) => if r.at < r.aterms.len() {
            let (s, a) = aterm_put(r, id);
            (c, s, a)
        } else {
            result_put(c, r, id)
        },
        RecordEventV::Key(key) => key_told(c, r, key),
        RecordEventV::Object(o) => object_told(c, r, o),
        RecordEventV::Shape(shape) => shape_told(c, r, shape),
        RecordEventV::WitnessPut => witness_put(c, r),
        RecordEventV::RowPut => finishing(c, r),
    }
}

/// The step of a cache, up to what a finished recording leaves between caches.
pub open spec fn stepped(before: CacheV, r: RecordingV, e: RecordEventV, after: CacheV) -> bool {
    let (c, s, a) = told(before, r, e);
    if keeps(before, r, e) {
        cache::retaining(c, after, r.identity, 0)
    } else {
        after == c
    }
}

/// The witness comes into memory with this event.
pub open spec fn keeps(c: CacheV, r: RecordingV, e: RecordEventV) -> bool {
    match e {
        RecordEventV::Shape(_) => c.store is None,
        RecordEventV::RowPut => r.shape is Some,
        _ => false,
    }
}

fn wrapping_next(n: u64) -> (r: u64)
    ensures
        r == after(n),
{
    if n == u64::MAX {
        0
    } else {
        n + 1
    }
}

fn continue_aterms(r: Recording) -> (s: (Recording, RecordAction))
    requires
        r.at <= r.aterms.len(),
    ensures
        (s.0@, s.1@) == next_aterm(r@),
        s.0.at <= s.0.aterms.len(),
{
    if r.at < r.aterms.len() {
        let id = r.aterms[r.at].0;
        let bytes = r.aterms[r.at].1.copied();
        assert(bytes.deep_view() =~= bytes@);
        assert(r@.aterms[r.at as int] == r.aterms@[r.at as int].deep_view());
        assert(r.aterms@[r.at as int].1.deep_view() =~= bytes@);
        (r, RecordAction::CheckAterm(id, bytes))
    } else {
        let key = ReadSet::key_of(&*r.rows, &r.identity);
        (r, RecordAction::TakeKey(key))
    }
}

fn aterm_checked(r: Recording, computed: ObjId, stored: Option<Vec<u8>>) -> (s: (
    Recording,
    RecordAction,
))
    requires
        r.at < r.aterms.len(),
    ensures
        (s.0@, s.1@) == aterm_told(r@, computed@, stored.deep_view()),
        s.0.at <= s.0.aterms.len(),
{
    let expected = r.aterms[r.at].0;
    assert(r@.aterms[r.at as int] == r.aterms@[r.at as int].deep_view());
    if !computed.same(&expected) {
        let mut said = "ATerm bytes do not hash to their recorded address ".to_owned();
        said.append(expected.hash.to_hex().as_str());
        return (r, RecordAction::Refused(said));
    }
    let there = match &stored {
        Some(b) => b.same(&r.aterms[r.at].1),
        None => false,
    };
    if there {
        let mut r = r;
        r.at += 1;
        r.reused = wrapping_next(r.reused);
        continue_aterms(r)
    } else {
        let bytes = r.aterms[r.at].1.copied();
        assert(bytes.deep_view() =~= bytes@);
        assert(r.aterms@[r.at as int].1.deep_view() =~= bytes@);
        (r, RecordAction::PutAterm(bytes))
    }
}

fn aterm_stored(r: Recording, id: ObjId) -> (s: (Recording, RecordAction))
    requires
        r.at < r.aterms.len(),
    ensures
        (s.0@, s.1@) == aterm_put(r@, id@),
        s.0.at <= s.0.aterms.len(),
{
    let expected = r.aterms[r.at].0;
    assert(r@.aterms[r.at as int] == r.aterms@[r.at as int].deep_view());
    if !id.same(&expected) {
        let mut said = "CAS returned ".to_owned();
        said.append(id.hash.to_hex().as_str());
        said.append(" after storing ATerm ");
        said.append(expected.hash.to_hex().as_str());
        return (r, RecordAction::Refused(said));
    }
    let mut r = r;
    r.at += 1;
    r.stored = wrapping_next(r.stored);
    continue_aterms(r)
}

/// Where a history in memory gives way to a witness of that shape.
fn end_of(h: &History, shape: &digest::Hash) -> (end: usize)
    requires
        h@.len() == WITNESS_HISTORY,
    ensures
        end == history::gives_way(shapes(h@), shape@, 0),
        end < WITNESS_HISTORY,
{
    let ghost all = shapes(h@);
    let mut i: usize = 0;
    assert(h@.len() == h.slots@.len());
    while i < h.slots.len()
        invariant
            i <= h.slots.len(),
            h.slots.len() == WITNESS_HISTORY,
            all == shapes(h@),
            all.len() == WITNESS_HISTORY,
            history::gives_way(all, shape@, 0) == history::gives_way(all, shape@, i as int),
        decreases h.slots.len() - i,
    {
        assert(h@[i as int] == h.slots@[i as int].deep_view());
        let same = match &h.slots[i] {
            Some(x) => x.shape.same(shape),
            None => false,
        };
        if same {
            return i;
        }
        i += 1;
    }
    WITNESS_HISTORY - 1
}

impl ResultCache {
    /// Begins to record a result, with the folded rows of what was read.
    pub fn record(
        &self,
        identity: &EvalId,
        read_set: &ReadSet,
        folded: Folded,
        result: &EvalResult,
    ) -> (s: (Recording, RecordAction))
        requires
            read_set.wf(),
        ensures
            (s.0@, s.1@) == next_aterm(
                RecordingV {
                    identity: identity@,
                    rows: folded.rows.deep_view(),
                    aterms: read_set.aterms.deep_view(),
                    at: 0,
                    stored: 0,
                    reused: read_set.aterms_reused,
                    result: result@,
                    key: None,
                    output: None,
                    shape: None,
                },
            ),
            s.0.at <= s.0.aterms.len(),
            named::in_order(s.0@.aterms),
    {
        let r = Recording {
            identity: *identity,
            rows: Rc::new(folded.rows),
            aterms: read_set.aterms.copied(),
            at: 0,
            stored: 0,
            reused: read_set.aterms_reused,
            result: result.copied(),
            key: None,
            output: None,
            shape: None,
        };
        continue_aterms(r)
    }

    /// Goes on with a recording that was told what it asked for.
    pub fn record_step(&mut self, recording: Recording, event: RecordEvent) -> (s: (
        Recording,
        RecordAction,
    ))
        requires
            old(self).wf(),
            recording.at <= recording.aterms.len(),
        ensures
            final(self).wf(),
            stepped(old(self)@, recording@, event@, final(self)@),
            (s.0@, s.1@) == (
                told(old(self)@, recording@, event@).1,
                told(old(self)@, recording@, event@).2,
            ),
            s.0.at <= s.0.aterms.len(),
    {
        assert(recording@.aterms.len() == recording.aterms@.len());
        match event {
            RecordEvent::Aterm(computed, stored) => if recording.at < recording.aterms.len() {
                aterm_checked(recording, computed, stored)
            } else {
                (recording, RecordAction::Finished)
            },
            RecordEvent::Put(id) => if recording.at < recording.aterms.len() {
                aterm_stored(recording, id)
            } else {
                self.record_output(recording, id)
            },
            RecordEvent::Key(key) => {
                let mut r = recording;
                r.key = Some(key);
                let found = match self.table.get(key.to_hex().as_str()) {
                    Some(output) => Some(*output),
                    None => None,
                };
                match found {
                    Some(output) => {
                        r.output = Some(output);
                        (r, RecordAction::ReadObject(output))
                    },
                    None => {
                        let payload = result::encode_result(&r.result);
                        (r, RecordAction::PutResult(payload))
                    },
                }
            },
            RecordEvent::Object(object) => self.record_object(recording, object),
            RecordEvent::Shape(shape) => self.record_shape(recording, shape),
            RecordEvent::WitnessPut => {
                let Some(key) = recording.key else {
                    return (recording, RecordAction::Finished);
                };
                let Some(output) = recording.output else {
                    return (recording, RecordAction::Finished);
                };
                (recording, RecordAction::PutRow(key, output))
            },
            RecordEvent::RowPut => {
                self.record_finish(&recording);
                (recording, RecordAction::Finished)
            },
        }
    }

    fn record_output(&mut self, recording: Recording, id: ObjId) -> (s: (Recording, RecordAction))
        requires
            old(self).wf(),
        ensures
            final(self).wf(),
            (final(self)@, s.0@, s.1@) == result_put(old(self)@, recording@, id@),
            s.0.at == recording.at,
            s.0.aterms == recording.aterms,
    {
        if let Some(key) = recording.key {
            self.table.insert(key.to_hex(), id);
        }
        let mut r = recording;
        r.output = Some(id);
        let rows = witness::shape_rows(&*r.rows);
        (r, RecordAction::TakeShape(rows))
    }

    fn record_object(&mut self, recording: Recording, object: ObjectRead) -> (s: (
        Recording,
        RecordAction,
    ))
        requires
            old(self).wf(),
        ensures
            final(self).wf(),
            (final(self)@, s.0@, s.1@) == object_told(old(self)@, recording@, object@),
            s.0.at == recording.at,
            s.0.aterms == recording.aterms,
    {
        if let Err(failure) = cache::load_result_object(object) {
            if let Some(key) = recording.key {
                if let Some(output) = recording.output {
                    self.evict_result_object(&recording.identity, 0, &key, &output, failure);
                    let mut r = recording;
                    r.output = None;
                    let payload = result::encode_result(&r.result);
                    return (r, RecordAction::PutResult(payload));
                }
            }
        }
        let rows = witness::shape_rows(&*recording.rows);
        (recording, RecordAction::TakeShape(rows))
    }

    fn record_shape(&mut self, recording: Recording, shape: digest::Hash) -> (s: (
        Recording,
        RecordAction,
    ))
        requires
            old(self).wf(),
        ensures
            final(self).wf(),
            stepped(old(self)@, recording@, RecordEventV::Shape(shape@), final(self)@),
            (s.0@, s.1@) == (
                shape_told(old(self)@, recording@, shape@).1,
                shape_told(old(self)@, recording@, shape@).2,
            ),
            s.0.at == recording.at,
            s.0.aterms == recording.aterms,
    {
        let mut r = recording;
        r.shape = Some(shape);
        if self.store.is_some() {
            let rows = retained::share(&r.rows);
            (r, RecordAction::PutWitness(rows, shape))
        } else {
            self.record_finish(&r);
            (r, RecordAction::Finished)
        }
    }

    /// Keeps the witness of a recording in memory, and between caches.
    fn record_finish(&mut self, recording: &Recording)
        requires
            old(self).wf(),
        ensures
            final(self).wf(),
            if recording@.shape is Some {
                cache::retaining(
                    finishing(old(self)@, recording@).0,
                    final(self)@,
                    recording@.identity,
                    0,
                )
            } else {
                final(self)@ == old(self)@
            },
    {
        if let Some(shape) = recording.shape {
            let held = Held { rows: retained::share(&recording.rows), shape };
            self.keep(&recording.identity, held);
            self.remember_retained(&recording.identity, 0);
        }
    }

    fn keep(&mut self, identity: &EvalId, held: Held)
        requires
            old(self).wf(),
        ensures
            final(self).wf(),
            final(self)@ == keeping(old(self)@, identity@, held@),
    {
        let name = identity.as_hash().to_hex();
        if self.store.is_some() {
            let previous = match self.preferred.get(name.as_str()) {
                Some(slot) => Some(*slot),
                None => None,
            };
            self.preferred.insert(name, 0);
            if let Some(slot) = previous {
                self.set_slot(identity, slot, None);
            }
            self.set_slot(identity, 0, Some(held));
            return ;
        }
        let mut h = match self.slots.get(name.as_str()) {
            Some(h) => h.copied(),
            None => History::none(),
        };
        let ghost old_h = h@;
        let ghost before = self.slots@;
        let ghost new = held@;
        proof {
            cache::whole_at(before, name@);
        }
        let end = end_of(&h, &held.shape);
        assert(old_h.len() == h.slots@.len());
        let ghost list = h.slots@;
        let _ = h.slots.remove(end);
        h.slots.insert(0, Some(held));
        proof {
            let want = history::shifted(old_h, end as int, new);
            assert(h@ =~= want) by {
                assert forall|i: int| 0 <= i < want.len() implies h@[i] == want[i] by {
                    assert(h@[i] == h.slots@[i].deep_view());
                    if 0 < i <= end {
                        assert(old_h[i - 1] == list[i - 1].deep_view());
                    } else if i > end {
                        assert(old_h[i] == list[i].deep_view());
                    }
                }
            }
            cache::whole_put(before, digest::hex(identity@), want);
        }
        self.slots.insert(name, h);
    }
}

/// The cache once a recording is finished, with its result under its key.
pub open spec fn recorded(
    c: CacheV,
    id: Seq<u8>,
    h: HeldV,
    key: Seq<u8>,
    output: Seq<u8>,
) -> CacheV {
    keeping(c.filing(key, output), id, h)
}

/// The texts of derivations are checked and stored in the order of their
/// names: whatever a recording is told of one, the one that it goes on to has
/// a greater name, and the texts stay as they are.
pub proof fn texts_are_stored_in_the_order_of_their_names(
    c: CacheV,
    r: RecordingV,
    e: RecordEventV,
)
    requires
        named::in_order(r.aterms),
        r.at < r.aterms.len() <= usize::MAX,
        e is Aterm || e is Put,
    ensures
        told(c, r, e).1.aterms == r.aterms,
        told(c, r, e).2 matches RecordActionV::CheckAterm(id, bytes) ==> named::before(
            r.aterms[r.at as int].0,
            id,
        ) && (id, bytes) == r.aterms[r.at + 1],
        told(c, r, e).2 matches RecordActionV::PutAterm(bytes) ==> bytes
            == r.aterms[r.at as int].1,
        told(c, r, e).2 is TakeKey ==> r.at + 1 == r.aterms.len(),
{
}

/// A finished recording leaves the result under its key and its witness in
/// memory; in a store the witness and the row are put before that, in this order.
pub proof fn a_recording_files_the_result(c: CacheV, r: RecordingV, id: Seq<u8>, shape: Seq<u8>)
    requires
        r.key is Some,
        r.at >= r.aterms.len(),
    ensures
        ({
            let (c1, r1, a1) = told(c, r, RecordEventV::Put(id));
            let (c2, r2, a2) = told(c1, r1, RecordEventV::Shape(shape));
            let (c3, r3, a3) = told(c2, r2, RecordEventV::WitnessPut);
            let (c4, r4, a4) = told(c3, r3, RecordEventV::RowPut);
            let done = recorded(c, r.identity, HeldV { rows: r.rows, shape }, r.key->0, id);
            &&& a1 == RecordActionV::TakeShape(witness::shape_rows_of(r.rows))
            &&& c.store is None ==> a2 is Finished && c2 == done
            &&& c.store is Some ==> {
                &&& a2 == RecordActionV::PutWitness(r.rows, shape)
                &&& a3 == RecordActionV::PutRow(r.key->0, id)
                &&& a4 is Finished
                &&& c4 == done
            }
        }),
{
}

proof fn newest_is_held(c: CacheV, id: Seq<u8>, h: HeldV)
    requires
        cache::whole(c.slots),
    ensures
        keeping(c, id, h).held(id, 0) == Some(h),
        c.store is Some ==> keeping(c, id, h).prefers(id) == Some(0u64),
{
    let name = digest::hex(id);
    cache::whole_at(c.slots, name);
    let old = cache::history_of(c.slots, id);
    assert(old.len() == WITNESS_HISTORY);
    if c.store is Some {
        ordered::put_found(c.preferred, name, 0u64);
        let d = match c.prefers(id) {
            Some(previous) => c.preferring(id, 0).dropping(id, previous as int),
            None => c.preferring(id, 0),
        };
        if c.prefers(id) is Some && 0 <= (c.prefers(id)->0) < WITNESS_HISTORY {
            let cleared = old.update((c.prefers(id)->0) as int, None);
            ordered::put_found(c.slots, name, cleared);
        }
        let now = cache::history_of(d.slots, id);
        assert(now.len() == WITNESS_HISTORY);
        ordered::put_found(d.slots, name, now.update(0, Some(h)));
    } else {
        let end = history::gives_way(shapes(old), h.shape, 0);
        ordered::put_found(c.slots, name, history::shifted(old, end, h));
    }
}

/// The next lookup of an evaluation that was recorded, up to the replay of its
/// rows: where they are no longer in memory, the store still has them.
pub open spec fn resumed(c: CacheV, id: Seq<u8>, h: HeldV) -> cache::Stepped {
    let (c1, l1, a1) = cache::begun(c, id, false);
    if a1 == LookupActionV::ReadWitness(0) {
        cache::told(c1, l1, LookupEventV::Witness(Ok(Some(h))))
    } else {
        (c1, l1, a1)
    }
}

/// What was recorded is found again: the next lookup replays the rows that
/// were recorded, and where they still make their key it reads the result's
/// object, and serves the result that it holds.
pub proof fn a_recorded_result_is_served(
    c: CacheV,
    e: CacheV,
    id: Seq<u8>,
    h: HeldV,
    key: Seq<u8>,
    output: Seq<u8>,
    r: EvalResultV,
)
    requires
        cache::whole(c.slots),
        text::sorted(ordered::keys(c.preferred)),
        c.retained matches Some(kept) ==> kept.bounded(),
        cache::retaining(recorded(c, id, h, key, output), e, id, 0),
    ensures
        ({
            let (c1, l1, a1) = resumed(e, id, h);
            let (c2, l2, a2) = cache::told(c1, l1, LookupEventV::Replayed(Ok(Some(key))));
            let (c3, l3, a3) = cache::told(
                c2,
                l2,
                LookupEventV::Object(ObjectReadV::Found(Some(r))),
            );
            &&& a1 == LookupActionV::Replay(h.rows)
            &&& a2 == LookupActionV::ReadObject(output)
            &&& a3 == LookupActionV::Serve(r)
            &&& c3.served == Some(key)
        }),
{
    let d = c.filing(key, output);
    let want = recorded(c, id, h, key, output);
    newest_is_held(d, id, h);
    ordered::put_found(c.table, digest::hex(key), output);
    assert(e.output(key) == Some(output));
    assert(want.held(id, 0) == Some(h));
    let start = CacheV { replayed: false, served: None, ..e };
    assert(start.held(id, 0) == Some(h));
    assert(start.prefers(id) == want.prefers(id));
    if let (Some(kept), Some(dir)) = (e.retained, e.store) {
        let entry = EntryV { rows: h.rows, shape: h.shape, slot: 0 };
        assert(want.to_retain(id, 0) == Some((dir, entry)));
        retained::what_was_kept_is_read_back(want.retained->0, kept, dir, id, entry);
        let name = digest::hex(id);
        let cleared = CacheV { retained: Some(kept.reading(dir, id)), ..start }.clearing(id);
        ordered::put_found(start.slots, name, cache::no_slots());
        if kept.kept(dir, id) is Some {
            let p = cleared.preferring(id, 0);
            ordered::put_found(cleared.preferred, name, 0u64);
            ordered::put_found(
                p.slots,
                name,
                cache::history_of(p.slots, id).update(0, Some(h)),
            );
            assert(cache::refreshed(start, id) == p.holding(id, 0, h));
        } else {
            ordered::put_sorted(c.preferred, name, 0u64);
            ordered::dropped_found(start.preferred, name, name);
            assert(cache::refreshed(start, id) == cleared);
            assert(cleared.prefers(id) is None);
        }
    }
}

/// Recording a witness again under its shape keeps the others and their order.
pub proof fn recording_again_keeps_the_history(c: CacheV, id: Seq<u8>, h: HeldV)
    requires
        cache::whole(c.slots),
        c.store is None,
        history::distinct(shapes(cache::history_of(c.slots, id))),
    ensures
        history::distinct(shapes(cache::history_of(keeping(c, id, h).slots, id))),
        cache::history_of(keeping(c, id, h).slots, id) == history::shifted(
            cache::history_of(c.slots, id),
            history::gives_way(shapes(cache::history_of(c.slots, id)), h.shape, 0),
            h,
        ),
{
    let name = digest::hex(id);
    cache::whole_at(c.slots, name);
    let old = cache::history_of(c.slots, id);
    let s = shapes(old);
    let end = history::gives_way(s, h.shape, 0);
    let new = history::shifted(old, end, h);
    ordered::put_found(c.slots, name, new);
    history::a_shape_is_kept_once(s, h.shape);
    history::gives_way_within(s, h.shape, 0);
    assert(shapes(new) =~= history::shifted(s, end, h.shape));
}

/// A text is stored only where it hashes to its name, and only where the object
/// store does not have it already; one that does not hash to its name, or that
/// was stored under another, ends the recording.
pub proof fn a_text_is_stored_under_its_hash(
    c: CacheV,
    r: RecordingV,
    computed: Seq<u8>,
    stored: Option<Seq<u8>>,
    id: Seq<u8>,
)
    requires
        r.at < r.aterms.len() <= usize::MAX,
    ensures
        ({
            let (name, bytes) = r.aterms[r.at as int];
            let (d, s, a) = told(c, r, RecordEventV::Aterm(computed, stored));
            &&& d == c
            &&& computed != name ==> a is Refused
            &&& a is PutAterm ==> computed == name && stored != Some(bytes) && a
                == RecordActionV::PutAterm(bytes)
            &&& computed == name && stored == Some(bytes) ==> s.at == r.at + 1 && s.reused
                == after(r.reused) && s.stored == r.stored
        }),
        ({
            let (name, bytes) = r.aterms[r.at as int];
            let (d, s, a) = told(c, r, RecordEventV::Put(id));
            &&& d == c
            &&& id != name ==> a is Refused
            &&& id == name ==> s.at == r.at + 1 && s.stored == after(r.stored) && s.reused
                == r.reused
        }),
{
}

/// Once all texts are stored, the key is taken of exactly the rows and the
/// identity that are recorded.
pub proof fn the_key_is_of_what_was_recorded(r: RecordingV)
    requires
        r.at >= r.aterms.len(),
    ensures
        next_aterm(r).1 == RecordActionV::TakeKey(readset::key(r.rows, r.identity)),
{
}

/// A result that the table has under the key stays where its object can be
/// used; where it cannot, or the table has none, the result is stored as it is
/// written down.
pub proof fn when_a_result_is_stored(
    c: CacheV,
    r: RecordingV,
    key: Seq<u8>,
    output: Seq<u8>,
    o: ObjectReadV,
)
    ensures
        c.output(key) is None ==> told(c, r, RecordEventV::Key(key)).2
            == RecordActionV::PutResult(result::result_written(r.result)),
        c.output(key) == Some(output) ==> told(c, r, RecordEventV::Key(key)).2
            == RecordActionV::ReadObject(output),
        r.key is Some && r.output is Some && !(o matches ObjectReadV::Found(Some(_))) ==> told(
            c,
            r,
            RecordEventV::Object(o),
        ).2 == RecordActionV::PutResult(result::result_written(r.result)),
        o matches ObjectReadV::Found(Some(_)) ==> told(c, r, RecordEventV::Object(o)).2
            == RecordActionV::TakeShape(witness::shape_rows_of(r.rows)) && told(
            c,
            r,
            RecordEventV::Object(o),
        ).0 == c && told(c, r, RecordEventV::Object(o)).1.output == r.output,
{
}

/// Without a store a recording keeps the witnesses of the evaluation that are
/// of other shapes, as many as there is room for, each behind where it stood or
/// in its place; the newest is the one that was recorded.
pub proof fn recording_keeps_other_witnesses(c: CacheV, id: Seq<u8>, h: HeldV, i: int)
    requires
        cache::whole(c.slots),
        c.store is None,
        0 <= i < WITNESS_HISTORY - 1,
        cache::history_of(c.slots, id)[i] matches Some(x) ==> x.shape != h.shape,
    ensures
        ({
            let now = cache::history_of(keeping(c, id, h).slots, id);
            let was = cache::history_of(c.slots, id)[i];
            now[0] == Some(h) && (now[i] == was || now[i + 1] == was)
        }),
{
    let name = digest::hex(id);
    cache::whole_at(c.slots, name);
    let old = cache::history_of(c.slots, id);
    let s = shapes(old);
    let end = history::gives_way(s, h.shape, 0);
    history::gives_way_within(s, h.shape, 0);
    ordered::put_found(c.slots, name, history::shifted(old, end, h));
    assert(i != end) by {
        if i == end {
            assert(s[i] == Some(h.shape));
        }
    }
    history::adding_keeps_the_others(old, end, h, i);
}

/// What is recorded of one evaluation leaves the witnesses of the others.
pub proof fn recording_leaves_other_evaluations(
    c: CacheV,
    id: Seq<u8>,
    h: HeldV,
    other: Seq<u8>,
    slot: int,
)
    requires
        other != id,
    ensures
        keeping(c, id, h).held(other, slot) == c.held(other, slot),
        keeping(c, id, h).prefers(other) == c.prefers(other),
        keeping(c, id, h).table == c.table,
{
    let name = digest::hex(id);
    let far = digest::hex(other);
    if name == far {
        digest::hex_injective(id, other);
    }
    if c.store is Some {
        ordered::put_keeps(c.preferred, name, 0u64, far);
        let preferred = c.preferring(id, 0);
        let single = match c.prefers(id) {
            Some(previous) => preferred.dropping(id, previous as int),
            None => preferred,
        };
        if c.prefers(id) is Some && 0 <= c.prefers(id)->0 < WITNESS_HISTORY {
            ordered::put_keeps(
                c.slots,
                name,
                cache::history_of(c.slots, id).update(c.prefers(id)->0 as int, None),
                far,
            );
        }
        ordered::put_keeps(
            single.slots,
            name,
            cache::history_of(single.slots, id).update(0, Some(h)),
            far,
        );
    } else {
        let old = cache::history_of(c.slots, id);
        ordered::put_keeps(
            c.slots,
            name,
            history::shifted(old, history::gives_way(shapes(old), h.shape, 0), h),
            far,
        );
    }
}

/// A witness comes into memory, and is kept between caches, when its recording
/// is finished: without a store with its shape, in one once the row is put.
pub proof fn when_a_witness_is_kept(c: CacheV, r: RecordingV, shape: Seq<u8>)
    ensures
        keeps(c, r, RecordEventV::Shape(shape)) <==> c.store is None,
        r.shape is Some ==> keeps(c, r, RecordEventV::RowPut),
        !keeps(c, r, RecordEventV::WitnessPut),
        r.shape is Some ==> told(c, r, RecordEventV::RowPut).0 == keeping(
            c,
            r.identity,
            HeldV { rows: r.rows, shape: r.shape->0 },
        ) && told(c, r, RecordEventV::RowPut).2 is Finished,
        c.store is Some ==> told(c, r, RecordEventV::Shape(shape)).0 == c && told(
            c,
            r,
            RecordEventV::Shape(shape),
        ).2 == RecordActionV::PutWitness(r.rows, shape),
{
}

} // verus!
