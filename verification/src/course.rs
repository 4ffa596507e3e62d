//! Whole lookups: what holds from the first question to the answer.
use vstd::prelude::*;
use crate::cache;
use crate::cache::{
    CacheV, LookupActionV, LookupEventV, LookupV, ResultObjectFailureV, RowReadV, Source, Stepped,
};
use crate::complaint;
use crate::digest;
use crate::filing;
use crate::filing::Files;
use crate::ordered;
use crate::recording;
use crate::recording::{RecordEventV, RecordingV};
use crate::result::EvalResultV;
use crate::text;
use crate::validity::RowsV;
use crate::witness::WITNESS_HISTORY;

verus! {

/// A lookup after the first `n` of what it is told.
pub open spec fn after(
    c: CacheV,
    id: Seq<u8>,
    repair: bool,
    events: Seq<LookupEventV>,
    n: int,
) -> Stepped
    decreases n,
{
    if n <= 0 {
        cache::begun(c, id, repair)
    } else {
        let (d, l, a) = after(c, id, repair, events, n - 1);
        cache::told(d, l, events[n - 1])
    }
}

/// What is so outside of the cache.
pub struct Outside {
    /// The rows make the key when they are replayed now.
    pub makes: spec_fn(RowsV, Seq<u8>) -> bool,
    /// A recording filed the object under the key.
    pub filed: spec_fn(Seq<u8>, Seq<u8>) -> bool,
    /// The object holds the result.
    pub holds: spec_fn(Seq<u8>, EvalResultV) -> bool,
}

/// The event is what the action asked for, and is so.
pub open spec fn true_answer(w: Outside, a: LookupActionV, e: LookupEventV) -> bool {
    match (a, e) {
        (LookupActionV::Replay(rows), LookupEventV::Replayed(r)) => r matches Ok(Some(key))
            ==> (w.makes)(rows, key),
        (LookupActionV::ReadRow(key), LookupEventV::Row(r)) => r matches RowReadV::Found(output)
            ==> (w.filed)(key, output),
        (LookupActionV::ReadObject(output), LookupEventV::Object(o)) => cache::loaded(
            o,
        ) matches Ok(r) ==> (w.holds)(output, r),
        _ => cache::answers_action(a, e),
    }
}

/// The first `n` of what a lookup is told are true answers.
pub open spec fn truly_told(
    w: Outside,
    c: CacheV,
    id: Seq<u8>,
    repair: bool,
    events: Seq<LookupEventV>,
    n: int,
) -> bool {
    forall|i: int|
        0 <= i < n ==> true_answer(w, after(c, id, repair, events, i).2, #[trigger] events[i])
}

/// The table has only what was filed.
pub open spec fn only_filed(w: Outside, c: CacheV) -> bool {
    forall|key: Seq<u8>| #[trigger]
        c.output(key) matches Some(output) ==> (w.filed)(key, output)
}

/// Rows that this lookup replayed made the key.
pub open spec fn made(
    w: Outside,
    c: CacheV,
    id: Seq<u8>,
    repair: bool,
    events: Seq<LookupEventV>,
    n: int,
    key: Seq<u8>,
) -> bool {
    exists|i: int|
        0 <= i < n && #[trigger] events[i] == LookupEventV::Replayed(Ok(Some(key))) && (after(
            c,
            id,
            repair,
            events,
            i,
        ).2 matches LookupActionV::Replay(rows) && (w.makes)(rows, key))
}

/// The lookup served `r`: the key was made by rows that it replayed, the
/// object was filed under the key and holds `r`; the key is the one that was
/// served, and one hit more is counted.
pub open spec fn served_so(
    w: Outside,
    c: CacheV,
    id: Seq<u8>,
    repair: bool,
    events: Seq<LookupEventV>,
    n: int,
    r: EvalResultV,
) -> bool {
    let d = after(c, id, repair, events, n).0;
    &&& d.hits == c.hits + 1
    &&& d.served matches Some(key) && made(w, c, id, repair, events, n, key) && exists|
        output: Seq<u8>,
    | #[trigger]
        (w.filed)(key, output) && (w.holds)(output, r)
}

/// What holds of a lookup wherever it stands.
spec fn sound(
    w: Outside,
    c: CacheV,
    id: Seq<u8>,
    repair: bool,
    events: Seq<LookupEventV>,
    n: int,
) -> bool {
    let (d, l, a) = after(c, id, repair, events, n);
    &&& text::sorted(ordered::keys(d.table))
    &&& only_filed(w, d)
    &&& match a {
        LookupActionV::Serve(r) => served_so(w, c, id, repair, events, n, r),
        _ => d.hits == c.hits && d.served is None,
    }
    &&& match a {
        LookupActionV::ReadRow(key) => l.key == Some(key) && made(
            w,
            c,
            id,
            repair,
            events,
            n,
            key,
        ),
        LookupActionV::ReadObject(output) => l.output == Some(output) && (l.key matches Some(key)
            && made(w, c, id, repair, events, n, key) && (w.filed)(key, output)),
        _ => true,
    }
}

/// Going on to another candidate leaves the results and the counts.
spec fn goes_on(c: CacheV, s: Stepped) -> bool {
    &&& s.0.table == c.table
    &&& s.0.hits == c.hits
    &&& s.0.served == c.served
    &&& s.2 is ReadWitness || s.2 is CompareShape || s.2 is Replay || s.2 is Miss
}

proof fn memory_goes_on(c: CacheV, l: LookupV, slot: int)
    ensures
        goes_on(c, cache::memory_from(c, l, slot)),
    decreases WITNESS_HISTORY - slot,
{
    if slot < WITNESS_HISTORY && c.held(l.identity, slot) is None {
        memory_goes_on(c, l, slot + 1);
    }
}

proof fn candidates_go_on(c: CacheV, l: LookupV)
    ensures
        goes_on(c, cache::next_candidate(c, l)),
{
    memory_goes_on(c, l, l.slot + 1);
}

proof fn same_table_filed(w: Outside, c: CacheV, d: CacheV)
    requires
        d.table == c.table,
        only_filed(w, c),
    ensures
        only_filed(w, d),
{
    assert forall|k: Seq<u8>| #[trigger] d.output(k) is Some implies (w.filed)(
        k,
        d.output(k)->0,
    ) by {
        assert(c.output(k) == d.output(k));
    }
}

proof fn filing_stays_filed(w: Outside, c: CacheV, key: Seq<u8>, output: Seq<u8>)
    requires
        text::sorted(ordered::keys(c.table)),
        only_filed(w, c),
        (w.filed)(key, output),
    ensures
        text::sorted(ordered::keys(c.filing(key, output).table)),
        only_filed(w, c.filing(key, output)),
{
    let d = c.filing(key, output);
    ordered::put_sorted(c.table, digest::hex(key), output);
    assert forall|k: Seq<u8>| #[trigger] d.output(k) is Some implies (w.filed)(
        k,
        d.output(k)->0,
    ) by {
        if digest::hex(k) == digest::hex(key) {
            digest::hex_injective(k, key);
            ordered::put_found(c.table, digest::hex(key), output);
        } else {
            ordered::put_keeps(c.table, digest::hex(key), output, digest::hex(k));
            assert(c.output(k) == d.output(k));
        }
    }
}

proof fn evicting_stays_filed(
    w: Outside,
    c: CacheV,
    id: Seq<u8>,
    slot: int,
    key: Seq<u8>,
    output: Seq<u8>,
    failure: ResultObjectFailureV,
)
    requires
        text::sorted(ordered::keys(c.table)),
        only_filed(w, c),
    ensures
        text::sorted(ordered::keys(c.evicting(id, slot, key, output, failure).table)),
        only_filed(w, c.evicting(id, slot, key, output, failure)),
{
    let d = c.evicting(id, slot, key, output, failure);
    ordered::dropped_found(c.table, digest::hex(key), digest::hex(key));
    assert forall|k: Seq<u8>| #[trigger] d.output(k) is Some implies (w.filed)(
        k,
        d.output(k)->0,
    ) by {
        ordered::dropped_found(c.table, digest::hex(key), digest::hex(k));
        assert(c.output(k) == Some(d.output(k)->0));
    }
}

proof fn stays_sound(
    w: Outside,
    c: CacheV,
    id: Seq<u8>,
    repair: bool,
    events: Seq<LookupEventV>,
    n: int,
)
    requires
        0 < n,
        c.hits < u64::MAX,
        sound(w, c, id, repair, events, n - 1),
        true_answer(w, after(c, id, repair, events, n - 1).2, events[n - 1]),
    ensures
        sound(w, c, id, repair, events, n),
{
    let (d, l, a) = after(c, id, repair, events, n - 1);
    let e = events[n - 1];
    let (d2, l2, a2) = after(c, id, repair, events, n);
    assert((d2, l2, a2) == cache::told(d, l, e));
    assert(cache::answers_action(a, e));
    assert forall|key: Seq<u8>| made(w, c, id, repair, events, n - 1, key) implies #[trigger] made(
        w,
        c,
        id,
        repair,
        events,
        n,
        key,
    ) by {
        let i = choose|i: int|
            0 <= i < n - 1 && #[trigger] events[i] == LookupEventV::Replayed(Ok(Some(key))) && (
            after(c, id, repair, events, i).2 matches LookupActionV::Replay(rows) && (w.makes)(
                rows,
                key,
            ));
        assert(events[i] == LookupEventV::Replayed(Ok(Some(key))));
    }
    candidates_go_on(d, l);
    match e {
        LookupEventV::Witness(r) => {
            if let Err(reason) = r {
                let said = d.warning(reason + "; treating it as a cache miss"@);
                candidates_go_on(said, l);
                assert(said.table == d.table);
            }
            assert(d2.table == d.table);
        },
        LookupEventV::SameShape(b) => {
            assert(d2.table == d.table);
        },
        LookupEventV::Replayed(r) => {
            match r {
                Ok(None) => {},
                Err(f) => {
                    let said = d.warning(
                        complaint::replay_failure(f) + "; treating the witness as a cache miss"@,
                    ).dropping(l.identity, l.slot as int);
                    candidates_go_on(said, l);
                    assert(said.table == d.table);
                },
                Ok(Some(key)) => {
                    candidates_go_on(d, LookupV { key: Some(key), ..l });
                    assert(events[n - 1] == LookupEventV::Replayed(Ok(Some(key))));
                    assert(made(w, c, id, repair, events, n, key));
                    if let Some(output) = d.output(key) {
                        assert((w.filed)(key, output));
                    }
                },
            }
            assert(d2.table == d.table);
        },
        LookupEventV::Row(r) => {
            match r {
                RowReadV::Found(output) => {
                    filing_stays_filed(w, d, l.key->0, output);
                },
                RowReadV::Refused(reason) => {
                    candidates_go_on(d.warning(reason), l);
                    assert(d2.table == d.table);
                },
                _ => {
                    assert(d2.table == d.table);
                },
            }
        },
        LookupEventV::Object(o) => {
            let key = l.key->0;
            let output = l.output->0;
            match cache::loaded(o) {
                Ok(r) => {
                    assert((w.filed)(key, output) && (w.holds)(output, r));
                    assert(d2.table == d.table);
                    assert(made(w, c, id, repair, events, n, key));
                    assert(d2.served == Some(key));
                },
                Err(failure) => {
                    evicting_stays_filed(w, d, l.identity, l.slot as int, key, output, failure);
                    let evicted = d.evicting(l.identity, l.slot as int, key, output, failure);
                    candidates_go_on(evicted, l);
                    same_table_filed(w, evicted, d2);
                },
            }
        },
    }
    if d2.table == d.table {
        same_table_filed(w, d, d2);
    }
}

proof fn always_sound(
    w: Outside,
    c: CacheV,
    id: Seq<u8>,
    repair: bool,
    events: Seq<LookupEventV>,
    n: int,
)
    requires
        0 <= n,
        c.hits < u64::MAX,
        text::sorted(ordered::keys(c.table)),
        only_filed(w, c),
        truly_told(w, c, id, repair, events, n),
    ensures
        sound(w, c, id, repair, events, n),
    decreases n,
{
    if n == 0 {
        let start = CacheV { replayed: false, served: None, ..c };
        let fresh = cache::refreshed(start, id);
        let l = LookupV {
            identity: id,
            from: Source::Memory,
            slot: 0,
            tried: None,
            disk: None,
            key: None,
            output: None,
        };
        memory_goes_on(fresh, l, 0);
        let d = cache::begun(c, id, repair).0;
        assert(d.table == c.table);
        same_table_filed(w, c, d);
    } else {
        assert(true_answer(w, after(c, id, repair, events, n - 1).2, events[n - 1]));
        assert(truly_told(w, c, id, repair, events, n - 1));
        always_sound(w, c, id, repair, events, n - 1);
        stays_sound(w, c, id, repair, events, n);
    }
}

/// A result that a lookup serves was filed under the key that rows replayed
/// in this very lookup make: that key was served, and one hit more is
/// counted. A lookup that served nothing counts no hit, and served no key.
pub proof fn a_served_result_was_filed_under_its_key(
    w: Outside,
    c: CacheV,
    id: Seq<u8>,
    repair: bool,
    events: Seq<LookupEventV>,
    n: int,
)
    requires
        0 <= n,
        c.hits < u64::MAX,
        text::sorted(ordered::keys(c.table)),
        only_filed(w, c),
        truly_told(w, c, id, repair, events, n),
    ensures
        match after(c, id, repair, events, n).2 {
            LookupActionV::Serve(r) => served_so(w, c, id, repair, events, n, r),
            _ => after(c, id, repair, events, n).0.hits == c.hits && after(
                c,
                id,
                repair,
                events,
                n,
            ).0.served is None,
        },
        only_filed(w, after(c, id, repair, events, n).0),
{
    always_sound(w, c, id, repair, events, n);
}

/// A recording files nothing but its own result, under its own key.
pub proof fn a_recording_files_only_its_result(w: Outside, c: CacheV, r: RecordingV, e: RecordEventV)
    requires
        text::sorted(ordered::keys(c.table)),
        only_filed(w, c),
        (r.key, e) matches (Some(key), RecordEventV::Put(output)) ==> (w.filed)(key, output),
    ensures
        only_filed(w, recording::told(c, r, e).0),
{
    let d = recording::told(c, r, e).0;
    match e {
        RecordEventV::Put(output) => {
            if r.at >= r.aterms.len() && r.key is Some {
                filing_stays_filed(w, c, r.key->0, output);
            }
        },
        RecordEventV::Object(o) => {
            if cache::loaded(o) is Err && r.key is Some && r.output is Some {
                evicting_stays_filed(
                    w,
                    c,
                    r.identity,
                    0,
                    r.key->0,
                    r.output->0,
                    cache::loaded(o)->Err_0,
                );
            }
        },
        _ => {},
    }
    if d.table == c.table {
        same_table_filed(w, c, d);
    }
}

/// Nothing of an evaluation is in memory or kept between caches, and there is
/// a store.
pub open spec fn blank(c: CacheV, id: Seq<u8>) -> bool {
    &&& c.store matches Some(dir) && (c.retained matches Some(r) ==> r.kept(dir, id) is None)
    &&& c.prefers(id) is None
    &&& text::sorted(ordered::keys(c.preferred))
}

/// What a lookup of an evaluation of which nothing is in memory has come to,
/// where the store has no witness: the next slot, or no answer. There is still
/// nothing in memory, so that the next lookup goes the same way.
pub open spec fn finds_nothing(id: Seq<u8>, s: Stepped, n: int) -> bool {
    &&& blank(s.0, id)
    &&& s.0.served is None
    &&& if n < WITNESS_HISTORY {
        s.2 == LookupActionV::ReadWitness(n as u64) && s.1.from == Source::Disk && s.1.slot == n
            && s.1.tried is None
    } else {
        s.2 is Miss
    }
}

/// Where nothing of an evaluation is in memory, and no slot of the store has
/// a witness, a lookup reads the slots one by one and finds nothing.
pub proof fn an_empty_store_has_no_answer(
    c: CacheV,
    id: Seq<u8>,
    events: Seq<LookupEventV>,
    n: int,
)
    requires
        blank(c, id),
        0 <= n <= WITNESS_HISTORY,
        forall|i: int| 0 <= i < n ==> #[trigger] events[i] == LookupEventV::Witness(Ok(None)),
    ensures
        finds_nothing(id, after(c, id, false, events, n), n),
        after(c, id, false, events, n).0.hits == c.hits,
        after(c, id, false, events, n).0.store == c.store,
    decreases n,
{
    if n == 0 {
        let start = CacheV { replayed: false, served: None, ..c };
        let fresh = cache::refreshed(start, id);
        ordered::dropped_found(c.preferred, digest::hex(id), digest::hex(id));
        assert(fresh.prefers(id) is None);
    } else {
        an_empty_store_has_no_answer(c, id, events, n - 1);
        assert(events[n - 1] == LookupEventV::Witness(Ok(None)));
    }
}

/// What a lookup is told of a slot, given the files of the store: where the
/// witness is not there, that there is none.
pub open spec fn told_of(files: Files, name: Seq<char>, e: LookupEventV) -> bool {
    !files.contains_key(name) ==> e == LookupEventV::Witness(Ok(None))
}

/// An answer that was forgotten where there is a store is found nowhere: once
/// the steps of forgetting are done, no slot has a witness or a file beside
/// one, and until something is recorded every lookup finds nothing, in this
/// cache and in one that is opened anew on the store. Nothing is left as
/// served, and one warning was added, which says why.
pub proof fn a_forgotten_answer_is_found_nowhere(
    c: CacheV,
    id: Seq<u8>,
    key: Seq<u8>,
    why: Seq<char>,
    files: Files,
    root: Seq<char>,
    slots: Seq<Seq<u8>>,
    events: Seq<LookupEventV>,
    n: int,
)
    requires
        c.store is Some,
        text::sorted(ordered::keys(c.table)),
        text::sorted(ordered::keys(c.preferred)),
        c.retained matches Some(r) ==> r.bounded(),
        slots.len() == WITNESS_HISTORY,
        0 <= n <= WITNESS_HISTORY,
        forall|i: int|
            0 <= i < n ==> told_of(
                forgotten(files, root, slots),
                filing::names(root, slots[i]).witness,
                #[trigger] events[i],
            ),
    ensures
        ({
            let f = cache::forgetting(c, id, key, why);
            let left = forgotten(files, root, slots);
            &&& forall|i: int|
                0 <= i < WITNESS_HISTORY ==> !left.contains_key(
                    filing::names(root, #[trigger] slots[i]).witness,
                ) && !left.contains_key(filing::names(root, slots[i]).sidecar)
            &&& f.output(key) is None
            &&& f.served is None
            &&& f.corruption == c.corruption.push(
                complaint::warned(
                    "a memoised answer was rejected by its consumer ("@ + why
                        + "); forgetting it and re-evaluating"@,
                ),
            )
            &&& finds_nothing(id, after(f, id, false, events, n), n)
            &&& finds_nothing(id, after(cache::empty_cache(c.store), id, false, events, n), n)
        }),
{
    let f = cache::forgetting(c, id, key, why);
    let left = forgotten(files, root, slots);
    cache::a_forgotten_answer_is_gone(c, id, key, why);
    ordered::dropped_found(c.preferred, digest::hex(id), digest::hex(id));
    assert forall|i: int| 0 <= i < WITNESS_HISTORY implies !left.contains_key(
        filing::names(root, #[trigger] slots[i]).witness,
    ) && !left.contains_key(filing::names(root, slots[i]).sidecar) by {
        filing::forgotten_witnesses_are_gone(files, root, slots, i);
    }
    assert forall|i: int| 0 <= i < n implies #[trigger] events[i] == LookupEventV::Witness(
        Ok(None),
    ) by {
        assert(told_of(left, filing::names(root, slots[i]).witness, events[i]));
        assert(!left.contains_key(filing::names(root, slots[i]).witness));
    }
    an_empty_store_has_no_answer(f, id, events, n);
    an_empty_store_has_no_answer(cache::empty_cache(c.store), id, events, n);
}

/// The files after all the steps that forget an evaluation's witnesses.
pub open spec fn forgotten(files: Files, root: Seq<char>, slots: Seq<Seq<u8>>) -> Files {
    let ops = filing::removing(root, slots, slots.len() as int);
    filing::after(files, ops, ops.len() as int)
}

} // verus!
