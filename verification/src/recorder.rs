//! A host that records what it is asked.
use vstd::prelude::*;
use std::rc::Rc;
use crate::aterm;
use crate::copies::{CopyLookup, CopyLookupV, CopyMemo};
use crate::copies;
use crate::digest;
use crate::digest::{Digest, DigestV, HashFn, ObjId, Preimage, PreimageV, WriteDrvAnswer, WriteDrvAnswerV};
use crate::host::{
    Ask,
    FileType,
    FlakeCall,
    Host,
    ImportedSource,
    Links,
    LookupError,
    Reply,
    Slow,
    SlowAnswer,
    SlowAnswerV,
    SlowV,
    StoreError,
    StoreErrorV,
    StorePathResult,
    Ticket,
};
use crate::model;
use crate::model::Plain;
use crate::named;
use crate::ordered;
use crate::ordered::{TextMap, TextSet};
use crate::question;
use crate::question::{Question, QuestionV, Recorded, RecordedV, WitnessRow};
use crate::readset;
use crate::readset::ReadSet;
use crate::records;
use crate::records::{DirSealed, DirSealedV};
use crate::replay;
use crate::replay::SceneV;
use crate::task::{FetchRequest, FetchTreeRequest, FilteredCopy, SearchPathEntry, TreeAttr};
use crate::text;
use crate::validity;
use crate::validity::{
    FetchedV,
    NothingToBuild,
    NothingToBuildV,
    RowsV,
    StandsOn,
    StandsOnV,
    ValidityV,
};
use crate::value::{ContextElem, ContextElemV, PathValue};

verus! {

/// What an evaluation says to its host.
#[derive(Debug, PartialEq, Eq)]
pub enum Emission {
    Warn(String),
    Trace(String),
}

/// The model of [`Emission`].
#[verifier::ext_equal]
pub enum EmissionV {
    Warn(Seq<char>),
    Trace(Seq<char>),
}

impl View for Emission {
    type V = EmissionV;

    open spec fn view(&self) -> EmissionV {
        match self {
            Emission::Warn(a) => EmissionV::Warn(a@),
            Emission::Trace(a) => EmissionV::Trace(a@),
        }
    }
}

impl DeepView for Emission {
    type V = EmissionV;

    open spec fn deep_view(&self) -> EmissionV {
        self@
    }
}

impl Clone for Emission {
    fn clone(&self) -> (r: Self)
        ensures
            r@ == self@,
    {
        self.copied()
    }
}

impl Plain for Emission {
    fn copied(&self) -> (r: Self) {
        match self {
            Emission::Warn(a) => Emission::Warn(a.copied()),
            Emission::Trace(a) => Emission::Trace(a.copied()),
        }
    }

    fn same(&self, other: &Self) -> (r: bool) {
        match (self, other) {
            (Emission::Warn(a), Emission::Warn(b)) => a.same(b),
            (Emission::Trace(a), Emission::Trace(b)) => a.same(b),
            _ => false,
        }
    }
}

impl EmissionV {
    /// The kind and the message.
    pub open spec fn spec_parts(self) -> (Seq<char>, Seq<char>) {
        match self {
            EmissionV::Warn(m) => ("warn"@, m),
            EmissionV::Trace(m) => ("trace"@, m),
        }
    }

    /// The emission of a kind and a message.
    pub open spec fn read(kind: Seq<char>, message: Seq<char>) -> Option<EmissionV> {
        if kind == "warn"@ {
            Some(EmissionV::Warn(message))
        } else if kind == "trace"@ {
            Some(EmissionV::Trace(message))
        } else {
            None
        }
    }
}

/// An emission is read back from its parts.
pub proof fn emission_reads_back(e: EmissionV)
    ensures
        EmissionV::read(e.spec_parts().0, e.spec_parts().1) == Some(e),
{
    reveal_strlit("warn");
    reveal_strlit("trace");
    assert("warn"@.len() != "trace"@.len());
}

impl Emission {
    /// Says it again.
    pub fn replay<H: Host>(&self, host: &H)
        ensures
            match self@ {
                EmissionV::Warn(m) => host.answers(Ask::Warn(m), Reply::Said),
                EmissionV::Trace(m) => host.answers(Ask::Trace(m), Reply::Said),
            },
    {
        match self {
            Emission::Warn(message) => {
                host.warn(message.as_str());
                assert(host.answers(Ask::Warn(message@), Reply::Said));
            },
            Emission::Trace(message) => {
                host.trace(message.as_str());
                assert(host.answers(Ask::Trace(message@), Reply::Said));
            },
        }
    }

    /// The kind and the message.
    pub fn parts(&self) -> (r: (&'static str, &String))
        ensures
            (r.0@, r.1@) == self@.spec_parts(),
    {
        match self {
            Emission::Warn(message) => ("warn", message),
            Emission::Trace(message) => ("trace", message),
        }
    }

    /// The emission of a kind and a message.
    pub fn from_parts(kind: &str, message: String) -> (r: Option<Emission>)
        ensures
            r.deep_view() == EmissionV::read(kind@, message@),
    {
        if text::same(kind, "warn") {
            Some(Emission::Warn(message))
        } else if text::same(kind, "trace") {
            Some(Emission::Trace(message))
        } else {
            None
        }
    }
}

/// How realisations are answered by what the store holds.
#[derive(Debug, PartialEq, Eq)]
pub struct RealiseByValidity {
    pub ca_derivations: bool,
    pub allow_import_from_derivation: bool,
    /// The placeholders of derivation outputs, by the element's text.
    pub placeholders: TextMap<String>,
}

/// A host that records every question and what is to be kept of its answer.
pub struct RecordingHost<H> {
    pub inner: H,
    pub forward_emissions: bool,
    pub log: Vec<WitnessRow>,
    /// The fingerprint of each logged row.
    pub seen: Vec<Preimage>,
    pub rows_deduped: u64,
    pub aterms: Vec<(ObjId, Vec<u8>)>,
    pub aterms_reused: u64,
    pub emissions: Vec<Emission>,
    pub begun: Vec<(u64, Question)>,
    pub copy_memo: Option<CopyMemo>,
    /// The text's name that each derivation's path was written from; `None`
    /// where two texts were written to one path.
    pub written: TextMap<Option<ObjId>>,
    pub realise_by_validity: Option<RealiseByValidity>,
}

/// What a [`RecordingHost`] has recorded.
#[verifier::ext_equal]
pub struct RecordingV {
    pub log: RowsV,
    pub deduped: u64,
    pub aterms: Seq<(Seq<u8>, Seq<u8>)>,
    pub reused: u64,
    pub emissions: Seq<EmissionV>,
    pub begun: Seq<(u64, QuestionV)>,
    pub written: Seq<(Seq<char>, Option<Seq<u8>>)>,
}

impl<H> View for RecordingHost<H> {
    type V = RecordingV;

    open spec fn view(&self) -> RecordingV {
        RecordingV {
            log: self.log.deep_view(),
            deduped: self.rows_deduped,
            aterms: self.aterms.deep_view(),
            reused: self.aterms_reused,
            emissions: self.emissions.deep_view(),
            begun: self.begun.deep_view(),
            written: self.written@,
        }
    }
}

/// A row with that fingerprint is in the log.
pub open spec fn logged(log: RowsV, print: PreimageV) -> bool {
    exists|i: int|
        0 <= i < log.len() && readset::fingerprint((#[trigger] log[i]).0, log[i].1) == print
}

/// The number after `n`, from the greatest to 0.
pub open spec fn after(n: u64) -> u64 {
    if n == u64::MAX {
        0
    } else {
        (n + 1) as u64
    }
}

fn next(n: u64) -> (r: u64)
    ensures
        r == after(n),
{
    if n == u64::MAX {
        0
    } else {
        n + 1
    }
}

/// What is begun under other tickets.
pub open spec fn without(begun: Seq<(u64, QuestionV)>, ticket: u64) -> Seq<(u64, QuestionV)>
    decreases begun.len(),
{
    if begun.len() == 0 {
        begun
    } else if begun.last().0 == ticket {
        without(begun.drop_last(), ticket)
    } else {
        without(begun.drop_last(), ticket).push(begun.last())
    }
}

/// The question begun last under a ticket.
pub open spec fn begun_under(begun: Seq<(u64, QuestionV)>, ticket: u64) -> Option<QuestionV>
    decreases begun.len(),
{
    if begun.len() == 0 {
        None
    } else if begun.last().0 == ticket {
        Some(begun.last().1)
    } else {
        begun_under(begun.drop_last(), ticket)
    }
}

impl RecordingV {
    /// With a row recorded: at the end, unless one like it is there.
    pub open spec fn noting(self, q: QuestionV, r: RecordedV) -> RecordingV {
        if logged(self.log, readset::fingerprint(q, r)) {
            RecordingV { deduped: after(self.deduped), ..self }
        } else {
            RecordingV { log: self.log.push((q, r)), ..self }
        }
    }

    /// With a derivation written from the text of that name.
    pub open spec fn writing(self, path: Seq<char>, id: Seq<u8>) -> RecordingV {
        RecordingV {
            written: ordered::put(
                self.written,
                path,
                match ordered::find(self.written, path) {
                    None => Some(id),
                    Some(known) => if known == Some(id) {
                        Some(id)
                    } else {
                        None
                    },
                },
            ),
            ..self
        }
    }

    /// With the text of a derivation kept under its name, once, in the order
    /// of the names.
    pub open spec fn keeping(self, id: Seq<u8>, bytes: Seq<u8>) -> RecordingV {
        if named::aterm_named(self.aterms, id) is Some {
            RecordingV { reused: after(self.reused), ..self }
        } else {
            RecordingV { aterms: named::placed(self.aterms, id, bytes), ..self }
        }
    }

    /// With something said.
    pub open spec fn saying(self, e: EmissionV) -> RecordingV {
        RecordingV { emissions: self.emissions.push(e), ..self }
    }

    /// With a question begun under a ticket.
    pub open spec fn beginning(self, ticket: u64, q: QuestionV) -> RecordingV {
        RecordingV { begun: without(self.begun, ticket).push((ticket, q)), ..self }
    }

    /// With nothing begun under a ticket.
    pub open spec fn ending(self, ticket: u64) -> RecordingV {
        RecordingV { begun: without(self.begun, ticket), ..self }
    }
}

/// A row that was recorded is not recorded twice.
pub proof fn a_row_is_recorded_once(v: RecordingV, q: QuestionV, r: RecordedV)
    ensures
        v.noting(q, r).noting(q, r).log == v.noting(q, r).log,
        v.noting(q, r).log.len() <= v.log.len() + 1,
{
    let once = v.noting(q, r);
    if !logged(v.log, readset::fingerprint(q, r)) {
        assert(once.log[v.log.len() as int] == (q, r));
    }
}

/// What is in the log stays, in its order.
pub proof fn recording_keeps_the_log(v: RecordingV, q: QuestionV, r: RecordedV, i: int)
    requires
        0 <= i < v.log.len(),
    ensures
        v.noting(q, r).log[i] == v.log[i],
{
}

/// The row that is recorded of an answer, where the question is one that a
/// replay asks as it stands.
pub open spec fn row_of(ask: Ask, reply: Reply) -> Option<(QuestionV, RecordedV)> {
    match (ask, reply) {
        (Ask::ImportSource(x), Reply::Import(a)) => Some(
            (QuestionV::Import(x), RecordedV::Digest(digest::import(a))),
        ),
        (Ask::ReadFile(x), Reply::Text(a)) => Some(
            (QuestionV::ReadFile(x), RecordedV::Digest(digest::file_text(a))),
        ),
        (Ask::ReadFileBytes(x), Reply::Bytes(a)) => Some(
            (QuestionV::ReadFileBytes(x), RecordedV::Digest(digest::file_bytes(a))),
        ),
        (Ask::ReadDir(x), Reply::Entries(a)) => Some(
            (QuestionV::ReadDir(x), RecordedV::Digest(digest::entries(a))),
        ),
        (Ask::PathExists(x), Reply::Exists(a)) => Some(
            (QuestionV::PathExists(x), RecordedV::Digest(digest::exists_answer(a))),
        ),
        (Ask::DirExists(x), Reply::Exists(a)) => Some(
            (QuestionV::DirExists(x), RecordedV::Digest(digest::exists_answer(a))),
        ),
        (Ask::FileType(x), Reply::Kind(a)) => Some(
            (QuestionV::FileType(x), RecordedV::Digest(digest::kind(a))),
        ),
        (Ask::FileTypeResolved(x), Reply::Resolved(a)) => Some(
            (QuestionV::FileTypeResolved(x), RecordedV::Digest(digest::kind_resolved(a))),
        ),
        (Ask::GetEnv(x), Reply::Env(a)) => Some(
            (QuestionV::GetEnv(x), RecordedV::Digest(digest::env(a))),
        ),
        (Ask::FindFile { entries, name }, Reply::Found(a)) => Some(
            (QuestionV::FindFile { entries, name }, RecordedV::Digest(digest::find_file(a))),
        ),
        (Ask::NixPath, Reply::SearchPath(a)) => Some(
            (QuestionV::NixPath, RecordedV::Digest(digest::nix_path(a))),
        ),
        (Ask::CopyToStore(x), Reply::Store(a)) => Some(
            (QuestionV::CopyToStore(x), RecordedV::copy_record(QuestionV::CopyToStore(x), a)),
        ),
        (Ask::StorePath(x), Reply::StorePath(a)) => Some(
            (QuestionV::StorePath(x), RecordedV::Digest(digest::store_path(a))),
        ),
        (Ask::StoreText { name, contents, references }, Reply::Store(a)) => Some(
            (
                QuestionV::StoreText { name, contents, references },
                RecordedV::Digest(digest::store_outcome("text"@, a)),
            ),
        ),
        (Ask::EnsurePath(x), Reply::Done(a)) => Some(
            (QuestionV::EnsurePath(x), RecordedV::Digest(digest::ensure(a))),
        ),
        (Ask::StoreFiltered(x), Reply::Store(a)) => Some(
            (QuestionV::StoreFiltered(x), RecordedV::copy_record(QuestionV::StoreFiltered(x), a)),
        ),
        (Ask::Fetch(x), Reply::Store(a)) => Some(
            (QuestionV::Fetch(x), RecordedV::copy_record(QuestionV::Fetch(x), a)),
        ),
        (Ask::FetchTree(x), Reply::Store(a)) => Some(
            (QuestionV::FetchTree(x), RecordedV::copy_record(QuestionV::FetchTree(x), a)),
        ),
        (Ask::LockFlake(x), Reply::Flake(a)) => Some(
            (QuestionV::LockFlake(x), RecordedV::Digest(digest::flake_call(a))),
        ),
        (Ask::ParseFlakeRef(x), Reply::Store(a)) => Some(
            (QuestionV::ParseFlakeRef(x), RecordedV::Digest(digest::store_outcome("store"@, a))),
        ),
        (Ask::FlakeRefToString(x), Reply::Store(a)) => Some(
            (
                QuestionV::FlakeRefToString(x),
                RecordedV::Digest(digest::store_outcome("store"@, a)),
            ),
        ),
        _ => None,
    }
}

/// A row that is recorded of a host's answer is one that a replay finds again
/// as long as the host answers as it did.
pub proof fn what_is_recorded_is_found_again<H: Host>(
    h: &H,
    e: SceneV,
    ask: Ask,
    reply: Reply,
    hash: HashFn,
)
    requires
        h.answers(ask, reply),
        row_of(ask, reply) is Some,
    ensures
        row_of(ask, reply) matches Some((q, r)) && replay::told_row(h, e, q, r, hash),
{
    let (q, r) = row_of(ask, reply)->0;
    if let Reply::Store(a) = reply {
        question::kept_answer_digests_as_recorded(q, a);
    }
    assert(replay::asked_read(h, q, r.digest()) || replay::asked_store(h, q, r.digest()));
    assert(replay::asked(h, e.given.objects, q, Ok(r.digest())));
}

/// The row of a derivation that was written is one that a replay finds again
/// as long as the host answers as it did and the object store has its text.
pub proof fn a_written_derivation_is_found_again<H: Host>(
    h: &H,
    e: SceneV,
    name: Seq<char>,
    t: Seq<char>,
    id: Seq<u8>,
    a: Result<Seq<char>, StoreErrorV>,
    hash: HashFn,
)
    requires
        h.answers(Ask::WriteDerivation { name, aterm: t }, Reply::Store(a)),
        validity::object(e.given.objects, id) == FetchedV::Found(text::utf8(t)),
    ensures
        replay::told_row(
            h,
            e,
            QuestionV::WriteDrv { name, answer: WriteDrvAnswerV::made(a), aterm: id },
            RecordedV::Digest(digest::store_outcome("write-drv"@, a)),
            hash,
        ),
{
    let q = QuestionV::WriteDrv { name, answer: WriteDrvAnswerV::made(a), aterm: id };
    text::utf8_reads_back(t);
    assert(replay::asked(
        h,
        e.given.objects,
        q,
        Ok(digest::store_outcome("write-drv"@, a)),
    ));
}

/// The row of a realisation is one that a replay finds again as long as the
/// host answers as it did, and what the store holds, where that answers for
/// it, comes to the same.
pub proof fn a_realisation_is_found_again<H: Host>(
    h: &H,
    e: SceneV,
    context: Seq<ContextElemV>,
    a: Result<Seq<(Seq<char>, Seq<char>)>, StoreErrorV>,
    hash: HashFn,
)
    requires
        h.answers(Ask::Realise(context), Reply::Rewrites(a)),
        forall|s: ValidityV, t: ValidityV, d: DigestV| #[trigger]
            replay::checked_realise(h, e, s, context, t, Some(d)) ==> d.settled(hash)
                == digest::realise(a).settled(hash),
    ensures
        replay::told_row(
            h,
            e,
            QuestionV::Realise(context),
            RecordedV::Digest(digest::realise(a)),
            hash,
        ),
{
    let q = QuestionV::Realise(context);
    assert(replay::asked_store(h, q, digest::realise(a)));
    assert(replay::asked(h, e.given.objects, q, Ok(digest::realise(a))));
}

/// A realisation is asked where what one of its elements stands on is not
/// known, and then found again as long as the host answers as it did.
pub proof fn an_unresolved_realisation_is_found_again<H: Host>(
    h: &H,
    e: SceneV,
    context: Seq<ContextElemV>,
    a: Result<Seq<(Seq<char>, Seq<char>)>, StoreErrorV>,
    hash: HashFn,
)
    requires
        h.answers(Ask::Realise(context), Reply::Rewrites(a)),
        !validity::all_resolved(replay::resolved_in(e, context)),
    ensures
        replay::told_row(
            h,
            e,
            QuestionV::Realise(context),
            RecordedV::Digest(digest::realise(a)),
            hash,
        ),
{
    a_realisation_is_found_again(h, e, context, a, hash);
}

/// What an element stands on, by the derivations that were written while recording.
pub open spec fn stands_written(v: RecordingV, elem: ContextElemV) -> Option<StandsOnV> {
    match elem {
        ContextElemV::Opaque(path) => Some(validity::on_path(path)),
        ContextElemV::DrvDeep(path) => Some(validity::on_path(path)),
        ContextElemV::Built { drv, output } => match ordered::find(v.written, drv) {
            Some(Some(id)) => match named::aterm_named(v.aterms, id) {
                None => None,
                Some(bytes) => match text::utf8_text_of(bytes) {
                    None => None,
                    Some(t) => match aterm::outputs_of(t) {
                        None => None,
                        Some(outputs) => validity::built(outputs, drv, output),
                    },
                },
            },
            _ => None,
        },
    }
}

/// What each element of a context stands on.
pub open spec fn all_stand_written(v: RecordingV, context: Seq<ContextElemV>) -> Seq<Option<StandsOnV>> {
    Seq::new(context.len(), |i: int| stands_written(v, context[i]))
}

/// The host says that it holds all the paths; of none it is not asked.
pub open spec fn all_valid<H: Host>(h: &H, paths: Seq<Seq<char>>, b: bool) -> bool {
    if paths.len() == 0 {
        b
    } else {
        exists|a: Result<Seq<Seq<char>>, StoreErrorV>| #[trigger]
            h.answers(Ask::ValidPaths(paths), Reply::Valid(a)) && b == (a matches Ok(held)
                && validity::all_in(paths, held))
    }
}

/// What a realisation comes to with nothing to build, where that is to be
/// tried and all it stands on is there.
pub open spec fn live_served<H: Host>(
    h: &H,
    setup: Option<RealiseByValidity>,
    v: RecordingV,
    context: Seq<ContextElemV>,
    r: Option<NothingToBuildV>,
) -> bool {
    match setup {
        None => r is None,
        Some(s) => if !s.allow_import_from_derivation && validity::requires_ifd(context) {
            r is None
        } else if !validity::all_resolved(all_stand_written(v, context)) {
            r is None
        } else {
            let on = validity::unwrapped(all_stand_written(v, context));
            let n = context.len() as int;
            exists|b: bool| #[trigger]
                all_valid(h, validity::needs_of(context, on, Seq::empty(), n), b) && r == (if b {
                    validity::comes_to(context, on, s.ca_derivations, s.placeholders@, n)
                } else {
                    None
                })
        },
    }
}

/// The answer to a realisation: what it comes to with nothing to build, once
/// the host lets the outputs be read; else what the host answers.
pub open spec fn live_realised<H: Host>(
    h: &H,
    served: Option<NothingToBuildV>,
    context: Seq<ContextElemV>,
    answer: Result<Seq<(Seq<char>, Seq<char>)>, StoreErrorV>,
) -> bool {
    match served {
        None => asked_to_realise(h, context, answer),
        Some(b) => if b.outputs.len() == 0 {
            answer == Ok::<Seq<(Seq<char>, Seq<char>)>, StoreErrorV>(b.rewrites)
        } else {
            outputs_let_in(h, b.outputs, b.rewrites, context, answer)
        },
    }
}

pub open spec fn asked_to_realise<H: Host>(
    h: &H,
    context: Seq<ContextElemV>,
    answer: Result<Seq<(Seq<char>, Seq<char>)>, StoreErrorV>,
) -> bool {
    h.answers(Ask::Realise(context), Reply::Rewrites(answer))
}

pub open spec fn outputs_let_in<H: Host>(
    h: &H,
    outputs: Seq<Seq<char>>,
    rewrites: Seq<(Seq<char>, Seq<char>)>,
    context: Seq<ContextElemV>,
    answer: Result<Seq<(Seq<char>, Seq<char>)>, StoreErrorV>,
) -> bool {
    exists|a: Result<(), StoreErrorV>| #[trigger]
        h.answers(Ask::AllowClosures(outputs), Reply::Done(a)) && (if a is Ok {
            answer == Ok::<Seq<(Seq<char>, Seq<char>)>, StoreErrorV>(rewrites)
        } else {
            asked_to_realise(h, context, answer)
        })
}

/// The question that a [`Slow`] one is.
pub open spec fn slow_question_of(q: SlowV) -> QuestionV {
    match q {
        SlowV::Fetch(r) => QuestionV::Fetch(r),
        SlowV::FetchTree(r) => QuestionV::FetchTree(r),
        SlowV::Flake(f) => QuestionV::LockFlake(f),
        SlowV::Realise(c) => QuestionV::Realise(c),
    }
}

/// What is recorded of a slow answer.
pub open spec fn slow_record(q: QuestionV, a: SlowAnswerV) -> RecordedV {
    match a {
        SlowAnswerV::Store(answer) => RecordedV::copy_record(q, answer),
        SlowAnswerV::Flake(answer) => RecordedV::Digest(digest::flake_call(answer)),
        SlowAnswerV::Realise(answer) => RecordedV::Digest(digest::realise(answer)),
    }
}

/// The question that a [`Slow`] one is.
pub fn slow_question(question: &Slow) -> (r: Question)
    ensures
        r@ == slow_question_of(question@),
{
    match question {
        Slow::Fetch(request) => Question::Fetch(Box::new(request.copied())),
        Slow::FetchTree(request) => Question::FetchTree(Box::new(request.copied())),
        Slow::Flake(flake_ref) => Question::LockFlake(flake_ref.clone()),
        Slow::Realise(context) => Question::Realise(context.copied()),
    }
}

/// What is recorded of a slow answer.
pub fn slow_recorded(question: &Question, answer: &SlowAnswer) -> (r: Recorded)
    ensures
        r@ == slow_record(question@, answer@),
{
    match answer {
        SlowAnswer::Store(a) => Recorded::store_copy(question, a),
        SlowAnswer::Flake(a) => Recorded::Digest(digest::digest_flake_call(a)),
        SlowAnswer::Realise(a) => Recorded::Digest(digest::digest_realise(a)),
    }
}

impl<H> RecordingHost<H> {
    /// The fingerprints are those of the log, and the texts of derivations
    /// stand in the order of their names.
    pub open spec fn wf(&self) -> bool {
        &&& named::in_order(self.aterms.deep_view())
        &&& self.seen@.len() == self.log@.len()
        &&& forall|i: int|
            0 <= i < self.log@.len() ==> (#[trigger] self.seen@[i])@ == readset::fingerprint(
                self.log@[i].0@,
                self.log@[i].1@,
            )
    }

    /// The other's host, and set up like it.
    pub open spec fn set_up_like(&self, other: &RecordingHost<H>) -> bool {
        &&& self.inner == other.inner
        &&& self.forward_emissions == other.forward_emissions
        &&& self.realise_by_validity == other.realise_by_validity
    }
}

impl<H: Host> RecordingHost<H> {
    pub fn new(inner: H) -> (r: RecordingHost<H>)
        ensures
            r.inner == inner,
            r.forward_emissions,
            r.realise_by_validity is None,
            r.copy_memo is None,
            r@ == (RecordingV {
                log: Seq::empty(),
                deduped: 0,
                aterms: Seq::empty(),
                reused: 0,
                emissions: Seq::empty(),
                begun: Seq::empty(),
                written: Seq::empty(),
            }),
            r.wf(),
    {
        let r = RecordingHost {
            inner,
            forward_emissions: true,
            log: Vec::new(),
            seen: Vec::new(),
            rows_deduped: 0,
            aterms: Vec::new(),
            aterms_reused: 0,
            emissions: Vec::new(),
            begun: Vec::new(),
            copy_memo: None,
            written: TextMap::new(),
            realise_by_validity: None,
        };
        assert(r.log.deep_view() =~= Seq::<(QuestionV, RecordedV)>::empty());
        assert(r.aterms.deep_view() =~= Seq::<(Seq<u8>, Seq<u8>)>::empty());
        assert(r.emissions.deep_view() =~= Seq::<EmissionV>::empty());
        assert(r.begun.deep_view() =~= Seq::<(u64, QuestionV)>::empty());
        r
    }

    /// A recorder that does not pass on what an evaluation says.
    pub fn quiet(inner: H) -> (r: RecordingHost<H>)
        ensures
            r.inner == inner,
            !r.forward_emissions,
            r.realise_by_validity is None,
            r.copy_memo is None,
            r@ == (RecordingV {
                log: Seq::empty(),
                deduped: 0,
                aterms: Seq::empty(),
                reused: 0,
                emissions: Seq::empty(),
                begun: Seq::empty(),
                written: Seq::empty(),
            }),
            r.wf(),
    {
        let mut r = RecordingHost::new(inner);
        r.forward_emissions = false;
        r
    }

    pub fn with_copy_memo(self, memo: CopyMemo) -> (r: RecordingHost<H>)
        ensures
            r.copy_memo == Some(memo),
            r.set_up_like(&self),
            r@ == self@,
            self.wf() ==> r.wf(),
    {
        let mut r = self;
        r.copy_memo = Some(memo);
        r
    }

    /// Answers realisations by what the store holds, where that can be.
    pub fn realising_by_validity(
        self,
        ca_derivations: bool,
        allow_import_from_derivation: bool,
        placeholders: TextMap<String>,
    ) -> (r: RecordingHost<H>)
        ensures
            r.realise_by_validity == Some(
                RealiseByValidity { ca_derivations, allow_import_from_derivation, placeholders },
            ),
            r.inner == self.inner,
            r.forward_emissions == self.forward_emissions,
            r.copy_memo == self.copy_memo,
            r@ == self@,
            self.wf() ==> r.wf(),
    {
        let mut r = self;
        r.realise_by_validity = Some(
            RealiseByValidity { ca_derivations, allow_import_from_derivation, placeholders },
        );
        r
    }

    /// Takes the rows and the derivations that were recorded.
    pub fn take(&mut self) -> (r: ReadSet)
        ensures
            r.entries.deep_view() == old(self)@.log,
            r.aterms.deep_view() == old(self)@.aterms,
            old(self).wf() ==> r.wf(),
            r.aterms_reused == old(self)@.reused,
            r.rows_deduped == old(self)@.deduped,
            final(self)@ == (RecordingV {
                log: Seq::empty(),
                deduped: 0,
                aterms: Seq::empty(),
                reused: 0,
                ..old(self)@
            }),
            final(self).set_up_like(old(self)),
            final(self).copy_memo == old(self).copy_memo,
            final(self).wf(),
    {
        let mut entries: Vec<WitnessRow> = Vec::new();
        let mut aterms: Vec<(ObjId, Vec<u8>)> = Vec::new();
        std::mem::swap(&mut entries, &mut self.log);
        std::mem::swap(&mut aterms, &mut self.aterms);
        self.seen = Vec::new();
        let r = ReadSet {
            entries,
            aterms,
            aterms_reused: self.aterms_reused,
            rows_deduped: self.rows_deduped,
        };
        self.aterms_reused = 0;
        self.rows_deduped = 0;
        assert(self.log.deep_view() =~= Seq::<(QuestionV, RecordedV)>::empty());
        assert(self.aterms.deep_view() =~= Seq::<(Seq<u8>, Seq<u8>)>::empty());
        r
    }

    /// Takes what the evaluation said.
    pub fn take_emissions(&mut self) -> (r: Vec<Emission>)
        ensures
            r.deep_view() == old(self)@.emissions,
            final(self)@ == (RecordingV { emissions: Seq::empty(), ..old(self)@ }),
            final(self).set_up_like(old(self)),
            final(self).copy_memo == old(self).copy_memo,
            old(self).wf() ==> final(self).wf(),
    {
        let mut r: Vec<Emission> = Vec::new();
        std::mem::swap(&mut r, &mut self.emissions);
        assert(self.emissions.deep_view() =~= Seq::<EmissionV>::empty());
        r
    }

    fn note(&mut self, question: Question, answer: Digest)
        requires
            old(self).wf(),
        ensures
            final(self)@ == old(self)@.noting(question@, RecordedV::Digest(answer@)),
            final(self).set_up_like(old(self)),
            final(self).copy_memo == old(self).copy_memo,
            final(self).wf(),
    {
        self.record(question, Recorded::Digest(answer));
    }

    /// Records a row, unless one like it is there.
    pub fn record(&mut self, question: Question, recorded: Recorded)
        requires
            old(self).wf(),
        ensures
            final(self)@ == old(self)@.noting(question@, recorded@),
            final(self).set_up_like(old(self)),
            final(self).copy_memo == old(self).copy_memo,
            final(self).wf(),
    {
        let print = readset::read_entry_fingerprint(&question, &recorded);
        let ghost log = self@.log;
        let mut i: usize = 0;
        while i < self.seen.len()
            invariant
                i <= self.seen.len(),
                self.wf(),
                *self == *old(self),
                log == self@.log,
                print@ == readset::fingerprint(question@, recorded@),
                forall|j: int|
                    0 <= j < i ==> readset::fingerprint((#[trigger] log[j]).0, log[j].1) != print@,
            decreases self.seen.len() - i,
        {
            assert(log[i as int] == self.log@[i as int].deep_view());
            if self.seen[i].same(&print) {
                assert(self.seen@[i as int]@ == print@);
                assert(logged(log, print@));
                self.rows_deduped = next(self.rows_deduped);
                return ;
            }
            assert(self.seen@[i as int]@ != print@);
            i += 1;
        }
        assert(!logged(log, print@));
        let ghost row = (question@, recorded@);
        let ghost prior = self.log@;
        self.seen.push(print);
        self.log.push((question, recorded));
        assert(self.log.deep_view() =~= log.push(row));
    }

    fn stands_on_written(&self, elem: &ContextElem) -> (r: Option<StandsOn>)
        ensures
            r.deep_view() == stands_written(self@, elem@),
    {
        match elem {
            ContextElem::Opaque(path) => Some(StandsOn::on_path(path.as_str())),
            ContextElem::DrvDeep(path) => Some(StandsOn::on_path(path.as_str())),
            ContextElem::Built { drv, output } => {
                let Some(known) = self.written.get(drv.as_str()) else {
                    return None;
                };
                let Some(id) = known else {
                    return None;
                };
                let Some(bytes) = named::aterm_of(&self.aterms, id) else {
                    return None;
                };
                assert(bytes.deep_view() =~= bytes@);
                let Some(t) = text::utf8_text(bytes) else {
                    return None;
                };
                let Some(outputs) = aterm::parse(t.as_str()) else {
                    return None;
                };
                StandsOn::built(&outputs, drv.as_str(), output.as_str())
            },
        }
    }

    fn says_all_valid(&self, needs: TextSet) -> (b: bool)
        ensures
            all_valid(&self.inner, needs@, b),
    {
        if needs.is_empty() {
            return true;
        }
        let asked = needs.items;
        proof {
            model::deep_texts(&asked);
        }
        let a = self.inner.valid_paths(&asked);
        let ghost said = model::outcome(a);
        assert(self.inner.answers(Ask::ValidPaths(needs@), Reply::Valid(said)));
        match a {
            Ok(held) => validity::every_in(&asked, &held),
            Err(_) => false,
        }
    }

    /// What a realisation comes to with nothing to build, where that is to be
    /// tried and all it stands on is there.
    fn realised_by_validity(&self, context: &Vec<ContextElem>) -> (r: Option<NothingToBuild>)
        ensures
            live_served(
                &self.inner,
                self.realise_by_validity,
                self@,
                context.deep_view(),
                r.deep_view(),
            ),
    {
        let Some(setup) = &self.realise_by_validity else {
            return None;
        };
        if !setup.allow_import_from_derivation && validity::context_requires_ifd(context) {
            return None;
        }
        let ghost c = context.deep_view();
        let ghost want = all_stand_written(self@, c);
        let mut resolved: Vec<Option<StandsOn>> = Vec::new();
        let mut i: usize = 0;
        while i < context.len()
            invariant
                i <= context.len(),
                c == context.deep_view(),
                want == all_stand_written(self@, c),
                resolved.len() == i,
                forall|j: int| 0 <= j < i ==> (#[trigger] resolved@[j]).deep_view() == want[j],
            decreases context.len() - i,
        {
            assert(c[i as int] == context@[i as int]@);
            resolved.push(self.stands_on_written(&context[i]));
            i += 1;
        }
        assert(resolved.deep_view() =~= want);
        let Some(on) = validity::resolve_all(resolved) else {
            return None;
        };
        assert(on.deep_view().len() == on@.len());
        let ghost rest = validity::unwrapped(want);
        let ghost n = c.len() as int;
        let none = TextSet::new();
        let needs = validity::paths_needed(context, &on, &none);
        let b = self.says_all_valid(needs);
        assert(all_valid(
            &self.inner,
            validity::needs_of(c, rest, Seq::empty(), n),
            b,
        ));
        validity::nothing_to_build(context, &on, b, setup.ca_derivations, &setup.placeholders)
    }

    pub fn import_source(&mut self, path: &PathValue) -> (r: Result<ImportedSource, String>)
        requires
            old(self).wf(),
        ensures
            old(self).inner.answers(Ask::ImportSource(path@), Reply::Import(model::outcome(r))),
            final(self)@ == old(self)@.noting(
                QuestionV::Import(path@),
                RecordedV::Digest(digest::import(model::outcome(r))),
            ),
            final(self).set_up_like(old(self)),
            final(self).copy_memo == old(self).copy_memo,
            final(self).wf(),
    {
        let r = self.inner.import_source(path);
        let d = digest::digest_import(&r);
        self.note(
            Question::Import(Rc::new(path.copied())),
            d,
        );
        r
    }

    pub fn read_file(&mut self, path: &PathValue) -> (r: Result<String, String>)
        requires
            old(self).wf(),
        ensures
            old(self).inner.answers(Ask::ReadFile(path@), Reply::Text(model::outcome(r))),
            final(self)@ == old(self)@.noting(
                QuestionV::ReadFile(path@),
                RecordedV::Digest(digest::file_text(model::outcome(r))),
            ),
            final(self).set_up_like(old(self)),
            final(self).copy_memo == old(self).copy_memo,
            final(self).wf(),
    {
        let r = self.inner.read_file(path);
        let d = digest::digest_file(&r);
        self.note(
            Question::ReadFile(Rc::new(path.copied())),
            d,
        );
        r
    }

    pub fn read_file_bytes(&mut self, path: &PathValue) -> (r: Result<Vec<u8>, String>)
        requires
            old(self).wf(),
        ensures
            old(self).inner.answers(Ask::ReadFileBytes(path@), Reply::Bytes(model::outcome(r))),
            final(self)@ == old(self)@.noting(
                QuestionV::ReadFileBytes(path@),
                RecordedV::Digest(digest::file_bytes(model::outcome(r))),
            ),
            final(self).set_up_like(old(self)),
            final(self).copy_memo == old(self).copy_memo,
            final(self).wf(),
    {
        let r = self.inner.read_file_bytes(path);
        let d = digest::digest_file_bytes(&r);
        self.note(
            Question::ReadFileBytes(Rc::new(path.copied())),
            d,
        );
        r
    }

    pub fn read_dir(&mut self, path: &PathValue) -> (r: Result<Vec<(String, FileType)>, String>)
        requires
            old(self).wf(),
        ensures
            old(self).inner.answers(Ask::ReadDir(path@), Reply::Entries(model::outcome(r))),
            final(self)@ == old(self)@.noting(
                QuestionV::ReadDir(path@),
                RecordedV::Digest(digest::entries(model::outcome(r))),
            ),
            final(self).set_up_like(old(self)),
            final(self).copy_memo == old(self).copy_memo,
            final(self).wf(),
    {
        let r = self.inner.read_dir(path);
        let d = digest::digest_entries(&r);
        self.note(
            Question::ReadDir(Rc::new(path.copied())),
            d,
        );
        r
    }

    pub fn path_exists_checked(&mut self, path: &PathValue) -> (r: Result<bool, String>)
        requires
            old(self).wf(),
        ensures
            old(self).inner.answers(Ask::PathExists(path@), Reply::Exists(model::outcome(r))),
            final(self)@ == old(self)@.noting(
                QuestionV::PathExists(path@),
                RecordedV::Digest(digest::exists_answer(model::outcome(r))),
            ),
            final(self).set_up_like(old(self)),
            final(self).copy_memo == old(self).copy_memo,
            final(self).wf(),
    {
        let r = self.inner.path_exists_checked(path);
        let d = digest::digest_exists(&r);
        self.note(
            Question::PathExists(Rc::new(path.copied())),
            d,
        );
        r
    }

    pub fn dir_exists_checked(&mut self, path: &PathValue) -> (r: Result<bool, String>)
        requires
            old(self).wf(),
        ensures
            old(self).inner.answers(Ask::DirExists(path@), Reply::Exists(model::outcome(r))),
            final(self)@ == old(self)@.noting(
                QuestionV::DirExists(path@),
                RecordedV::Digest(digest::exists_answer(model::outcome(r))),
            ),
            final(self).set_up_like(old(self)),
            final(self).copy_memo == old(self).copy_memo,
            final(self).wf(),
    {
        let r = self.inner.dir_exists_checked(path);
        let d = digest::digest_exists(&r);
        self.note(
            Question::DirExists(Rc::new(path.copied())),
            d,
        );
        r
    }

    pub fn file_type(&mut self, path: &PathValue) -> (r: Result<Option<FileType>, String>)
        requires
            old(self).wf(),
        ensures
            old(self).inner.answers(Ask::FileType(path@), Reply::Kind(model::outcome(r))),
            final(self)@ == old(self)@.noting(
                QuestionV::FileType(path@),
                RecordedV::Digest(digest::kind(model::outcome(r))),
            ),
            final(self).set_up_like(old(self)),
            final(self).copy_memo == old(self).copy_memo,
            final(self).wf(),
    {
        let r = self.inner.file_type(path);
        let d = digest::digest_file_type(&r);
        self.note(
            Question::FileType(Rc::new(path.copied())),
            d,
        );
        r
    }

    pub fn file_type_resolved(&mut self, path: &PathValue) -> (r: Result<FileType, String>)
        requires
            old(self).wf(),
        ensures
            old(self).inner.answers(Ask::FileTypeResolved(path@), Reply::Resolved(model::outcome(r))),
            final(self)@ == old(self)@.noting(
                QuestionV::FileTypeResolved(path@),
                RecordedV::Digest(digest::kind_resolved(model::outcome(r))),
            ),
            final(self).set_up_like(old(self)),
            final(self).copy_memo == old(self).copy_memo,
            final(self).wf(),
    {
        let r = self.inner.file_type_resolved(path);
        let d = digest::digest_file_type_resolved(&r);
        self.note(
            Question::FileTypeResolved(Rc::new(path.copied())),
            d,
        );
        r
    }

    pub fn get_env(&mut self, name: &str) -> (r: Option<String>)
        requires
            old(self).wf(),
        ensures
            old(self).inner.answers(Ask::GetEnv(name@), Reply::Env(r.deep_view())),
            final(self)@ == old(self)@.noting(
                QuestionV::GetEnv(name@),
                RecordedV::Digest(digest::env(r.deep_view())),
            ),
            final(self).set_up_like(old(self)),
            final(self).copy_memo == old(self).copy_memo,
            final(self).wf(),
    {
        let r = self.inner.get_env(name);
        let d = digest::digest_env(&r);
        self.note(
            Question::GetEnv(name.to_owned()),
            d,
        );
        r
    }

    pub fn store_path(&mut self, path: &PathValue) -> (r: Result<StorePathResult, StoreError>)
        requires
            old(self).wf(),
        ensures
            old(self).inner.answers(Ask::StorePath(path@), Reply::StorePath(model::outcome(r))),
            final(self)@ == old(self)@.noting(
                QuestionV::StorePath(path@),
                RecordedV::Digest(digest::store_path(model::outcome(r))),
            ),
            final(self).set_up_like(old(self)),
            final(self).copy_memo == old(self).copy_memo,
            final(self).wf(),
    {
        let r = self.inner.store_path(path);
        let d = digest::digest_store_path(&r);
        self.note(
            Question::StorePath(Rc::new(path.copied())),
            d,
        );
        r
    }

    pub fn store_text(&mut self, name: &str, contents: &str, references: &Vec<String>) -> (r: Result<String, StoreError>)
        requires
            old(self).wf(),
        ensures
            old(self).inner.answers(Ask::StoreText { name: name@, contents: contents@, references: references.deep_view() }, Reply::Store(model::outcome(r))),
            final(self)@ == old(self)@.noting(
                QuestionV::StoreText { name: name@, contents: contents@, references: references.deep_view() },
                RecordedV::Digest(digest::store_outcome("text"@, model::outcome(r))),
            ),
            final(self).set_up_like(old(self)),
            final(self).copy_memo == old(self).copy_memo,
            final(self).wf(),
    {
        let r = self.inner.store_text(name, contents, references);
        let d = digest::digest_store_text(&r);
        self.note(
            Question::StoreText {
                name: name.to_owned(),
                contents: contents.to_owned(),
                references: references.copied(),
            },
            d,
        );
        r
    }

    pub fn ensure_path(&mut self, path: &str) -> (r: Result<(), StoreError>)
        requires
            old(self).wf(),
        ensures
            old(self).inner.answers(Ask::EnsurePath(path@), Reply::Done(model::outcome(r))),
            final(self)@ == old(self)@.noting(
                QuestionV::EnsurePath(path@),
                RecordedV::Digest(digest::ensure(model::outcome(r))),
            ),
            final(self).set_up_like(old(self)),
            final(self).copy_memo == old(self).copy_memo,
            final(self).wf(),
    {
        let r = self.inner.ensure_path(path);
        let d = digest::digest_store_ensure(&r);
        self.note(
            Question::EnsurePath(path.to_owned()),
            d,
        );
        r
    }

    pub fn lock_flake(&mut self, flake_ref: &str) -> (r: Result<FlakeCall, StoreError>)
        requires
            old(self).wf(),
        ensures
            old(self).inner.answers(Ask::LockFlake(flake_ref@), Reply::Flake(model::outcome(r))),
            final(self)@ == old(self)@.noting(
                QuestionV::LockFlake(flake_ref@),
                RecordedV::Digest(digest::flake_call(model::outcome(r))),
            ),
            final(self).set_up_like(old(self)),
            final(self).copy_memo == old(self).copy_memo,
            final(self).wf(),
    {
        let r = self.inner.lock_flake(flake_ref);
        let d = digest::digest_flake_call(&r);
        self.note(
            Question::LockFlake(flake_ref.to_owned()),
            d,
        );
        r
    }

    pub fn parse_flake_ref(&mut self, flake_ref: &str) -> (r: Result<String, StoreError>)
        requires
            old(self).wf(),
        ensures
            old(self).inner.answers(Ask::ParseFlakeRef(flake_ref@), Reply::Store(model::outcome(r))),
            final(self)@ == old(self)@.noting(
                QuestionV::ParseFlakeRef(flake_ref@),
                RecordedV::Digest(digest::store_outcome("store"@, model::outcome(r))),
            ),
            final(self).set_up_like(old(self)),
            final(self).copy_memo == old(self).copy_memo,
            final(self).wf(),
    {
        let r = self.inner.parse_flake_ref(flake_ref);
        let d = digest::digest_store_copy(&r);
        self.note(
            Question::ParseFlakeRef(flake_ref.to_owned()),
            d,
        );
        r
    }

    pub fn flake_ref_to_string(&mut self, attrs: &TextMap<TreeAttr>) -> (r: Result<String, StoreError>)
        requires
            old(self).wf(),
        ensures
            old(self).inner.answers(Ask::FlakeRefToString(attrs@), Reply::Store(model::outcome(r))),
            final(self)@ == old(self)@.noting(
                QuestionV::FlakeRefToString(attrs@),
                RecordedV::Digest(digest::store_outcome("store"@, model::outcome(r))),
            ),
            final(self).set_up_like(old(self)),
            final(self).copy_memo == old(self).copy_memo,
            final(self).wf(),
    {
        let r = self.inner.flake_ref_to_string(attrs);
        let d = digest::digest_store_copy(&r);
        self.note(
            Question::FlakeRefToString(attrs.copied()),
            d,
        );
        r
    }

    pub fn find_file(&mut self, entries: &Vec<SearchPathEntry>, name: &str) -> (r: Result<PathValue, LookupError>)
        requires
            old(self).wf(),
        ensures
            old(self).inner.answers(Ask::FindFile { entries: entries.deep_view(), name: name@ }, Reply::Found(model::outcome(r))),
            final(self)@ == old(self)@.noting(
                QuestionV::FindFile { entries: entries.deep_view(), name: name@ },
                RecordedV::Digest(digest::find_file(model::outcome(r))),
            ),
            final(self).set_up_like(old(self)),
            final(self).copy_memo == old(self).copy_memo,
            final(self).wf(),
    {
        let r = self.inner.find_file(entries, name);
        let d = digest::digest_find_file(&r);
        self.note(
            Question::FindFile { entries: entries.copied(), name: name.to_owned() },
            d,
        );
        r
    }

    pub fn nix_path(&mut self) -> (r: Result<Vec<SearchPathEntry>, LookupError>)
        requires
            old(self).wf(),
        ensures
            old(self).inner.answers(Ask::NixPath, Reply::SearchPath(model::outcome(r))),
            final(self)@ == old(self)@.noting(
                QuestionV::NixPath,
                RecordedV::Digest(digest::nix_path(model::outcome(r))),
            ),
            final(self).set_up_like(old(self)),
            final(self).copy_memo == old(self).copy_memo,
            final(self).wf(),
    {
        let r = self.inner.nix_path();
        let d = digest::digest_nix_path(&r);
        self.note(
            Question::NixPath,
            d,
        );
        r
    }

    pub fn copy_to_store(&mut self, path: &PathValue) -> (r: Result<String, StoreError>)
        requires
            old(self).wf(),
        ensures
            old(self).inner.answers(Ask::CopyToStore(path@), Reply::Store(model::outcome(r))),
            final(self)@ == old(self)@.noting(
                QuestionV::CopyToStore(path@),
                RecordedV::copy_record(QuestionV::CopyToStore(path@), model::outcome(r)),
            ),
            final(self).set_up_like(old(self)),
            final(self).copy_memo == old(self).copy_memo,
            final(self).wf(),
    {
        let r = self.inner.copy_to_store(path);
        let question = Question::CopyToStore(Rc::new(path.copied()));
        let recorded = Recorded::store_copy(&question, &r);
        self.record(question, recorded);
        r
    }

    pub fn fetch(&mut self, request: &FetchRequest) -> (r: Result<String, StoreError>)
        requires
            old(self).wf(),
        ensures
            old(self).inner.answers(Ask::Fetch(request@), Reply::Store(model::outcome(r))),
            final(self)@ == old(self)@.noting(
                QuestionV::Fetch(request@),
                RecordedV::copy_record(QuestionV::Fetch(request@), model::outcome(r)),
            ),
            final(self).set_up_like(old(self)),
            final(self).copy_memo == old(self).copy_memo,
            final(self).wf(),
    {
        let r = self.inner.fetch(request);
        let question = Question::Fetch(Box::new(request.copied()));
        let recorded = Recorded::store_copy(&question, &r);
        self.record(question, recorded);
        r
    }

    pub fn fetch_tree(&mut self, request: &FetchTreeRequest) -> (r: Result<String, StoreError>)
        requires
            old(self).wf(),
        ensures
            old(self).inner.answers(Ask::FetchTree(request@), Reply::Store(model::outcome(r))),
            final(self)@ == old(self)@.noting(
                QuestionV::FetchTree(request@),
                RecordedV::copy_record(QuestionV::FetchTree(request@), model::outcome(r)),
            ),
            final(self).set_up_like(old(self)),
            final(self).copy_memo == old(self).copy_memo,
            final(self).wf(),
    {
        let r = self.inner.fetch_tree(request);
        let question = Question::FetchTree(Box::new(request.copied()));
        let recorded = Recorded::store_copy(&question, &r);
        self.record(question, recorded);
        r
    }

    pub fn settle(&self) -> (r: Result<(), StoreError>)
        ensures
            self.inner.answers(Ask::Settle, Reply::Done(model::outcome(r))),
    {
        self.inner.settle()
    }

    pub fn valid_paths(&self, paths: &Vec<String>) -> (r: Result<TextSet, StoreError>)
        ensures
            self.inner.answers(Ask::ValidPaths(paths.deep_view()), Reply::Valid(model::outcome(r))),
    {
        self.inner.valid_paths(paths)
    }

    pub fn sealed_paths(&self, objects: &Vec<String>) -> (r: Result<Links, StoreError>)
        ensures
            self.inner.answers(Ask::SealedPaths(objects.deep_view()), Reply::Links(model::outcome(r))),
    {
        self.inner.sealed_paths(objects)
    }

    pub fn allow_paths(&self, paths: &Vec<String>) -> (r: Result<(), StoreError>)
        ensures
            self.inner.answers(Ask::AllowPaths(paths.deep_view()), Reply::Done(model::outcome(r))),
    {
        self.inner.allow_paths(paths)
    }

    pub fn allow_closures(&self, outputs: &Vec<String>) -> (r: Result<(), StoreError>)
        ensures
            self.inner.answers(Ask::AllowClosures(outputs.deep_view()), Reply::Done(model::outcome(r))),
    {
        self.inner.allow_closures(outputs)
    }

    pub fn warn(&mut self, message: &str)
        ensures
            old(self).forward_emissions ==> old(self).inner.answers(Ask::Warn(message@), Reply::Said),
            final(self)@ == old(self)@.saying(EmissionV::Warn(message@)),
            final(self).set_up_like(old(self)),
            final(self).copy_memo == old(self).copy_memo,
            old(self).wf() ==> final(self).wf(),
    {
        let ghost prior = self.emissions.deep_view();
        self.emissions.push(Emission::Warn(message.to_owned()));
        assert(self.emissions.deep_view() =~= prior.push(EmissionV::Warn(message@)));
        if self.forward_emissions {
            self.inner.warn(message);
        }
    }

    pub fn trace(&mut self, message: &str)
        ensures
            old(self).forward_emissions ==> old(self).inner.answers(Ask::Trace(message@), Reply::Said),
            final(self)@ == old(self)@.saying(EmissionV::Trace(message@)),
            final(self).set_up_like(old(self)),
            final(self).copy_memo == old(self).copy_memo,
            old(self).wf() ==> final(self).wf(),
    {
        let ghost prior = self.emissions.deep_view();
        self.emissions.push(Emission::Trace(message.to_owned()));
        assert(self.emissions.deep_view() =~= prior.push(EmissionV::Trace(message@)));
        if self.forward_emissions {
            self.inner.trace(message);
        }
    }

    /// Writes a derivation; `id` is the name of its text.
    pub fn write_derivation(&mut self, name: &str, aterm: &str, id: &ObjId) -> (r: Result<
        String,
        StoreError,
    >)
        requires
            old(self).wf(),
        ensures
            old(self).inner.answers(
                Ask::WriteDerivation { name: name@, aterm: aterm@ },
                Reply::Store(model::outcome(r)),
            ),
            final(self)@ == (match r {
                Ok(path) => old(self)@.writing(path@, id@),
                Err(_) => old(self)@,
            }).keeping(id@, text::utf8(aterm@)).noting(
                QuestionV::WriteDrv {
                    name: name@,
                    answer: WriteDrvAnswerV::made(model::outcome(r)),
                    aterm: id@,
                },
                RecordedV::Digest(digest::store_outcome("write-drv"@, model::outcome(r))),
            ),
            final(self).set_up_like(old(self)),
            final(self).copy_memo == old(self).copy_memo,
            final(self).wf(),
    {
        let r = self.inner.write_derivation(name, aterm);
        let ghost start = self@;
        if let Ok(path) = &r {
            let known = match self.written.get(path.as_str()) {
                None => Some(*id),
                Some(Some(known)) => if known.same(id) {
                    Some(*id)
                } else {
                    None
                },
                Some(None) => None,
            };
            self.written.insert(path.clone(), known);
            assert(self@ == start.writing(path@, id@));
        }
        let ghost middle = self@;
        if named::aterm_of(&self.aterms, id).is_some() {
            self.aterms_reused = next(self.aterms_reused);
            assert(self@ == middle.keeping(id@, text::utf8(aterm@)));
        } else {
            let bytes = text::bytes(aterm);
            assert(bytes.deep_view() =~= bytes@);
            proof {
                named::placing_keeps_the_order(
                    self.aterms.deep_view(),
                    id@,
                    text::utf8(aterm@),
                    id@,
                );
            }
            named::place_aterm(&mut self.aterms, id, bytes);
            assert(self@ == middle.keeping(id@, text::utf8(aterm@)));
        }
        let d = digest::digest_write_drv(&r);
        self.note(
            Question::WriteDrv {
                name: name.to_owned(),
                answer: WriteDrvAnswer::of(&r),
                aterm: *id,
            },
            d,
        );
        r
    }

    /// Realises a context: without a build where nothing is to be built.
    pub fn realise(&mut self, context: &Vec<ContextElem>) -> (r: Result<TextMap<String>, StoreError>)
        requires
            old(self).wf(),
        ensures
            exists|served: Option<NothingToBuildV>| #[trigger]
                live_served(
                    &old(self).inner,
                    old(self).realise_by_validity,
                    old(self)@,
                    context.deep_view(),
                    served,
                ) && live_realised(
                    &old(self).inner,
                    served,
                    context.deep_view(),
                    model::outcome(r),
                ),
            final(self)@ == old(self)@.noting(
                QuestionV::Realise(context.deep_view()),
                RecordedV::Digest(digest::realise(model::outcome(r))),
            ),
            final(self).set_up_like(old(self)),
            final(self).copy_memo == old(self).copy_memo,
            final(self).wf(),
    {
        let served = self.realised_by_validity(context);
        let ghost s = served.deep_view();
        let r = self.answer_realise(served, context);
        let d = digest::digest_realise(&r);
        self.note(Question::Realise(context.copied()), d);
        assert(live_served(
            &old(self).inner,
            old(self).realise_by_validity,
            old(self)@,
            context.deep_view(),
            s,
        ));
        r
    }

    fn answer_realise(&self, served: Option<NothingToBuild>, context: &Vec<ContextElem>) -> (r: Result<
        TextMap<String>,
        StoreError,
    >)
        ensures
            live_realised(
                &self.inner,
                served.deep_view(),
                context.deep_view(),
                model::outcome(r),
            ),
    {
        let Some(b) = served else {
            return self.inner.realise(context);
        };
        assert(b@.outputs.len() == b.outputs@.len());
        if b.outputs.len() == 0 {
            return Ok(b.rewrites);
        }
        let a = self.inner.allow_closures(&b.outputs);
        let ghost said = model::outcome(a);
        let ghost outputs = b@.outputs;
        assert(self.inner.answers(Ask::AllowClosures(outputs), Reply::Done(said)));
        if a.is_ok() {
            let ghost rewrites = b@.rewrites;
            let r: Result<TextMap<String>, StoreError> = Ok(b.rewrites);
            assert(outputs_let_in(
                &self.inner,
                outputs,
                rewrites,
                context.deep_view(),
                model::outcome(r),
            ));
            r
        } else {
            let ghost rewrites = b@.rewrites;
            let r = self.inner.realise(context);
            assert(asked_to_realise(&self.inner, context.deep_view(), model::outcome(r)));
            assert(outputs_let_in(
                &self.inner,
                outputs,
                rewrites,
                context.deep_view(),
                model::outcome(r),
            ));
            r
        }
    }

    /// Whether the source of a copy cannot have changed, where copies are
    /// remembered.
    pub fn copy_is_fixed(&self, request: &FilteredCopy, sealed: &mut DirSealed) -> (b: bool)
        ensures
            source_fixed(
                &self.inner,
                self.copy_memo,
                request@,
                old(sealed)@,
                b,
                final(sealed)@,
            ),
            old(sealed).wf() ==> final(sealed).wf(),
    {
        match &self.copy_memo {
            Some(memo) => memo.immutable(&request.root, &self.inner, sealed),
            None => false,
        }
    }

    /// Copies into the store, `key` being the hash of the copy's key and
    /// `fixed` whether its source cannot have changed: without a walk where
    /// the copy was made before and its source cannot have changed.
    pub fn store_filtered_of(&mut self, request: &FilteredCopy, key: &digest::Hash, fixed: bool) -> (r:
        Result<String, StoreError>)
        requires
            old(self).wf(),
            old(self).copy_memo matches Some(m) ==> m.copies.inserts < u64::MAX,
        ensures
            copied(
                &old(self).inner,
                old(self).copy_memo,
                final(self).copy_memo,
                request@,
                key@,
                fixed,
                model::outcome(r),
            ),
            final(self)@ == old(self)@.noting(
                QuestionV::StoreFiltered(request@),
                RecordedV::copy_record(QuestionV::StoreFiltered(request@), model::outcome(r)),
            ),
            final(self).set_up_like(old(self)),
            final(self).wf(),
    {
        let question = Question::StoreFiltered(Box::new(request.copied()));
        let ghost before = self.copy_memo;
        let looked = match &self.copy_memo {
            Some(memo) => if fixed {
                let l = memo.look_fixed(key, &self.inner);
                assert(copies::looked_fixed(&self.inner, before->0.copies.records@, key@, l@));
                l
            } else {
                CopyLookup::Mutable
            },
            None => CopyLookup::Mutable,
        };
        let ghost found = looked@;
        let r = match looked {
            CopyLookup::Served(path) => Ok(path),
            CopyLookup::Miss(_) => {
                let r = self.inner.store_filtered(request);
                if let Ok(path) = &r {
                    if let Some(memo) = &mut self.copy_memo {
                        memo.remember(key, path.as_str());
                    }
                }
                r
            },
            CopyLookup::Mutable => self.inner.store_filtered(request),
        };
        proof {
            if before is Some {
                assert(copied_by(
                    &self.inner,
                    before->0,
                    self.copy_memo->0,
                    request@,
                    key@,
                    found,
                    model::outcome(r),
                ));
            }
        }
        let recorded = Recorded::store_copy(&question, &r);
        self.record(question, recorded);
        r
    }

    /// Copies into the store, `key` being the hash of the copy's key: without
    /// a walk where the copy was made before and its source cannot have changed.
    pub fn store_filtered(
        &mut self,
        request: &FilteredCopy,
        key: &digest::Hash,
        sealed: &mut DirSealed,
    ) -> (r: Result<String, StoreError>)
        requires
            old(self).wf(),
            old(self).copy_memo matches Some(m) ==> m.copies.inserts < u64::MAX,
        ensures
            copied_filtered(
                &old(self).inner,
                old(self).copy_memo,
                final(self).copy_memo,
                request@,
                key@,
                old(sealed)@,
                final(sealed)@,
                model::outcome(r),
            ),
            final(self)@ == old(self)@.noting(
                QuestionV::StoreFiltered(request@),
                RecordedV::copy_record(QuestionV::StoreFiltered(request@), model::outcome(r)),
            ),
            final(self).set_up_like(old(self)),
            final(self).wf(),
            old(sealed).wf() ==> final(sealed).wf(),
    {
        let ghost known = sealed@;
        let ghost before = self.copy_memo;
        let fixed = self.copy_is_fixed(request, sealed);
        assert(source_fixed(&self.inner, before, request@, known, fixed, sealed@));
        self.store_filtered_of(request, key, fixed)
    }

    /// Begins to answer a question; not a realisation that needs no build.
    pub fn begin(&mut self, question: &Slow) -> (r: Option<Ticket>)
        requires
            old(self).wf(),
        ensures
            match question@ {
                SlowV::Realise(context) => realise_begun(
                    &old(self).inner,
                    old(self).realise_by_validity,
                    old(self)@,
                    context,
                    r,
                ),
                _ => begin_asked(&old(self).inner, question@, r),
            },
            final(self)@ == (match r {
                Some(ticket) => old(self)@.beginning(ticket.0, slow_question_of(question@)),
                None => old(self)@,
            }),
            final(self).set_up_like(old(self)),
            final(self).copy_memo == old(self).copy_memo,
            final(self).wf(),
    {
        if let Slow::Realise(context) = question {
            let served = self.realised_by_validity(context);
            assert(live_served(
                &self.inner,
                self.realise_by_validity,
                self@,
                context.deep_view(),
                served.deep_view(),
            ));
            if served.is_some() {
                assert(realise_begun(
                    &self.inner,
                    self.realise_by_validity,
                    self@,
                    context.deep_view(),
                    None,
                ));
                return None;
            }
        }
        let t = self.inner.begin(question);
        assert(begin_asked(&self.inner, question@, t));
        proof {
            if let SlowV::Realise(c) = question@ {
                assert(realise_begun(&self.inner, self.realise_by_validity, self@, c, t));
            }
        }
        let Some(ticket) = t else {
            return None;
        };
        self.drop_begun(ticket.0);
        let ghost prior = self.begun.deep_view();
        let q = slow_question(question);
        self.begun.push((ticket.0, q));
        assert(self.begun.deep_view() =~= prior.push((ticket.0, q@)));
        Some(ticket)
    }

    fn drop_begun(&mut self, ticket: u64) -> (r: Option<Question>)
        ensures
            final(self)@ == old(self)@.ending(ticket),
            r.deep_view() == begun_under(old(self)@.begun, ticket),
            final(self).set_up_like(old(self)),
            final(self).copy_memo == old(self).copy_memo,
            old(self).wf() ==> final(self).wf(),
    {
        let ghost all = self@.begun;
        let mut kept: Vec<(u64, Question)> = Vec::new();
        let mut found: Option<Question> = None;
        let mut i: usize = 0;
        assert(kept.deep_view() =~= without(all.take(0), ticket));
        while i < self.begun.len()
            invariant
                i <= self.begun.len(),
                *self == *old(self),
                all == self@.begun,
                kept.deep_view() == without(all.take(i as int), ticket),
                found.deep_view() == begun_under(all.take(i as int), ticket),
            decreases self.begun.len() - i,
        {
            proof {
                assert(all.take(i + 1).drop_last() =~= all.take(i as int));
                assert(all.take(i + 1).last() == self.begun@[i as int].deep_view());
            }
            let q = self.begun[i].1.copied();
            if self.begun[i].0 == ticket {
                found = Some(q);
            } else {
                let ghost prior = kept.deep_view();
                kept.push((self.begun[i].0, q));
                assert(kept.deep_view() =~= prior.push(self.begun@[i as int].deep_view()));
            }
            i += 1;
        }
        assert(all.take(i as int) =~= all);
        self.begun = kept;
        found
    }

    /// Collects an answer that was begun, and records it.
    pub fn collect(&mut self, ticket: Ticket, block: bool) -> (r: Option<SlowAnswer>)
        requires
            old(self).wf(),
        ensures
            old(self).inner.answers(
                Ask::Collect { ticket: ticket.0, block },
                Reply::Collected(r.deep_view()),
            ),
            final(self)@ == (match r {
                None => old(self)@,
                Some(answer) => match begun_under(old(self)@.begun, ticket.0) {
                    None => old(self)@.ending(ticket.0),
                    Some(q) => old(self)@.ending(ticket.0).noting(q, slow_record(q, answer@)),
                },
            }),
            final(self).set_up_like(old(self)),
            final(self).copy_memo == old(self).copy_memo,
            final(self).wf(),
    {
        let Some(answer) = self.inner.collect(ticket, block) else {
            return None;
        };
        if let Some(question) = self.drop_begun(ticket.0) {
            let recorded = slow_recorded(&question, &answer);
            self.record(question, recorded);
        }
        Some(answer)
    }
}

pub open spec fn begin_asked<H: Host>(h: &H, q: SlowV, r: Option<Ticket>) -> bool {
    h.answers(
        Ask::Begin(q),
        Reply::Began(
            match r {
                Some(t) => Some(t.0),
                None => None,
            },
        ),
    )
}

/// A realisation is begun only where it needs a build.
pub open spec fn realise_begun<H: Host>(
    h: &H,
    setup: Option<RealiseByValidity>,
    v: RecordingV,
    context: Seq<ContextElemV>,
    r: Option<Ticket>,
) -> bool {
    exists|served: Option<NothingToBuildV>| #[trigger]
        live_served(h, setup, v, context, served) && (if served is Some {
            r is None
        } else {
            begin_asked(h, SlowV::Realise(context), r)
        })
}

/// The source of a copy cannot have changed, or may have; and what is known of
/// the sealed objects after that was found. Without remembered copies nobody asks.
pub open spec fn source_fixed<H: Host>(
    h: &H,
    memo: Option<CopyMemo>,
    request: crate::task::FilteredCopyV,
    sealed: DirSealedV,
    b: bool,
    after: DirSealedV,
) -> bool {
    match memo {
        None => !b && after == sealed,
        Some(m) => copies::root_fixed(
            h,
            sealed,
            m.store_dir.deep_view(),
            request.root,
            b,
            after,
        ),
    }
}

/// What a filtered copy comes to: the path of a copy made before, where the
/// memo serves it; else what the host answers, remembered where the source
/// cannot have changed.
pub open spec fn copied_filtered<H: Host>(
    h: &H,
    before: Option<CopyMemo>,
    after: Option<CopyMemo>,
    request: crate::task::FilteredCopyV,
    key: Seq<u8>,
    sealed: DirSealedV,
    sealed_after: DirSealedV,
    r: Result<Seq<char>, StoreErrorV>,
) -> bool {
    exists|fixed: bool| #[trigger]
        source_fixed(h, before, request, sealed, fixed, sealed_after) && copied(
            h,
            before,
            after,
            request,
            key,
            fixed,
            r,
        )
}

/// What a filtered copy comes to whose source is fixed or not.
pub open spec fn copied<H: Host>(
    h: &H,
    before: Option<CopyMemo>,
    after: Option<CopyMemo>,
    request: crate::task::FilteredCopyV,
    key: Seq<u8>,
    fixed: bool,
    r: Result<Seq<char>, StoreErrorV>,
) -> bool {
    match before {
        None => after is None && h.answers(Ask::StoreFiltered(request), Reply::Store(r)),
        Some(m) => after matches Some(n) && exists|found: CopyLookupV| #[trigger]
            copied_by(h, m, n, request, key, found, r) && (if fixed {
                copies::looked_fixed(h, m.copies.records@, key, found)
            } else {
                found == CopyLookupV::Mutable
            }),
    }
}

pub open spec fn copied_by<H: Host>(
    h: &H,
    m: CopyMemo,
    n: CopyMemo,
    request: crate::task::FilteredCopyV,
    key: Seq<u8>,
    found: CopyLookupV,
    r: Result<Seq<char>, StoreErrorV>,
) -> bool {
    let asked = h.answers(Ask::StoreFiltered(request), Reply::Store(r));
    &&& n.store_dir == m.store_dir
    &&& match found {
        CopyLookupV::Served(path) => r == Ok::<Seq<char>, StoreErrorV>(path) && n.copies
            == m.copies,
        CopyLookupV::Mutable => asked && n.copies == m.copies,
        CopyLookupV::Miss(_) => asked && (match r {
            Ok(path) => m.copies.remembering(&n.copies, key, path),
            Err(_) => n.copies == m.copies,
        }),
    }
}

/// Once a row is recorded, the log has a row of that question and that
/// answer: one is left out only where such a row is there.
pub proof fn a_recorded_row_is_in_the_log(v: RecordingV, q: QuestionV, r: RecordedV) -> (i: int)
    ensures
        0 <= i < v.noting(q, r).log.len(),
        v.noting(q, r).log[i].0.key_material() == q.key_material(),
        v.noting(q, r).log[i].1.digest() == r.digest(),
        q.wf() && v.noting(q, r).log[i].0.wf() && !(q is WriteDrv) ==> v.noting(q, r).log[i].0
            == q,
        v.noting(q, r).log == v.log || v.noting(q, r).log == v.log.push((q, r)),
        v.noting(q, r).log == v.log ==> v.noting(q, r).deduped == after(v.deduped),
        v.noting(q, r).log != v.log ==> v.noting(q, r).deduped == v.deduped,
{
    if logged(v.log, readset::fingerprint(q, r)) {
        let i = choose|i: int|
            0 <= i < v.log.len() && readset::fingerprint((#[trigger] v.log[i]).0, v.log[i].1)
                == readset::fingerprint(q, r);
        readset::fingerprints_tell_rows_apart(q, r, v.log[i].0, v.log[i].1);
        i
    } else {
        let i = v.log.len() as int;
        assert(v.noting(q, r).log[i] == (q, r));
        i
    }
}

/// A row of a question or an answer that the log does not have is added.
pub proof fn a_new_row_is_added(v: RecordingV, q: QuestionV, r: RecordedV)
    requires
        forall|i: int|
            0 <= i < v.log.len() ==> (#[trigger] v.log[i]).0.key_material() != q.key_material()
                || v.log[i].1.digest() != r.digest(),
    ensures
        v.noting(q, r).log == v.log.push((q, r)),
        v.noting(q, r).deduped == v.deduped,
{
    if logged(v.log, readset::fingerprint(q, r)) {
        let i = choose|i: int|
            0 <= i < v.log.len() && readset::fingerprint((#[trigger] v.log[i]).0, v.log[i].1)
                == readset::fingerprint(q, r);
        readset::fingerprints_tell_rows_apart(q, r, v.log[i].0, v.log[i].1);
    }
}

/// A path that was written from two texts is known to be of neither, however
/// often it is written again.
pub proof fn a_path_of_two_texts_is_of_none(
    v: RecordingV,
    path: Seq<char>,
    a: Seq<u8>,
    b: Seq<u8>,
    c: Seq<u8>,
)
    requires
        a != b,
    ensures
        ordered::find(v.writing(path, a).writing(path, b).written, path) == Some(
            None::<Seq<u8>>,
        ),
        ordered::find(v.writing(path, a).writing(path, b).writing(path, c).written, path) == Some(
            None::<Seq<u8>>,
        ),
        ordered::find(v.written, path) is None ==> ordered::find(
            v.writing(path, a).written,
            path,
        ) == Some(Some(a)),
        ordered::find(v.writing(path, a).writing(path, a).written, path) == ordered::find(
            v.writing(path, a).written,
            path,
        ),
{
    let w = v.writing(path, a);
    let first = match ordered::find(v.written, path) {
        None => Some(a),
        Some(known) => if known == Some(a) {
            Some(a)
        } else {
            None
        },
    };
    ordered::put_found(v.written, path, first);
    let x = w.writing(path, b);
    ordered::put_found(w.written, path, None::<Seq<u8>>);
    assert(ordered::find(x.written, path) == Some(None::<Seq<u8>>));
    ordered::put_found(x.written, path, None::<Seq<u8>>);
    let again = if first == Some(a) {
        Some(a)
    } else {
        None
    };
    ordered::put_found(w.written, path, again);
}

/// What was written to other paths stays known.
pub proof fn writing_keeps_other_paths(
    v: RecordingV,
    path: Seq<char>,
    id: Seq<u8>,
    other: Seq<char>,
)
    requires
        other != path,
    ensures
        ordered::find(v.writing(path, id).written, other) == ordered::find(v.written, other),
{
    let now = match ordered::find(v.written, path) {
        None => Some(id),
        Some(known) => if known == Some(id) {
            Some(id)
        } else {
            None
        },
    };
    ordered::put_keeps(v.written, path, now, other);
}

/// A text that is kept is found under its name, with the bytes that it was
/// first kept with, and the others stay.
pub proof fn a_kept_text_is_found(
    v: RecordingV,
    id: Seq<u8>,
    bytes: Seq<u8>,
    other: Seq<u8>,
)
    requires
        named::in_order(v.aterms),
    ensures
        named::aterm_named(v.aterms, id) is None ==> named::aterm_named(
            v.keeping(id, bytes).aterms,
            id,
        ) == Some(bytes) && v.keeping(id, bytes).reused == v.reused,
        named::aterm_named(v.aterms, id) is Some ==> v.keeping(id, bytes).aterms == v.aterms
            && v.keeping(id, bytes).reused == after(v.reused),
        other != id ==> named::aterm_named(v.keeping(id, bytes).aterms, other)
            == named::aterm_named(v.aterms, other),
        named::in_order(v.keeping(id, bytes).aterms),
{
    if named::aterm_named(v.aterms, id) is None {
        named::placing_keeps_the_order(v.aterms, id, bytes, id);
        named::placing_keeps_the_order(v.aterms, id, bytes, other);
    }
}

/// A question that is begun is found under its ticket until that ends, and the
/// others stay.
pub proof fn what_is_begun_is_found(
    v: RecordingV,
    ticket: u64,
    q: QuestionV,
    other: u64,
)
    requires
        other != ticket,
    ensures
        begun_under(v.beginning(ticket, q).begun, ticket) == Some(q),
        begun_under(v.beginning(ticket, q).begun, other) == begun_under(v.begun, other),
        begun_under(v.ending(ticket).begun, ticket) is None,
        begun_under(v.ending(ticket).begun, other) == begun_under(v.begun, other),
{
    begun_without(v.begun, ticket, other);
    let w = without(v.begun, ticket);
    let b = v.beginning(ticket, q).begun;
    assert(b.last() == (ticket, q));
    assert(b.drop_last() =~= w);
}

proof fn begun_without(begun: Seq<(u64, QuestionV)>, ticket: u64, other: u64)
    requires
        other != ticket,
    ensures
        begun_under(without(begun, ticket), ticket) is None,
        begun_under(without(begun, ticket), other) == begun_under(begun, other),
    decreases begun.len(),
{
    if begun.len() > 0 {
        let rest = begun.drop_last();
        begun_without(rest, ticket, other);
        if begun.last().0 != ticket {
            let w = without(begun, ticket);
            assert(w.drop_last() =~= without(rest, ticket));
            assert(w.last() == begun.last());
        }
    }
}

/// A slow question is recorded as the question that it is, with the record that
/// its answer at once would have had.
pub proof fn slow_answers_are_recorded_alike(
    q: SlowV,
    store: Result<Seq<char>, StoreErrorV>,
    flake: Result<crate::host::FlakeCallV, StoreErrorV>,
    rewrites: Result<Seq<(Seq<char>, Seq<char>)>, StoreErrorV>,
)
    ensures
        match q {
            SlowV::Fetch(r) => row_of(Ask::Fetch(r), Reply::Store(store)) == Some(
                (
                    slow_question_of(q),
                    slow_record(slow_question_of(q), SlowAnswerV::Store(store)),
                ),
            ),
            SlowV::FetchTree(r) => row_of(Ask::FetchTree(r), Reply::Store(store)) == Some(
                (
                    slow_question_of(q),
                    slow_record(slow_question_of(q), SlowAnswerV::Store(store)),
                ),
            ),
            SlowV::Flake(f) => row_of(Ask::LockFlake(f), Reply::Flake(flake)) == Some(
                (
                    slow_question_of(q),
                    slow_record(slow_question_of(q), SlowAnswerV::Flake(flake)),
                ),
            ),
            SlowV::Realise(c) => slow_question_of(q) == QuestionV::Realise(c) && slow_record(
                slow_question_of(q),
                SlowAnswerV::Realise(rewrites),
            ) == RecordedV::Digest(digest::realise(rewrites)),
        },
{
}

/// A realisation is answered without the host's building only where every path
/// that it stands on is one that the host says it holds: an opaque path and a
/// derivation itself, an output with its derivation, the text of which was
/// written while recording.
pub proof fn a_live_realisation_stands_on_what_is_held<H: Host>(
    h: &H,
    setup: Option<RealiseByValidity>,
    v: RecordingV,
    context: Seq<ContextElemV>,
    b: NothingToBuildV,
)
    requires
        live_served(h, setup, v, context, Some(b)),
    ensures
        context.len() > 0,
        setup matches Some(s) && (!s.allow_import_from_derivation ==> forall|k: int|
            0 <= k < context.len() ==> !((#[trigger] context[k]) is Built)),
        forall|k: int|
            0 <= k < context.len() ==> (match #[trigger] context[k] {
                ContextElemV::Opaque(path) => crate::change::says_held(h, path),
                ContextElemV::DrvDeep(path) => crate::change::says_held(h, path),
                ContextElemV::Built { drv, output } => crate::change::says_held(h, drv) && (
                ordered::find(v.written, drv) matches Some(Some(id)) && named::aterm_named(
                    v.aterms,
                    id,
                ) is Some) && (stands_written(v, context[k]) matches Some(on) && (
                on.output matches Some(path) && crate::change::says_held(h, path))),
            }),
{
    let s = setup->0;
    let on = validity::unwrapped(all_stand_written(v, context));
    let n = context.len() as int;
    let needs = validity::needs_of(context, on, Seq::empty(), n);
    assert(all_valid(h, needs, true));
    if !s.allow_import_from_derivation {
        assert forall|k: int| 0 <= k < context.len() implies !((#[trigger] context[k]) is Built) by {
            if context[k] is Built {
                assert(validity::requires_ifd(context));
            }
        }
    }
    assert forall|k: int| 0 <= k < context.len() implies (match #[trigger] context[k] {
        ContextElemV::Opaque(path) => crate::change::says_held(h, path),
        ContextElemV::DrvDeep(path) => crate::change::says_held(h, path),
        ContextElemV::Built { drv, output } => crate::change::says_held(h, drv) && (ordered::find(
            v.written,
            drv,
        ) matches Some(Some(id)) && named::aterm_named(v.aterms, id) is Some) && (stands_written(
            v,
            context[k],
        ) matches Some(o) && (o.output matches Some(path) && crate::change::says_held(h, path))),
    }) by {
        assert(all_stand_written(v, context)[k] is Some);
        assert(on[k] == stands_written(v, context[k])->0);
        match context[k] {
            ContextElemV::Built { drv, output } => {
                assert(on[k].needs[0] == drv && on[k].needs[1] == on[k].output->0);
            },
            ContextElemV::Opaque(path) => {
                assert(on[k].needs[0] == path);
            },
            ContextElemV::DrvDeep(path) => {
                assert(on[k].needs[0] == path);
            },
        }
        crate::change::needs_are_said(h, context, on, needs, k);
    }
}

/// A realisation is answered by what the host answers to it, or, where nothing
/// is to be built, by the rewrites of its outputs once the host lets these be
/// read.
pub proof fn how_a_realisation_is_answered<H: Host>(
    h: &H,
    served: Option<NothingToBuildV>,
    context: Seq<ContextElemV>,
    answer: Result<Seq<(Seq<char>, Seq<char>)>, StoreErrorV>,
)
    requires
        live_realised(h, served, context, answer),
    ensures
        h.answers(Ask::Realise(context), Reply::Rewrites(answer)) || (served matches Some(b)
            && answer == Ok::<Seq<(Seq<char>, Seq<char>)>, StoreErrorV>(b.rewrites) && (
        b.outputs.len() == 0 || exists|a: Result<(), StoreErrorV>| #[trigger]
            h.answers(Ask::AllowClosures(b.outputs), Reply::Done(a)) && a is Ok)),
        served is None ==> h.answers(Ask::Realise(context), Reply::Rewrites(answer)),
{
}

/// A copy whose source may have changed is asked of the host, and neither
/// looked for nor remembered.
pub proof fn a_copy_of_what_may_change_is_not_remembered<H: Host>(
    h: &H,
    before: CopyMemo,
    after: Option<CopyMemo>,
    request: crate::task::FilteredCopyV,
    key: Seq<u8>,
    r: Result<Seq<char>, StoreErrorV>,
)
    requires
        copied(h, Some(before), after, request, key, false, r),
    ensures
        h.answers(Ask::StoreFiltered(request), Reply::Store(r)),
        after matches Some(n) && n.copies == before.copies && n.store_dir == before.store_dir,
{
}

/// A copy whose source is fixed is either the path that was remembered, held
/// and let in, or what the host answers, which is then remembered under the
/// copy's key; a failure is not remembered.
pub proof fn a_copy_of_what_is_fixed_is_remembered<H: Host>(
    h: &H,
    before: CopyMemo,
    n: CopyMemo,
    request: crate::task::FilteredCopyV,
    key: Seq<u8>,
    r: Result<Seq<char>, StoreErrorV>,
)
    requires
        copied(h, Some(before), Some(n), request, key, true, r),
    ensures
        (r matches Ok(path) && records::copied_to(before.copies.records@, key) == Some(path)
            && n.copies == before.copies) || (h.answers(
            Ask::StoreFiltered(request),
            Reply::Store(r),
        ) && (match r {
            Ok(path) => n.copies.records@ == records::copying(
                before.copies.records@,
                key,
                path,
            ) && n.copies.inserts == before.copies.inserts + 1 && n.copies.keep
                == before.copies.keep,
            Err(_) => n.copies == before.copies,
        })),
        r matches Ok(path) ==> (path.len() > 0 && !path.contains('\n') ==> records::copied_to(
            n.copies.records@,
            key,
        ) == Some(path)),
{
    if let Ok(path) = r {
        if path.len() > 0 && !path.contains('\n') {
            records::copy_reads_back(before.copies.records@, key, path);
        }
    }
}

/// A warning and a trace are told apart by these words.
pub proof fn how_emissions_are_named(m: Seq<char>)
    ensures
        EmissionV::Warn(m).spec_parts() == ("warn"@, m),
        EmissionV::Trace(m).spec_parts() == ("trace"@, m),
        EmissionV::read("warn"@, m) == Some(EmissionV::Warn(m)),
        EmissionV::read("trace"@, m) == Some(EmissionV::Trace(m)),
{
    emission_reads_back(EmissionV::Warn(m));
    emission_reads_back(EmissionV::Trace(m));
}

/// What is said is kept behind what was said before.
pub proof fn what_is_said_is_kept_in_order(v: RecordingV, a: EmissionV, b: EmissionV)
    ensures
        v.saying(a).emissions.last() == a,
        v.saying(a).emissions.drop_last() == v.emissions,
        v.saying(a).saying(b).emissions == v.emissions + seq![a, b],
        v.saying(a).log == v.log,
{
    assert(v.saying(a).emissions.drop_last() =~= v.emissions);
    assert(v.saying(a).saying(b).emissions =~= v.emissions + seq![a, b]);
}

} // verus!
