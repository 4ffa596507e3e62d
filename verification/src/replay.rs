//! Asking recorded questions again.
use vstd::prelude::*;
use crate::digest;
use crate::digest::{Digest, DigestV, HashFn, ObjId, WriteDrvAnswer, WriteDrvAnswerV};
use crate::host::{Ask, Host, Links, Reply, Sealed, StoreError, StoreErrorV};
use crate::immutable;
use crate::immutable::SealedV;
use crate::links;
use crate::links::SymlinkV;
use crate::model;
use crate::model::Plain;
use crate::ordered;
use crate::ordered::{TextMap, TextSet};
use crate::purity;
use crate::purity::{PathReads, Purity, Verdict};
use crate::question;
use crate::question::{Question, QuestionV, Recorded, RecordedV, WitnessRow};
use crate::records::{DirSealed, DirSealedV};
use crate::text;
use crate::validity;
use crate::validity::{
    Fetched,
    FetchedV,
    Given,
    GivenV,
    Realisable,
    RowsV,
    StandsOn,
    StandsOnV,
    Validity,
    ValidityV,
};
use crate::value::{ContextElem, ContextElemV};

verus! {

/// The settings that an evaluation runs under.
#[derive(Debug, PartialEq, Eq)]
pub struct Settings {
    pub pure_eval: bool,
    pub restrict_eval: bool,
    pub path_reads: PathReads,
    /// Where the store is, if the embedder named it.
    pub store_dir: Option<String>,
    pub ca_derivations: bool,
    pub allow_import_from_derivation: bool,
    /// Effects are performed again whatever is recorded.
    pub repair: bool,
}

impl Default for Settings {
    fn default() -> (r: Settings)
        ensures
            !r.pure_eval,
            !r.restrict_eval,
            r.path_reads == PathReads::Direct,
            r.store_dir is None,
            !r.ca_derivations,
            r.allow_import_from_derivation,
            !r.repair,
    {
        Settings {
            pure_eval: false,
            restrict_eval: false,
            path_reads: PathReads::Direct,
            store_dir: None,
            ca_derivations: false,
            allow_import_from_derivation: true,
            repair: false,
        }
    }
}

impl Settings {
    /// The purity settings.
    pub open spec fn spec_purity(&self) -> Purity {
        Purity { pure_eval: self.pure_eval, restrict_eval: self.restrict_eval }
    }

    pub fn purity(&self) -> (r: Purity)
        ensures
            r == self.spec_purity(),
    {
        Purity { pure_eval: self.pure_eval, restrict_eval: self.restrict_eval }
    }
}

/// Why rows cannot be replayed.
#[derive(Debug, PartialEq, Eq)]
pub enum ReplayFailure {
    /// A derivation's text is not in the object store.
    MissingAterm(ObjId),
    /// What the object store has does not hash to the name.
    CorruptAterm(ObjId),
    /// It is no text.
    InvalidAterm(ObjId),
    /// It could not be read.
    Cas { aterm: ObjId, error: String },
    /// The derivation was written to another path.
    DrvPathMismatch { expected: String, written: String },
    /// The derivation could not be written.
    WriteDrv { drv_path: String, refusal: StoreError },
}

/// The model of [`ReplayFailure`].
#[verifier::ext_equal]
pub enum ReplayFailureV {
    MissingAterm(Seq<u8>),
    CorruptAterm(Seq<u8>),
    InvalidAterm(Seq<u8>),
    Cas { aterm: Seq<u8>, error: Seq<char> },
    DrvPathMismatch { expected: Seq<char>, written: Seq<char> },
    WriteDrv { drv_path: Seq<char>, refusal: StoreErrorV },
}

impl View for ReplayFailure {
    type V = ReplayFailureV;

    open spec fn view(&self) -> ReplayFailureV {
        match self {
            ReplayFailure::MissingAterm(a) => ReplayFailureV::MissingAterm(a@),
            ReplayFailure::CorruptAterm(a) => ReplayFailureV::CorruptAterm(a@),
            ReplayFailure::InvalidAterm(a) => ReplayFailureV::InvalidAterm(a@),
            ReplayFailure::Cas { aterm, error } => ReplayFailureV::Cas { aterm: aterm@, error: error@ },
            ReplayFailure::DrvPathMismatch { expected, written } => ReplayFailureV::DrvPathMismatch { expected: expected@, written: written@ },
            ReplayFailure::WriteDrv { drv_path, refusal } => ReplayFailureV::WriteDrv { drv_path: drv_path@, refusal: refusal@ },
        }
    }
}

impl DeepView for ReplayFailure {
    type V = ReplayFailureV;

    open spec fn deep_view(&self) -> ReplayFailureV {
        self@
    }
}

impl Clone for ReplayFailure {
    fn clone(&self) -> (r: Self)
        ensures
            r@ == self@,
    {
        self.copied()
    }
}

impl Plain for ReplayFailure {
    fn copied(&self) -> (r: Self) {
        match self {
            ReplayFailure::MissingAterm(a) => ReplayFailure::MissingAterm(a.copied()),
            ReplayFailure::CorruptAterm(a) => ReplayFailure::CorruptAterm(a.copied()),
            ReplayFailure::InvalidAterm(a) => ReplayFailure::InvalidAterm(a.copied()),
            ReplayFailure::Cas { aterm, error } => ReplayFailure::Cas { aterm: aterm.copied(), error: error.copied() },
            ReplayFailure::DrvPathMismatch { expected, written } => ReplayFailure::DrvPathMismatch { expected: expected.copied(), written: written.copied() },
            ReplayFailure::WriteDrv { drv_path, refusal } => ReplayFailure::WriteDrv { drv_path: drv_path.copied(), refusal: refusal.copied() },
        }
    }

    fn same(&self, other: &Self) -> (r: bool) {
        match (self, other) {
            (ReplayFailure::MissingAterm(a), ReplayFailure::MissingAterm(b)) => a.same(b),
            (ReplayFailure::CorruptAterm(a), ReplayFailure::CorruptAterm(b)) => a.same(b),
            (ReplayFailure::InvalidAterm(a), ReplayFailure::InvalidAterm(b)) => a.same(b),
            (ReplayFailure::Cas { aterm: aterm_a, error: error_a }, ReplayFailure::Cas { aterm: aterm_b, error: error_b }) => {
                let s0 = aterm_a.same(aterm_b);
                let s1 = error_a.same(error_b);
                s0 && s1
            },
            (ReplayFailure::DrvPathMismatch { expected: expected_a, written: written_a }, ReplayFailure::DrvPathMismatch { expected: expected_b, written: written_b }) => {
                let s0 = expected_a.same(expected_b);
                let s1 = written_a.same(written_b);
                s0 && s1
            },
            (ReplayFailure::WriteDrv { drv_path: drv_path_a, refusal: refusal_a }, ReplayFailure::WriteDrv { drv_path: drv_path_b, refusal: refusal_b }) => {
                let s0 = drv_path_a.same(drv_path_b);
                let s1 = refusal_a.same(refusal_b);
                s0 && s1
            },
            _ => false,
        }
    }
}

/// What writing a derivation again comes to: the digest of the answer where
/// it is the recorded one, else the failure.
pub open spec fn rewritten(expected: WriteDrvAnswerV, answer: Result<Seq<char>, StoreErrorV>) -> Result<
    DigestV,
    ReplayFailureV,
> {
    if WriteDrvAnswerV::made(answer) == expected {
        Ok(digest::store_outcome("write-drv"@, answer))
    } else {
        match answer {
            Ok(written) => Err(
                ReplayFailureV::DrvPathMismatch { expected: expected.shown(), written },
            ),
            Err(refusal) => Err(ReplayFailureV::WriteDrv { drv_path: expected.shown(), refusal }),
        }
    }
}

/// What writing a derivation again comes to, given the answer.
pub fn write_again(expected: &WriteDrvAnswer, answer: Result<String, StoreError>) -> (r: Result<
    Digest,
    ReplayFailure,
>)
    ensures
        model::outcome(r) == rewritten(expected@, model::outcome(answer)),
{
    if WriteDrvAnswer::of(&answer).same(expected) {
        return Ok(digest::digest_write_drv(&answer));
    }
    match answer {
        Ok(written) => Err(ReplayFailure::DrvPathMismatch { expected: expected.render(), written }),
        Err(refusal) => Err(ReplayFailure::WriteDrv { drv_path: expected.render(), refusal }),
    }
}

/// `r` is what asking the question again comes to: the digest of an answer
/// that the host gives to it.
pub open spec fn asked<H: Host>(
    h: &H,
    objects: Seq<(Seq<u8>, FetchedV)>,
    q: QuestionV,
    r: Result<DigestV, ReplayFailureV>,
) -> bool {
    match q {
        QuestionV::WriteDrv { name, answer, aterm } => asked_write(h, objects, name, answer, aterm, r),
        QuestionV::Tree(_) => r == Ok::<DigestV, ReplayFailureV>(digest::tree(false)),
        _ => r matches Ok(d) && (asked_read(h, q, d) || asked_store(h, q, d)),
    }
}

/// `d` is the digest of an answer that the host gives to a variable.
pub open spec fn said_env<H: Host>(h: &H, x: Seq<char>, d: DigestV) -> bool {
    exists|a: Option<Seq<char>>| #[trigger]
        h.answers(Ask::GetEnv(x), Reply::Env(a)) && d == digest::env(a)
}

/// `d` is the digest of an answer that the host gives to a realisation.
pub open spec fn said_realised<H: Host>(h: &H, x: Seq<ContextElemV>, d: DigestV) -> bool {
    exists|a: Result<Seq<(Seq<char>, Seq<char>)>, StoreErrorV>| #[trigger]
        h.answers(Ask::Realise(x), Reply::Rewrites(a)) && d == digest::realise(a)
}

/// `d` is the digest of an answer that the host gives to a path ensured.
pub open spec fn said_ensured<H: Host>(h: &H, x: Seq<char>, d: DigestV) -> bool {
    exists|a: Result<(), StoreErrorV>| #[trigger]
        h.answers(Ask::EnsurePath(x), Reply::Done(a)) && d == digest::ensure(a)
}

/// `d` is the digest of an answer that the host gives to a flake locked.
pub open spec fn said_locked<H: Host>(h: &H, x: Seq<char>, d: DigestV) -> bool {
    exists|a: Result<crate::host::FlakeCallV, StoreErrorV>| #[trigger]
        h.answers(Ask::LockFlake(x), Reply::Flake(a)) && d == digest::flake_call(a)
}

/// `d` is the digest of an answer that the host gives to a flake reference parsed.
pub open spec fn said_parsed<H: Host>(h: &H, x: Seq<char>, d: DigestV) -> bool {
    exists|a: Result<Seq<char>, StoreErrorV>| #[trigger]
        h.answers(Ask::ParseFlakeRef(x), Reply::Store(a)) && d == digest::store_outcome("store"@, a)
}

/// `d` is the digest of an answer that the host gives to a flake reference printed.
pub open spec fn said_printed<H: Host>(h: &H, x: Seq<(Seq<char>, crate::task::TreeAttrV)>, d: DigestV) -> bool {
    exists|a: Result<Seq<char>, StoreErrorV>| #[trigger]
        h.answers(Ask::FlakeRefToString(x), Reply::Store(a)) && d == digest::store_outcome("store"@, a)
}

/// `d` is the digest of an answer that the host gives to a search-path lookup.
pub open spec fn said_found<H: Host>(
    h: &H,
    entries: Seq<crate::task::SearchPathEntryV>,
    name: Seq<char>,
    d: DigestV,
) -> bool {
    exists|a: Result<crate::value::PathValueV, crate::host::LookupErrorV>| #[trigger]
        h.answers(Ask::FindFile { entries, name }, Reply::Found(a)) && d == digest::find_file(a)
}

/// `d` is the digest of an answer that the host gives to a text to store.
pub open spec fn said_stored<H: Host>(
    h: &H,
    name: Seq<char>,
    contents: Seq<char>,
    references: Seq<Seq<char>>,
    d: DigestV,
) -> bool {
    exists|a: Result<Seq<char>, StoreErrorV>| #[trigger]
        h.answers(Ask::StoreText { name, contents, references }, Reply::Store(a)) && d
            == digest::store_outcome("text"@, a)
}

/// `d` is the digest of an answer that the host gives to a read.
pub open spec fn asked_read<H: Host>(h: &H, q: QuestionV, d: DigestV) -> bool {
    match q {
        QuestionV::Import(x) => exists|a: Result<crate::host::ImportedSourceV, Seq<char>>| #[trigger]
            h.answers(Ask::ImportSource(x), Reply::Import(a)) && d == digest::import(a),
        QuestionV::ReadFile(x) => exists|a: Result<Seq<char>, Seq<char>>| #[trigger]
            h.answers(Ask::ReadFile(x), Reply::Text(a)) && d == digest::file_text(a),
        QuestionV::ReadFileBytes(x) => exists|a: Result<Seq<u8>, Seq<char>>| #[trigger]
            h.answers(Ask::ReadFileBytes(x), Reply::Bytes(a)) && d == digest::file_bytes(a),
        QuestionV::ReadDir(x) => exists|a: Result<Seq<(Seq<char>, crate::host::FileType)>, Seq<char>>| #[trigger]
            h.answers(Ask::ReadDir(x), Reply::Entries(a)) && d == digest::entries(a),
        QuestionV::PathExists(x) => exists|a: Result<bool, Seq<char>>| #[trigger]
            h.answers(Ask::PathExists(x), Reply::Exists(a)) && d == digest::exists_answer(a),
        QuestionV::DirExists(x) => exists|a: Result<bool, Seq<char>>| #[trigger]
            h.answers(Ask::DirExists(x), Reply::Exists(a)) && d == digest::exists_answer(a),
        QuestionV::FileType(x) => exists|a: Result<Option<crate::host::FileType>, Seq<char>>| #[trigger]
            h.answers(Ask::FileType(x), Reply::Kind(a)) && d == digest::kind(a),
        QuestionV::FileTypeResolved(x) => exists|a: Result<crate::host::FileType, Seq<char>>| #[trigger]
            h.answers(Ask::FileTypeResolved(x), Reply::Resolved(a)) && d == digest::kind_resolved(a),
        QuestionV::GetEnv(x) => said_env(h, x, d),
        QuestionV::FindFile { entries, name } => said_found(h, entries, name, d),
        QuestionV::NixPath => exists|
            a: Result<Seq<crate::task::SearchPathEntryV>, crate::host::LookupErrorV>,
        | #[trigger]
            h.answers(Ask::NixPath, Reply::SearchPath(a)) && d == digest::nix_path(a),
        _ => false,
    }
}

/// `d` is the digest of an answer that the host gives to a store effect.
pub open spec fn asked_store<H: Host>(h: &H, q: QuestionV, d: DigestV) -> bool {
    match q {
        QuestionV::CopyToStore(x) => exists|a: Result<Seq<char>, StoreErrorV>| #[trigger]
            h.answers(Ask::CopyToStore(x), Reply::Store(a)) && d == digest::store_outcome("store"@, a),
        QuestionV::StorePath(x) => exists|a: Result<crate::host::StorePathResultV, StoreErrorV>| #[trigger]
            h.answers(Ask::StorePath(x), Reply::StorePath(a)) && d == digest::store_path(a),
        QuestionV::Realise(x) => said_realised(h, x, d),
        QuestionV::EnsurePath(x) => said_ensured(h, x, d),
        QuestionV::StoreFiltered(x) => exists|a: Result<Seq<char>, StoreErrorV>| #[trigger]
            h.answers(Ask::StoreFiltered(x), Reply::Store(a)) && d == digest::store_outcome("store"@, a),
        QuestionV::Fetch(x) => exists|a: Result<Seq<char>, StoreErrorV>| #[trigger]
            h.answers(Ask::Fetch(x), Reply::Store(a)) && d == digest::store_outcome("store"@, a),
        QuestionV::FetchTree(x) => exists|a: Result<Seq<char>, StoreErrorV>| #[trigger]
            h.answers(Ask::FetchTree(x), Reply::Store(a)) && d == digest::store_outcome("store"@, a),
        QuestionV::LockFlake(x) => said_locked(h, x, d),
        QuestionV::ParseFlakeRef(x) => said_parsed(h, x, d),
        QuestionV::FlakeRefToString(x) => said_printed(h, x, d),
        QuestionV::StoreText { name, contents, references } => said_stored(
            h,
            name,
            contents,
            references,
            d,
        ),
        _ => false,
    }
}

/// `r` is what writing a derivation again comes to, its text being the object `aterm`.
pub open spec fn asked_write<H: Host>(
    h: &H,
    objects: Seq<(Seq<u8>, FetchedV)>,
    name: Seq<char>,
    answer: WriteDrvAnswerV,
    aterm: Seq<u8>,
    r: Result<DigestV, ReplayFailureV>,
) -> bool {
    match validity::object(objects, aterm) {
        FetchedV::Missing => r == Err::<DigestV, ReplayFailureV>(
            ReplayFailureV::MissingAterm(aterm),
        ),
        FetchedV::Corrupt => r == Err::<DigestV, ReplayFailureV>(
            ReplayFailureV::CorruptAterm(aterm),
        ),
        FetchedV::Failed(error) => r == Err::<DigestV, ReplayFailureV>(
            ReplayFailureV::Cas { aterm, error },
        ),
        FetchedV::Found(bytes) => match text::utf8_text_of(bytes) {
            None => r == Err::<DigestV, ReplayFailureV>(ReplayFailureV::InvalidAterm(aterm)),
            Some(t) => exists|a: Result<Seq<char>, StoreErrorV>| #[trigger]
                h.answers(Ask::WriteDerivation { name, aterm: t }, Reply::Store(a)) && r
                    == rewritten(answer, a),
        },
    }
}

impl Question {
    fn ask_read<H: Host>(&self, host: &H) -> (r: Option<Digest>)
        ensures
            r matches Some(d) ==> asked_read(host, self@, d@),
            r is None ==> !(self@ is Import || self@ is ReadFile || self@ is ReadFileBytes
                || self@ is ReadDir || self@ is PathExists || self@ is DirExists
                || self@ is FileType || self@ is FileTypeResolved || self@ is GetEnv
                || self@ is FindFile || self@ is NixPath),
    {
        match self {
            Question::Import(p) => {
                let a = host.import_source(&**p);
                let d = digest::digest_import(&a);
                Some(d)
            },
            Question::ReadFile(p) => {
                let a = host.read_file(&**p);
                let d = digest::digest_file(&a);
                Some(d)
            },
            Question::ReadFileBytes(p) => {
                let a = host.read_file_bytes(&**p);
                let d = digest::digest_file_bytes(&a);
                Some(d)
            },
            Question::ReadDir(p) => {
                let a = host.read_dir(&**p);
                let d = digest::digest_entries(&a);
                Some(d)
            },
            Question::PathExists(p) => {
                let a = host.path_exists_checked(&**p);
                let d = digest::digest_exists(&a);
                Some(d)
            },
            Question::DirExists(p) => {
                let a = host.dir_exists_checked(&**p);
                let d = digest::digest_exists(&a);
                Some(d)
            },
            Question::FileType(p) => {
                let a = host.file_type(&**p);
                let d = digest::digest_file_type(&a);
                Some(d)
            },
            Question::FileTypeResolved(p) => {
                let a = host.file_type_resolved(&**p);
                let d = digest::digest_file_type_resolved(&a);
                Some(d)
            },
            Question::GetEnv(p) => {
                let a = host.get_env(p.as_str());
                let d = digest::digest_env(&a);
                assert(said_env(host, p@, d@));
                Some(d)
            },
            Question::FindFile { entries, name } => {
                let a = host.find_file(entries, name.as_str());
                let d = digest::digest_find_file(&a);
                assert(said_found(host, entries.deep_view(), name@, d@));
                Some(d)
            },
            Question::NixPath => {
                let a = host.nix_path();
                Some(digest::digest_nix_path(&a))
            },
            _ => None,
        }
    }

    fn ask_store<H: Host>(&self, host: &H) -> (r: Option<Digest>)
        ensures
            r matches Some(d) ==> asked_store(host, self@, d@),
            r is None ==> !(self@ is CopyToStore || self@ is StorePath || self@ is StoreText
                || self@ is Realise || self@ is EnsurePath || self@ is StoreFiltered
                || self@ is Fetch || self@ is FetchTree || self@ is LockFlake
                || self@ is ParseFlakeRef || self@ is FlakeRefToString),
    {
        match self {
            Question::CopyToStore(p) => {
                let a = host.copy_to_store(&**p);
                let d = digest::digest_store_copy(&a);
                Some(d)
            },
            Question::StorePath(p) => {
                let a = host.store_path(&**p);
                let d = digest::digest_store_path(&a);
                Some(d)
            },
            Question::Realise(p) => {
                let a = host.realise(p);
                let d = digest::digest_realise(&a);
                assert(said_realised(host, p.deep_view(), d@));
                Some(d)
            },
            Question::EnsurePath(p) => {
                let a = host.ensure_path(p.as_str());
                let d = digest::digest_store_ensure(&a);
                assert(said_ensured(host, p@, d@));
                Some(d)
            },
            Question::StoreFiltered(p) => {
                let a = host.store_filtered(&**p);
                let d = digest::digest_store_copy(&a);
                Some(d)
            },
            Question::Fetch(p) => {
                let a = host.fetch(&**p);
                let d = digest::digest_store_copy(&a);
                Some(d)
            },
            Question::FetchTree(p) => {
                let a = host.fetch_tree(&**p);
                let d = digest::digest_store_copy(&a);
                Some(d)
            },
            Question::LockFlake(p) => {
                let a = host.lock_flake(p.as_str());
                let d = digest::digest_flake_call(&a);
                assert(said_locked(host, p@, d@));
                Some(d)
            },
            Question::ParseFlakeRef(p) => {
                let a = host.parse_flake_ref(p.as_str());
                let d = digest::digest_store_copy(&a);
                assert(said_parsed(host, p@, d@));
                Some(d)
            },
            Question::FlakeRefToString(p) => {
                let a = host.flake_ref_to_string(p);
                let d = digest::digest_store_copy(&a);
                assert(said_printed(host, p@, d@));
                Some(d)
            },
            Question::StoreText { name, contents, references } => {
                let a = host.store_text(name.as_str(), contents.as_str(), references);
                let d = digest::digest_store_text(&a);
                assert(said_stored(host, name@, contents@, references.deep_view(), d@));
                Some(d)
            },
            _ => None,
        }
    }

    /// Asks the question again, and gives the digest of the answer.
    pub fn ask<H: Host>(&self, host: &H, given: &Given) -> (r: Result<Digest, ReplayFailure>)
        ensures
            asked(host, given@.objects, self@, model::outcome(r)),
    {
        if let Some(d) = self.ask_read(host) {
            return Ok(d);
        }
        if let Some(d) = self.ask_store(host) {
            return Ok(d);
        }
        match self {
            Question::WriteDrv { name, answer, aterm } => {
                let fetched = given.object(aterm);
                match fetched {
                    Fetched::Missing => Err(ReplayFailure::MissingAterm(*aterm)),
                    Fetched::Corrupt => Err(ReplayFailure::CorruptAterm(*aterm)),
                    Fetched::Failed(error) => Err(ReplayFailure::Cas { aterm: *aterm, error }),
                    Fetched::Found(bytes) => {
                        assert(bytes.deep_view() =~= bytes@);
                        match text::utf8_text(bytes) {
                            None => Err(ReplayFailure::InvalidAterm(*aterm)),
                            Some(t) => {
                                let a = host.write_derivation(name.as_str(), t.as_str());
                                write_again(answer, a)
                            },
                        }
                    },
                }
            },
            _ => Ok(digest::digest_tree(false)),
        }
    }
}

/// The model of an optional memo of sealed objects.
pub open spec fn memo_of(memo: Option<DirSealed>) -> Option<DirSealedV> {
    match memo {
        Some(m) => Some(m@),
        None => None,
    }
}

/// The memo of sealed objects is sound where there is one.
pub open spec fn memo_wf(memo: Option<DirSealed>) -> bool {
    memo matches Some(m) ==> m.wf()
}

/// The store object that a question's ambient path lies in.
pub open spec fn object_at(q: QuestionV, dir: Option<Seq<char>>) -> Option<Seq<char>> {
    match q.ambient_path() {
        Some(p) => immutable::object_of(dir, p.path),
        None => None,
    }
}

/// The objects of the first `n` rows that are known to be sealed, each with
/// the links that leave it, and those of which nothing is known.
pub open spec fn surveyed(
    rows: RowsV,
    dir: Option<Seq<char>>,
    memo: Option<DirSealedV>,
    n: int,
) -> (SealedV, Seq<Seq<char>>)
    decreases n,
{
    if n <= 0 {
        (Seq::empty(), Seq::empty())
    } else {
        let (known, unknown) = surveyed(rows, dir, memo, n - 1);
        match object_at(rows[n - 1].0, dir) {
            None => (known, unknown),
            Some(object) => if ordered::find(known, object) is Some || unknown.contains(object) {
                (known, unknown)
            } else {
                match memo {
                    None => (known, ordered::included(unknown, object)),
                    Some(m) => match m.leaving(object) {
                        Some(leaving) => (ordered::put(known, object, leaving), unknown),
                        None => if m.declined.contains(object) {
                            (known, unknown)
                        } else {
                            (known, ordered::included(unknown, object))
                        },
                    },
                }
            },
        }
    }
}

/// The memo after the first `n` of the asked objects were declined, where
/// they were not answered.
pub open spec fn declining(
    memo: DirSealedV,
    asked: Seq<Seq<char>>,
    answered: Seq<(Seq<char>, Seq<SymlinkV>)>,
    n: int,
) -> DirSealedV
    decreases n,
{
    if n <= 0 {
        memo
    } else {
        let prior = declining(memo, asked, answered, n - 1);
        if ordered::find(answered, asked[n - 1]) is None {
            prior.declining(asked[n - 1])
        } else {
            prior
        }
    }
}

/// What is sealed after the first `n` answers.
pub open spec fn sealing(
    known: SealedV,
    answered: Seq<(Seq<char>, Seq<SymlinkV>)>,
    n: int,
) -> SealedV
    decreases n,
{
    if n <= 0 {
        known
    } else {
        ordered::put(
            sealing(known, answered, n - 1),
            answered[n - 1].0,
            links::left(answered[n - 1].1),
        )
    }
}

/// The memo after the first `n` answers.
pub open spec fn memo_sealing(
    memo: DirSealedV,
    answered: Seq<(Seq<char>, Seq<SymlinkV>)>,
    n: int,
) -> DirSealedV
    decreases n,
{
    if n <= 0 {
        memo
    } else {
        memo_sealing(memo, answered, n - 1).sealing(
            answered[n - 1].0,
            links::left(answered[n - 1].1),
        )
    }
}

/// What is sealed, and the memo, after the store was asked about objects.
pub open spec fn sealed_by(
    known: SealedV,
    asked: Seq<Seq<char>>,
    memo: Option<DirSealedV>,
    reply: Result<Seq<(Seq<char>, Seq<SymlinkV>)>, StoreErrorV>,
) -> (SealedV, Option<DirSealedV>) {
    match reply {
        Err(_) => (known, memo),
        Ok(answered) => (
            sealing(known, answered, answered.len() as int),
            match memo {
                None => None,
                Some(m) => Some(
                    memo_sealing(
                        declining(m, asked, answered, asked.len() as int),
                        answered,
                        answered.len() as int,
                    ),
                ),
            },
        ),
    }
}

/// `sealed` is what is known to be sealed of the rows' objects, and `after`
/// the memo: by the memo alone where it knows of them all, else by one
/// question for those of which it does not.
pub open spec fn sealed_for<H: Host>(
    h: &H,
    rows: RowsV,
    dir: Option<Seq<char>>,
    memo: Option<DirSealedV>,
    sealed: SealedV,
    after: Option<DirSealedV>,
) -> bool {
    let (known, unknown) = surveyed(rows, dir, memo, rows.len() as int);
    if unknown.len() == 0 {
        sealed == known && after == memo
    } else {
        exists|reply: Result<Seq<(Seq<char>, Seq<SymlinkV>)>, StoreErrorV>| #[trigger]
            h.answers(Ask::SealedPaths(unknown), Reply::Links(reply)) && (sealed, after)
                == sealed_by(known, unknown, memo, reply)
    }
}

/// Takes in what the store says of the objects it was asked about.
pub fn seal_answered(
    known: Sealed,
    asked: &Vec<String>,
    memo: &mut Option<DirSealed>,
    reply: Result<Links, StoreError>,
) -> (r: Sealed)
    requires
        known.wf(),
    ensures
        (r@, memo_of(*final(memo))) == sealed_by(
            known@,
            asked.deep_view(),
            memo_of(*old(memo)),
            model::outcome(reply),
        ),
        r.wf(),
        memo_wf(*old(memo)) ==> memo_wf(*final(memo)),
{
    let ghost before = memo_of(*memo);
    let ghost sound = memo_wf(*memo);
    let ghost all = asked.deep_view();
    let Ok(answered) = reply else {
        return known;
    };
    let ghost a = answered@;
    if let Some(m) = memo {
        let mut i: usize = 0;
        while i < asked.len()
            invariant
                i <= asked.len(),
                all == asked.deep_view(),
                a == answered@,
                before is Some,
                m@ == declining(before->0, all, a, i as int),
                sound ==> m.wf(),
            decreases asked.len() - i,
        {
            if !answered.contains_key(asked[i].as_str()) {
                m.decline(asked[i].as_str());
            }
            i += 1;
        }
    }
    let ghost middle = memo_of(*memo);
    let ghost start = known@;
    let mut sealed = known;
    let mut i: usize = 0;
    while i < answered.entries.len()
        invariant
            i <= answered.entries.len(),
            a == answered@,
            sealed@ == sealing(start, a, i as int),
            sealed.wf(),
            sound ==> memo_wf(*memo),
            match middle {
                None => memo_of(*memo) is None,
                Some(m) => memo_of(*memo) == Some(memo_sealing(m, a, i as int)),
            },
        decreases answered.entries.len() - i,
    {
        let entry = &answered.entries[i];
        let leaving = links::leaving_links(&entry.1);
        proof {
            model::deep_vec(&entry.1);
            model::deep_texts(&leaving);
            links::leaving_is_one(entry.1.deep_view(), text::texts(leaving@));
            assert(a[i as int] == (entry.0@, entry.1.deep_view()));
        }
        if let Some(m) = memo {
            m.insert(entry.0.as_str(), &leaving);
        }
        sealed.insert(entry.0.clone(), leaving);
        i += 1;
    }
    sealed
}

/// Which of the rows' objects are sealed, and the links that leave each.
pub fn sealed_objects<H: Host>(
    rows: &Vec<WitnessRow>,
    host: &H,
    store_dir: &Option<String>,
    memo: &mut Option<DirSealed>,
) -> (r: Sealed)
    ensures
        sealed_for(
            host,
            rows.deep_view(),
            store_dir.deep_view(),
            memo_of(*old(memo)),
            r@,
            memo_of(*final(memo)),
        ),
        r.wf(),
        memo_wf(*old(memo)) ==> memo_wf(*final(memo)),
{
    let ghost all = rows.deep_view();
    let ghost dir = store_dir.deep_view();
    let ghost before = memo_of(*memo);
    let mut known: Sealed = TextMap::new();
    let mut unknown = TextSet::new();
    let mut i: usize = 0;
    while i < rows.len()
        invariant
            i <= rows.len(),
            all == rows.deep_view(),
            dir == store_dir.deep_view(),
            before == memo_of(*memo),
            *memo == *old(memo),
            (known@, unknown@) == surveyed(all, dir, before, i as int),
            known.wf(),
        decreases rows.len() - i,
    {
        assert(all[i as int] == rows@[i as int].deep_view());
        if let Some(path) = rows[i].0.ambient_path() {
            if let Some(object) = immutable::store_object_of(store_dir, path.path.as_str()) {
                if !known.contains_key(object.as_str()) && !unknown.contains(object.as_str()) {
                    match &*memo {
                        None => {
                            let _ = unknown.insert(object);
                        },
                        Some(m) => match m.get(object.as_str()) {
                            Some(leaving) => {
                                known.insert(object, leaving);
                            },
                            None => {
                                if !m.declined(object.as_str()) {
                                    let _ = unknown.insert(object);
                                }
                            },
                        },
                    }
                }
            }
        }
        i += 1;
    }
    if unknown.is_empty() {
        return known;
    }
    let asked = unknown.items;
    proof {
        model::deep_texts(&asked);
    }
    let reply = host.sealed_paths(&asked);
    seal_answered(known, &asked, memo, reply)
}

/// The store paths by whose being there the first `n` rows can be answered.
pub open spec fn lines_of(
    rows: RowsV,
    objects: Seq<(Seq<u8>, FetchedV)>,
    n: int,
) -> Seq<Seq<char>>
    decreases n,
{
    if n <= 0 {
        Seq::empty()
    } else {
        let prior = lines_of(rows, objects, n - 1);
        let own = row_lines(rows, objects, rows[n - 1].0, rows[n - 1].1);
        validity::including(prior, own, own.len() as int)
    }
}

/// The paths that the first `n` elements stand on.
pub open spec fn elem_lines(
    rows: RowsV,
    objects: Seq<(Seq<u8>, FetchedV)>,
    context: Seq<ContextElemV>,
    n: int,
) -> Seq<Seq<char>>
    decreases n,
{
    if n <= 0 {
        Seq::empty()
    } else {
        elem_lines(rows, objects, context, n - 1) + (match validity::stands(
            rows,
            objects,
            context[n - 1],
        ) {
            Some(s) => s.needs,
            None => Seq::empty(),
        })
    }
}

/// The store paths by whose being there a question can be answered.
pub open spec fn row_lines(
    rows: RowsV,
    objects: Seq<(Seq<u8>, FetchedV)>,
    q: QuestionV,
    recorded: RecordedV,
) -> Seq<Seq<char>> {
    match q {
        QuestionV::WriteDrv { name, answer: WriteDrvAnswerV::Written(path), aterm } => seq![path],
        QuestionV::Realise(context) => elem_lines(rows, objects, context, context.len() as int),
        QuestionV::FetchTree(_) => Seq::empty(),
        _ => match recorded {
            RecordedV::Answer(t) => match q.named_object(t) {
                Some(object) => seq![object],
                None => Seq::empty(),
            },
            _ => Seq::empty(),
        },
    }
}

/// The entries hold what each element of the context stands on.
pub open spec fn lists(
    entries: Seq<(ContextElemV, StandsOnV)>,
    rows: RowsV,
    objects: Seq<(Seq<u8>, FetchedV)>,
    context: Seq<ContextElemV>,
) -> bool {
    forall|i: int|
        0 <= i < context.len() ==> validity::listed(entries, #[trigger] context[i])
            == validity::stands(rows, objects, context[i])
}

impl Question {
    /// Adds the store paths by whose being there the question can be answered.
    fn validity_lines(
        &self,
        recorded: &Recorded,
        realisable: &Realisable,
        Ghost(rows): Ghost<RowsV>,
        Ghost(objects): Ghost<Seq<(Seq<u8>, FetchedV)>>,
    ) -> (r: Vec<String>)
        requires
            self@ matches QuestionV::Realise(context) ==> lists(
                realisable@,
                rows,
                objects,
                context,
            ),
        ensures
            r.deep_view() == row_lines(rows, objects, self@, recorded@),
    {
        let mut out: Vec<String> = Vec::new();
        assert(out.deep_view() =~= Seq::<Seq<char>>::empty());
        match self {
            Question::WriteDrv { name: _, answer: WriteDrvAnswer::Written(path), aterm: _ } => {
                out.push(path.clone());
                assert(out.deep_view() =~= seq![path@]);
            },
            Question::Realise(context) => {
                let ghost c = context.deep_view();
                let mut i: usize = 0;
                while i < context.len()
                    invariant
                        i <= context.len(),
                        c == context.deep_view(),
                        lists(realisable@, rows, objects, c),
                        out.deep_view() == elem_lines(rows, objects, c, i as int),
                    decreases context.len() - i,
                {
                    assert(c[i as int] == context@[i as int]@);
                    let ghost prior = out.deep_view();
                    match realisable.get(&context[i]) {
                        Some(s) => {
                            let mut more = s.needs.copied();
                            let ghost start = out@;
                            let ghost tail = more@;
                            out.append(&mut more);
                            proof {
                                assert(out@ =~= start + tail);
                                assert(out.deep_view() =~= prior + s.needs.deep_view()) by {
                                    assert(forall|k: int|
                                        0 <= k < tail.len() ==> tail[k]@
                                            == s.needs.deep_view()[k]) by {
                                        assert forall|k: int| 0 <= k < tail.len() implies tail[k]@
                                            == s.needs.deep_view()[k] by {
                                            assert(model::deep(tail)[k] == tail[k]@);
                                        }
                                    }
                                }
                            }
                        },
                        None => {
                            assert(prior + Seq::<Seq<char>>::empty() =~= prior);
                        },
                    }
                    i += 1;
                }
            },
            Question::FetchTree(_) => {},
            _ => {
                if let Recorded::Answer(t) = recorded {
                    if let Some(object) = self.named_object(t.as_str()) {
                        out.push(object);
                        assert(out.deep_view() =~= seq![object@]);
                    }
                }
            },
        }
        out
    }
}

/// What is known of the store before the first row: what it says of the
/// paths, where there are any.
pub open spec fn begun(reply: Result<Seq<Seq<char>>, StoreErrorV>) -> ValidityV {
    match reply {
        Ok(present) => ValidityV { present, mounted: Seq::empty(), store_answers: true },
        Err(_) => ValidityV {
            present: Seq::empty(),
            mounted: Seq::empty(),
            store_answers: false,
        },
    }
}

/// `s` is what is known of the store before the first row.
pub open spec fn begins_with<H: Host>(h: &H, lines: Seq<Seq<char>>, s: ValidityV) -> bool {
    if lines.len() == 0 {
        s == begun(Ok(Seq::empty()))
    } else {
        exists|reply: Result<Seq<Seq<char>>, StoreErrorV>| #[trigger]
            h.answers(Ask::ValidPaths(lines), Reply::Valid(reply)) && s == begun(reply)
    }
}

/// What is known of the store, given what it says of the paths.
pub fn begin(reply: Result<TextSet, StoreError>) -> (v: Validity)
    ensures
        v@ == begun(model::outcome(reply)),
{
    match reply {
        Ok(present) => Validity { present, mounted: TextSet::new(), store_answers: true },
        Err(_) => Validity {
            present: TextSet::new(),
            mounted: TextSet::new(),
            store_answers: false,
        },
    }
}

/// Asks the store, once, for all the paths by which rows can be answered.
pub fn present_objects<H: Host>(
    rows: &Vec<WitnessRow>,
    realisable: &Realisable,
    given: &Given,
    host: &H,
) -> (v: Validity)
    requires
        forall|elem: ContextElemV|
            validity::occurs(rows.deep_view(), rows@.len() as int, elem)
                ==> #[trigger] validity::listed(realisable@, elem) == validity::stands(
                rows.deep_view(),
                given@.objects,
                elem,
            ),
    ensures
        begins_with(
            host,
            lines_of(rows.deep_view(), given@.objects, rows@.len() as int),
            v@,
        ),
{
    let ghost all = rows.deep_view();
    let ghost objects = given@.objects;
    let mut lines = TextSet::new();
    let mut i: usize = 0;
    while i < rows.len()
        invariant
            i <= rows.len(),
            all == rows.deep_view(),
            objects == given@.objects,
            forall|elem: ContextElemV|
                validity::occurs(all, all.len() as int, elem) ==> #[trigger] validity::listed(
                    realisable@,
                    elem,
                ) == validity::stands(all, objects, elem),
            lines@ == lines_of(all, objects, i as int),
        decreases rows.len() - i,
    {
        proof {
            assert(all[i as int] == rows@[i as int].deep_view());
            if let QuestionV::Realise(context) = all[i as int].0 {
                assert forall|k: int| 0 <= k < context.len() implies validity::listed(
                    realisable@,
                    #[trigger] context[k],
                ) == validity::stands(all, objects, context[k]) by {
                    assert(context.contains(context[k]));
                    assert(validity::occurs(all, all.len() as int, context[k]));
                }
                assert(lists(realisable@, all, objects, context));
            }
        }
        let own = rows[i].0.validity_lines(&rows[i].1, realisable, Ghost(all), Ghost(objects));
        validity::include_all(&mut lines, &own);
        i += 1;
    }
    if lines.is_empty() {
        return begin(Ok(TextSet::new()));
    }
    let paths = lines.items;
    proof {
        model::deep_texts(&paths);
    }
    let reply = host.valid_paths(&paths);
    begin(reply)
}

/// What a replay of rows goes by.
pub struct Scene<'a> {
    pub rows: &'a Vec<WitnessRow>,
    pub given: &'a Given,
    pub store_dir: &'a Option<String>,
    pub ca_derivations: bool,
    pub sealed: Sealed,
    pub realisable: Realisable,
}

/// The model of [`Scene`].
#[verifier::ext_equal]
pub struct SceneV {
    pub rows: RowsV,
    pub given: GivenV,
    pub dir: Option<Seq<char>>,
    pub ca: bool,
    pub sealed: SealedV,
}

impl View for Scene<'_> {
    type V = SceneV;

    open spec fn view(&self) -> SceneV {
        SceneV {
            rows: self.rows.deep_view(),
            given: self.given@,
            dir: self.store_dir.deep_view(),
            ca: self.ca_derivations,
            sealed: self.sealed@,
        }
    }
}

impl Scene<'_> {
    /// What each element stands on is known.
    pub open spec fn wf(&self) -> bool {
        forall|elem: ContextElemV|
            validity::occurs(self@.rows, self@.rows.len() as int, elem)
                ==> #[trigger] validity::listed(self.realisable@, elem) == validity::stands(
                self@.rows,
                self@.given.objects,
                elem,
            )
    }
}

/// A derivation's path answers for it where the store holds it.
pub open spec fn checked_write<H: Host>(
    h: &H,
    s: ValidityV,
    path: Seq<char>,
    t: ValidityV,
    r: Option<DigestV>,
) -> bool {
    exists|b: bool| #[trigger]
        validity::held(h, s, path, t, b) && r == (if b {
            Some(digest::store_outcome("write-drv"@, Ok(path)))
        } else {
            None
        })
}

/// What each element of a context stands on.
pub open spec fn resolved_in(e: SceneV, context: Seq<ContextElemV>) -> Seq<Option<StandsOnV>> {
    Seq::new(context.len(), |i: int| validity::stands(e.rows, e.given.objects, context[i]))
}

/// What a realisation comes to with nothing to build answers for it, once
/// the host lets its outputs be read.
pub open spec fn allowed_outputs<H: Host>(
    h: &H,
    b: Option<validity::NothingToBuildV>,
    r: Option<DigestV>,
) -> bool {
    match b {
        None => r is None,
        Some(n) => if n.outputs.len() == 0 {
            r == Some(digest::realise(Ok(n.rewrites)))
        } else {
            exists|a: Result<(), StoreErrorV>| #[trigger]
                h.answers(Ask::AllowClosures(n.outputs), Reply::Done(a)) && r == (if a is Ok {
                    Some(digest::realise(Ok(n.rewrites)))
                } else {
                    None
                })
        },
    }
}

/// A realisation is answered where all that it stands on is there.
pub open spec fn checked_realise<H: Host>(
    h: &H,
    e: SceneV,
    s: ValidityV,
    context: Seq<ContextElemV>,
    t: ValidityV,
    r: Option<DigestV>,
) -> bool {
    let resolved = resolved_in(e, context);
    if !validity::all_resolved(resolved) {
        r is None && t == s
    } else {
        let on = validity::unwrapped(resolved);
        let n = context.len() as int;
        exists|b: bool| #[trigger]
            validity::all_held(h, s, validity::needs_of(context, on, s.mounted, n), t, b)
                && allowed_outputs(
                h,
                if b {
                    validity::comes_to(context, on, e.ca, e.given.placeholders, n)
                } else {
                    None
                },
                r,
            )
    }
}

/// A locked tree is its record, and mounted from then on, once the host lets
/// it be read.
pub open spec fn checked_tree<H: Host>(
    h: &H,
    s: ValidityV,
    path: Seq<char>,
    d: DigestV,
    t: ValidityV,
    r: Option<DigestV>,
) -> bool {
    exists|a: Result<(), StoreErrorV>| #[trigger]
        h.answers(Ask::AllowPaths(seq![path]), Reply::Done(a)) && (if a is Ok {
            t == s.mounting(path) && r == Some(d)
        } else {
            t == s && r is None
        })
}

/// A copy or a pinned fetch is its record where the store holds the object
/// and the host lets it be read.
pub open spec fn checked_object<H: Host>(
    h: &H,
    s: ValidityV,
    object: Seq<char>,
    d: DigestV,
    t: ValidityV,
    r: Option<DigestV>,
) -> bool {
    exists|b: bool| #[trigger]
        validity::held(h, s, object, t, b) && (if b {
            exists|a: Result<(), StoreErrorV>| #[trigger]
                h.answers(Ask::AllowPaths(seq![object]), Reply::Done(a)) && r == (if a is Ok {
                    Some(d)
                } else {
                    None
                })
        } else {
            r is None
        })
}

/// The source of a copy may have changed under its spelling.
pub open spec fn may_have_changed(e: SceneV, q: QuestionV) -> bool {
    (q is CopyToStore || q is StoreFiltered) && (q.ambient_path() matches Some(p)
        && !immutable::fixed(p, e.sealed, e.dir))
}

/// From what is known in `s`, the row is answered by what the store holds,
/// or not, and `t` is known.
pub open spec fn checked<H: Host>(
    h: &H,
    e: SceneV,
    s: ValidityV,
    q: QuestionV,
    recorded: RecordedV,
    t: ValidityV,
    r: Option<DigestV>,
) -> bool {
    match q {
        QuestionV::WriteDrv { name, answer: WriteDrvAnswerV::Written(path), aterm } => checked_write(
            h,
            s,
            path,
            t,
            r,
        ),
        QuestionV::Realise(context) => checked_realise(h, e, s, context, t, r),
        _ => if may_have_changed(e, q) {
            r is None && t == s
        } else {
            match recorded {
                RecordedV::Digest(_) => r is None && t == s,
                RecordedV::Answer(answer) => match q.named_object(answer) {
                    None => r is None && t == s,
                    Some(object) => if q is FetchTree {
                        checked_tree(h, s, object, recorded.digest(), t, r)
                    } else {
                        checked_object(h, s, object, recorded.digest(), t, r)
                    },
                },
            }
        },
    }
}

fn one_path(path: &str) -> (v: Vec<String>)
    ensures
        v.deep_view() == seq![path@],
{
    let mut v: Vec<String> = Vec::new();
    v.push(path.to_owned());
    assert(v.deep_view() =~= seq![path@]);
    v
}

fn allow_served<H: Host>(served: Option<validity::NothingToBuild>, host: &H) -> (r: Option<Digest>)
    ensures
        allowed_outputs(host, served.deep_view(), r.deep_view()),
{
    let Some(served) = served else {
        return None;
    };
    assert(served@.outputs.len() == served.outputs@.len());
    if served.outputs.len() != 0 {
        let a = host.allow_closures(&served.outputs);
        let ghost said = model::outcome(a);
        assert(host.answers(Ask::AllowClosures(served@.outputs), Reply::Done(said)));
        if a.is_err() {
            return None;
        }
    }
    Some(digest::digest_realise(&Ok(served.rewrites)))
}

fn realise_by_validity<H: Host>(
    context: &Vec<ContextElem>,
    scene: &Scene<'_>,
    v: &mut Validity,
    host: &H,
) -> (r: Option<Digest>)
    requires
        lists(
            scene.realisable@,
            scene@.rows,
            scene@.given.objects,
            context.deep_view(),
        ),
    ensures
        checked_realise(
            host,
            scene@,
            old(v)@,
            context.deep_view(),
            final(v)@,
            r.deep_view(),
        ),
{
    let ghost c = context.deep_view();
    let ghost e = scene@;
    let ghost want = resolved_in(e, c);
    let mut resolved: Vec<Option<StandsOn>> = Vec::new();
    let mut i: usize = 0;
    while i < context.len()
        invariant
            i <= context.len(),
            c == context.deep_view(),
            e == scene@,
            want == resolved_in(e, c),
            lists(scene.realisable@, e.rows, e.given.objects, c),
            resolved.len() == i,
            forall|j: int| 0 <= j < i ==> (#[trigger] resolved@[j]).deep_view() == want[j],
        decreases context.len() - i,
    {
        assert(c[i as int] == context@[i as int]@);
        match scene.realisable.get(&context[i]) {
            Some(s) => resolved.push(Some(s.copied())),
            None => resolved.push(None),
        }
        i += 1;
    }
    assert(resolved.deep_view() =~= want);
    let Some(on) = validity::resolve_all(resolved) else {
        return None;
    };
    assert(on.deep_view().len() == on@.len());
    let ghost n = c.len() as int;
    let ghost rest = validity::unwrapped(want);
    let ghost s = v@;
    let needs = validity::paths_needed(context, &on, &v.mounted);
    let held = v.holds_all(host, &needs);
    assert(validity::all_held(
        host,
        s,
        validity::needs_of(c, rest, s.mounted, n),
        v@,
        held,
    ));
    let served = validity::nothing_to_build(
        context,
        &on,
        held,
        scene.ca_derivations,
        &scene.given.placeholders,
    );
    allow_served(served, host)
}

impl Question {
    /// The digest of the answer, where what the store holds shows that it is
    /// what asking would give.
    pub fn answer_by_validity<H: Host>(
        &self,
        recorded: &Recorded,
        scene: &Scene<'_>,
        v: &mut Validity,
        host: &H,
    ) -> (r: Option<Digest>)
        requires
            self@ matches QuestionV::Realise(context) ==> lists(
                scene.realisable@,
                scene@.rows,
                scene@.given.objects,
                context,
            ),
        ensures
            checked(
                host,
                scene@,
                old(v)@,
                self@,
                recorded@,
                final(v)@,
                r.deep_view(),
            ),
    {
        let ghost s = v@;
        match self {
            Question::WriteDrv { name: _, answer: WriteDrvAnswer::Written(path), aterm: _ } => {
                let b = v.holds(host, path.as_str());
                assert(validity::held(host, s, path@, v@, b));
                return if b {
                    Some(digest::digest_store_outcome("write-drv", Ok(path.as_str())))
                } else {
                    None
                };
            },
            Question::Realise(context) => {
                return realise_by_validity(context, scene, v, host);
            },
            Question::CopyToStore(_) | Question::StoreFiltered(_) => {
                if let Some(path) = self.ambient_path() {
                    if !immutable::immutable_root(path, &scene.sealed, scene.store_dir) {
                        return None;
                    }
                }
            },
            _ => {},
        }
        let Recorded::Answer(answer) = recorded else {
            return None;
        };
        let Some(object) = self.named_object(answer.as_str()) else {
            return None;
        };
        let tree = match self {
            Question::FetchTree(_) => true,
            _ => false,
        };
        if tree {
            let a = host.allow_paths(&one_path(object.as_str()));
            let ghost said = model::outcome(a);
            assert(host.answers(Ask::AllowPaths(seq![object@]), Reply::Done(said)));
            if a.is_err() {
                return None;
            }
            let _ = v.mounted.insert(object);
            return Some(recorded.digest());
        }
        let b = v.holds(host, object.as_str());
        assert(validity::held(host, s, object@, v@, b));
        if !b {
            return None;
        }
        let a = host.allow_paths(&one_path(object.as_str()));
        let ghost said = model::outcome(a);
        assert(host.answers(Ask::AllowPaths(seq![object@]), Reply::Done(said)));
        if a.is_err() {
            return None;
        }
        Some(recorded.digest())
    }
}

/// From what is known in `s`, the row replays to `r`, and `t` is known: a
/// fixed read to its record; else by what the store holds; else by asking.
pub open spec fn row_step<H: Host>(
    h: &H,
    e: SceneV,
    s: ValidityV,
    q: QuestionV,
    recorded: RecordedV,
    t: ValidityV,
    r: Result<RecordedV, ReplayFailureV>,
) -> bool {
    if q.replays(e.sealed, e.dir) {
        r == Ok::<RecordedV, ReplayFailureV>(recorded) && t == s
    } else {
        exists|c: Option<DigestV>| #[trigger]
            checked(h, e, s, q, recorded, t, c) && (match c {
                Some(d) => r == Ok::<RecordedV, ReplayFailureV>(RecordedV::Digest(d)),
                None => asked_to(h, e, q, r),
            })
    }
}

/// The row is asked, and comes to `r`.
pub open spec fn asked_to<H: Host>(
    h: &H,
    e: SceneV,
    q: QuestionV,
    r: Result<RecordedV, ReplayFailureV>,
) -> bool {
    asked(
        h,
        e.given.objects,
        q,
        match r {
            Ok(RecordedV::Digest(d)) => Ok(d),
            Ok(RecordedV::Answer(_)) => Err(ReplayFailureV::MissingAterm(Seq::empty())),
            Err(f) => Err(f),
        },
    ) && !(r matches Ok(RecordedV::Answer(_)))
}

/// The first `n` rows replay to `out`, and `t` is known.
pub open spec fn rows_to<H: Host>(
    h: &H,
    e: SceneV,
    s: ValidityV,
    n: int,
    t: ValidityV,
    out: Seq<RecordedV>,
) -> bool
    decreases n,
{
    if n <= 0 {
        t == s && out.len() == 0
    } else {
        &&& out.len() == n
        &&& exists|u: ValidityV|
            rows_to(h, e, s, n - 1, u, out.drop_last()) && #[trigger] row_step(
                h,
                e,
                u,
                e.rows[n - 1].0,
                e.rows[n - 1].1,
                t,
                Ok(out.last()),
            )
    }
}

/// All the rows replay to `out`.
pub open spec fn rows_come<H: Host>(h: &H, e: SceneV, s: ValidityV, out: Seq<RecordedV>) -> bool {
    exists|t: ValidityV| #[trigger] rows_done(h, e, s, t, out)
}

/// The first row that fails, fails so.
pub open spec fn rows_fail<H: Host>(h: &H, e: SceneV, s: ValidityV, f: ReplayFailureV) -> bool {
    exists|k: int, u: ValidityV, t: ValidityV, out: Seq<RecordedV>|
        0 <= k < e.rows.len() && rows_to(h, e, s, k, u, out) && #[trigger] row_failed(
            h,
            e,
            u,
            k,
            t,
            out,
            f,
        )
}

/// All the rows replay to `out`, and `t` is known.
pub open spec fn rows_done<H: Host>(
    h: &H,
    e: SceneV,
    s: ValidityV,
    t: ValidityV,
    out: Seq<RecordedV>,
) -> bool {
    rows_to(h, e, s, e.rows.len() as int, t, out)
}

/// The row at `k`, after rows that replayed to `out`, fails.
pub open spec fn row_failed<H: Host>(
    h: &H,
    e: SceneV,
    u: ValidityV,
    k: int,
    t: ValidityV,
    out: Seq<RecordedV>,
    f: ReplayFailureV,
) -> bool {
    row_step(h, e, u, e.rows[k].0, e.rows[k].1, t, Err(f))
}

proof fn rows_step<H: Host>(
    h: &H,
    e: SceneV,
    s: ValidityV,
    n: int,
    u: ValidityV,
    t: ValidityV,
    out: Seq<RecordedV>,
    r: RecordedV,
)
    requires
        0 < n <= e.rows.len(),
        rows_to(h, e, s, n - 1, u, out),
        row_step(h, e, u, e.rows[n - 1].0, e.rows[n - 1].1, t, Ok(r)),
        out.len() == n - 1,
    ensures
        rows_to(h, e, s, n, t, out.push(r)),
{
    assert(out.push(r).drop_last() =~= out);
    assert(out.push(r).last() == r);
}

/// The settings forbid replaying the rows: a realisation would build while
/// that is not allowed, or a question would not be asked.
pub open spec fn forbidden(rows: RowsV, settings: Settings) -> bool {
    ||| !settings.allow_import_from_derivation && exists|i: int|
        0 <= i < rows.len() && ((#[trigger] rows[i]).0 matches QuestionV::Realise(context)
            && validity::requires_ifd(context))
    ||| settings.spec_purity().on() && exists|i: int|
        0 <= i < rows.len() && purity::judged(
            (#[trigger] rows[i]).0.need(),
            settings.spec_purity(),
            settings.path_reads,
        ) !is Ask
}

fn is_forbidden(rows: &Vec<WitnessRow>, settings: &Settings) -> (r: bool)
    ensures
        r == forbidden(rows.deep_view(), *settings),
{
    let ghost all = rows.deep_view();
    let purity = settings.purity();
    let judge = purity.any();
    let mut i: usize = 0;
    while i < rows.len()
        invariant
            i <= rows.len(),
            all == rows.deep_view(),
            purity == settings.spec_purity(),
            judge == purity.on(),
            forall|j: int|
                0 <= j < i && !settings.allow_import_from_derivation ==> !((
                #[trigger] all[j]).0 matches QuestionV::Realise(context)
                    && validity::requires_ifd(context)),
            forall|j: int|
                0 <= j < i && judge ==> purity::judged(
                    (#[trigger] all[j]).0.need(),
                    purity,
                    settings.path_reads,
                ) is Ask,
        decreases rows.len() - i,
    {
        assert(all[i as int] == rows@[i as int].deep_view());
        if !settings.allow_import_from_derivation {
            if let Question::Realise(context) = &rows[i].0 {
                if validity::context_requires_ifd(context) {
                    return true;
                }
            }
        }
        if judge {
            let verdict = purity::verdict(&rows[i].0.as_need_path(), purity, settings.path_reads);
            match verdict {
                Verdict::Ask => {},
                _ => {
                    assert(purity::judged(all[i as int].0.need(), purity, settings.path_reads) !is Ask);
                    return true;
                },
            }
        }
        i += 1;
    }
    false
}

/// `r` is what replaying the rows comes to, and `after` the memo of sealed
/// objects: nothing where the settings forbid it; else what is recorded of
/// each answer now.
pub open spec fn replayed<H: Host>(
    h: &H,
    rows: RowsV,
    given: GivenV,
    settings: Settings,
    memo: Option<DirSealedV>,
    after: Option<DirSealedV>,
    r: Result<Option<Seq<RecordedV>>, ReplayFailureV>,
) -> bool {
    if forbidden(rows, settings) {
        r == Ok::<Option<Seq<RecordedV>>, ReplayFailureV>(None) && after == memo
    } else {
        exists|sealed: SealedV, s: ValidityV|
            {
                &&& #[trigger] sealed_for(
                    h,
                    rows,
                    settings.store_dir.deep_view(),
                    memo,
                    sealed,
                    after,
                )
                &&& #[trigger] begins_with(
                    h,
                    lines_of(rows, given.objects, rows.len() as int),
                    s,
                )
                &&& replayed_in(
                    h,
                    SceneV {
                        rows,
                        given,
                        dir: settings.store_dir.deep_view(),
                        ca: settings.ca_derivations,
                        sealed,
                    },
                    s,
                    r,
                )
            }
    }
}

/// `r` is what replaying the rows comes to, from what is known in `s`.
pub open spec fn replayed_in<H: Host>(
    h: &H,
    e: SceneV,
    s: ValidityV,
    r: Result<Option<Seq<RecordedV>>, ReplayFailureV>,
) -> bool {
    match r {
        Ok(Some(out)) => rows_come(h, e, s, out),
        Ok(None) => false,
        Err(f) => rows_fail(h, e, s, f),
    }
}

/// The model of what a replay returns.
pub open spec fn outcome_of(r: Result<Option<Vec<Recorded>>, ReplayFailure>) -> Result<
    Option<Seq<RecordedV>>,
    ReplayFailureV,
> {
    match r {
        Ok(Some(v)) => Ok(Some(v.deep_view())),
        Ok(None) => Ok(None),
        Err(f) => Err(f@),
    }
}

fn replay_row<H: Host>(scene: &Scene<'_>, v: &mut Validity, host: &H, i: usize) -> (r: Result<
    Recorded,
    ReplayFailure,
>)
    requires
        scene.wf(),
        i < scene.rows.len(),
    ensures
        row_step(
            host,
            scene@,
            old(v)@,
            scene@.rows[i as int].0,
            scene@.rows[i as int].1,
            final(v)@,
            model::outcome(r),
        ),
{
    let question = &scene.rows[i].0;
    let recorded = &scene.rows[i].1;
    let ghost e = scene@;
    let ghost s = v@;
    proof {
        assert(e.rows[i as int] == scene.rows@[i as int].deep_view());
        if let QuestionV::Realise(context) = question@ {
            assert forall|k: int| 0 <= k < context.len() implies validity::listed(
                scene.realisable@,
                #[trigger] context[k],
            ) == validity::stands(e.rows, e.given.objects, context[k]) by {
                assert(context.contains(context[k]));
                assert(validity::occurs(e.rows, e.rows.len() as int, context[k]));
            }
            assert(lists(scene.realisable@, e.rows, e.given.objects, context));
        }
    }
    if question.replays_from_record(&scene.sealed, scene.store_dir) {
        return Ok(recorded.copied());
    }
    let by_validity = question.answer_by_validity(recorded, scene, v, host);
    assert(checked(host, e, s, question@, recorded@, v@, by_validity.deep_view()));
    match by_validity {
        Some(d) => Ok(Recorded::Digest(d)),
        None => {
            let a = question.ask(host, scene.given);
            let ghost said = model::outcome(a);
            assert(asked(host, e.given.objects, question@, said));
            match a {
                Ok(d) => {
                    let r = Recorded::Digest(d);
                    assert(asked_to(host, e, question@, Ok(r@)));
                    Ok(r)
                },
                Err(f) => {
                    assert(asked_to(host, e, question@, Err(f@)));
                    Err(f)
                },
            }
        },
    }
}

/// Replays the rows: what is recorded of each answer now.
pub fn replay_rows<H: Host>(
    rows: &Vec<WitnessRow>,
    host: &H,
    settings: &Settings,
    given: &Given,
    memo: &mut Option<DirSealed>,
) -> (r: Result<Option<Vec<Recorded>>, ReplayFailure>)
    ensures
        replayed(
            host,
            rows.deep_view(),
            given@,
            *settings,
            memo_of(*old(memo)),
            memo_of(*final(memo)),
            outcome_of(r),
        ),
        r matches Ok(Some(v)) ==> v@.len() == rows@.len(),
        memo_wf(*old(memo)) ==> memo_wf(*final(memo)),
{
    if is_forbidden(rows, settings) {
        return Ok(None);
    }
    let realisable = validity::realisable(rows, given);
    let sealed = sealed_objects(rows, host, &settings.store_dir, memo);
    let mut v = present_objects(rows, &realisable, given, host);
    let ghost start = v@;
    let scene = Scene {
        rows,
        given,
        store_dir: &settings.store_dir,
        ca_derivations: settings.ca_derivations,
        sealed,
        realisable,
    };
    let ghost e = scene@;
    let mut out: Vec<Recorded> = Vec::new();
    let mut i: usize = 0;
    assert(out.deep_view() =~= Seq::<RecordedV>::empty());
    while i < rows.len()
        invariant
            i <= rows.len(),
            scene.wf(),
            e == scene@,
            scene.rows == rows,
            e.rows == rows.deep_view(),
            e == (SceneV {
                rows: rows.deep_view(),
                given: given@,
                dir: settings.store_dir.deep_view(),
                ca: settings.ca_derivations,
                sealed: e.sealed,
            }),
            !forbidden(rows.deep_view(), *settings),
            memo_wf(*old(memo)) ==> memo_wf(*memo),
            sealed_for(
                host,
                rows.deep_view(),
                settings.store_dir.deep_view(),
                memo_of(*old(memo)),
                e.sealed,
                memo_of(*memo),
            ),
            begins_with(
                host,
                lines_of(rows.deep_view(), given@.objects, rows@.len() as int),
                start,
            ),
            out.len() == i,
            rows_to(host, e, start, i as int, v@, out.deep_view()),
        decreases rows.len() - i,
    {
        let ghost u = v@;
        let ghost prior = out.deep_view();
        match replay_row(&scene, &mut v, host, i) {
            Ok(r) => {
                proof {
                    rows_step(host, e, start, i + 1, u, v@, prior, r@);
                }
                out.push(r);
                assert(out.deep_view() =~= prior.push(r@));
            },
            Err(f) => {
                proof {
                    assert(row_failed(host, e, u, i as int, v@, prior, f@));
                    assert(rows_fail(host, e, start, f@));
                    assert(replayed_in(host, e, start, Err(f@)));
                }
                return Err(f);
            },
        }
        i += 1;
    }
    proof {
        assert(rows_done(host, e, start, v@, out.deep_view()));
        assert(rows_come(host, e, start, out.deep_view()));
        assert(replayed_in(host, e, start, Ok(Some(out.deep_view()))));
    }
    Ok(Some(out))
}

/// A host that answers each question in one way.
pub open spec fn steady<H: Host>(h: &H) -> bool {
    forall|ask: Ask, a: Reply, b: Reply| #[trigger]
        h.answers(ask, a) && #[trigger] h.answers(ask, b) ==> a == b
}

/// The row was recorded of this host, answers being hashed by `hash`: what is
/// recorded is the digest of an answer that it gives. A tree is still one that cannot change, and a
/// realisation that the store answers for comes to what is recorded.
pub open spec fn told_row<H: Host>(
    h: &H,
    e: SceneV,
    q: QuestionV,
    recorded: RecordedV,
    hash: HashFn,
) -> bool {
    let bytes = recorded.digest().settled(hash);
    match q {
        QuestionV::Tree(_) => q.replays(e.sealed, e.dir),
        QuestionV::Realise(context) => {
            &&& told(h, e, q, bytes, hash)
            &&& forall|s: ValidityV, t: ValidityV, c: DigestV| #[trigger]
                checked_realise(h, e, s, context, t, Some(c)) ==> c.settled(hash) == bytes
        },
        _ => told(h, e, q, bytes, hash),
    }
}

/// The host gives an answer with that digest.
pub open spec fn told<H: Host>(
    h: &H,
    e: SceneV,
    q: QuestionV,
    bytes: Seq<u8>,
    hash: HashFn,
) -> bool {
    exists|d: DigestV| #[trigger]
        asked(h, e.given.objects, q, Ok(d)) && d.settled(hash) == bytes
}

/// All the rows were recorded of this host.
pub open spec fn told_rows<H: Host>(h: &H, e: SceneV, hash: HashFn) -> bool {
    forall|i: int|
        0 <= i < e.rows.len() ==> told_row(h, e, (#[trigger] e.rows[i]).0, e.rows[i].1, hash)
}

proof fn read_once<H: Host>(h: &H, q: QuestionV, a: DigestV, b: DigestV)
    requires
        steady(h),
        asked_read(h, q, a),
        asked_read(h, q, b),
    ensures
        a == b,
{
}

proof fn stored_once<H: Host>(h: &H, q: QuestionV, a: DigestV, b: DigestV)
    requires
        steady(h),
        asked_store(h, q, a),
        asked_store(h, q, b),
    ensures
        a == b,
{
}

/// A steady host's answer to a question comes to one thing.
pub proof fn asked_once<H: Host>(
    h: &H,
    objects: Seq<(Seq<u8>, FetchedV)>,
    q: QuestionV,
    a: Result<DigestV, ReplayFailureV>,
    b: Result<DigestV, ReplayFailureV>,
)
    requires
        steady(h),
        asked(h, objects, q, a),
        asked(h, objects, q, b),
    ensures
        a == b,
{
    match q {
        QuestionV::WriteDrv { .. } => {},
        QuestionV::Tree(_) => {},
        _ => {
            if asked_read(h, q, a->Ok_0) {
                read_once(h, q, a->Ok_0, b->Ok_0);
            } else {
                stored_once(h, q, a->Ok_0, b->Ok_0);
            }
        },
    }
}

proof fn row_comes_again<H: Host>(
    h: &H,
    e: SceneV,
    s: ValidityV,
    i: int,
    t: ValidityV,
    r: Result<RecordedV, ReplayFailureV>,
    hash: HashFn,
)
    requires
        steady(h),
        told_rows(h, e, hash),
        0 <= i < e.rows.len(),
        row_step(h, e, s, e.rows[i].0, e.rows[i].1, t, r),
    ensures
        r matches Ok(o) && o.digest().settled(hash) == e.rows[i].1.digest().settled(hash),
{
    let q = e.rows[i].0;
    let recorded = e.rows[i].1;
    assert(told_row(h, e, q, recorded, hash));
    let bytes = recorded.digest().settled(hash);
    if !q.replays(e.sealed, e.dir) {
        let c = choose|c: Option<DigestV>| #[trigger]
            checked(h, e, s, q, recorded, t, c) && (match c {
                Some(d) => r == Ok::<RecordedV, ReplayFailureV>(RecordedV::Digest(d)),
                None => asked_to(h, e, q, r),
            });
        match c {
            Some(d) => {
                assert(d.settled(hash) == bytes);
            },
            None => {
                let now: Result<DigestV, ReplayFailureV> = match r {
                    Ok(RecordedV::Digest(d)) => Ok(d),
                    Ok(RecordedV::Answer(_)) => Err(ReplayFailureV::MissingAterm(Seq::empty())),
                    Err(f) => Err(f),
                };
                let d = choose|d: DigestV| #[trigger]
                    asked(h, e.given.objects, q, Ok(d)) && d.settled(hash) == bytes;
                asked_once(h, e.given.objects, q, now, Ok(d));
            },
        }
    }
}

proof fn rows_come_again<H: Host>(
    h: &H,
    e: SceneV,
    s: ValidityV,
    n: int,
    t: ValidityV,
    out: Seq<RecordedV>,
    hash: HashFn,
)
    requires
        steady(h),
        told_rows(h, e, hash),
        0 <= n <= e.rows.len(),
        rows_to(h, e, s, n, t, out),
    ensures
        out.len() == n,
        forall|i: int|
            0 <= i < n ==> (#[trigger] out[i]).digest().settled(hash)
                == e.rows[i].1.digest().settled(hash),
    decreases n,
{
    if n > 0 {
        let u = choose|u: ValidityV|
            rows_to(h, e, s, n - 1, u, out.drop_last()) && #[trigger] row_step(
                h,
                e,
                u,
                e.rows[n - 1].0,
                e.rows[n - 1].1,
                t,
                Ok(out.last()),
            );
        rows_come_again(h, e, s, n - 1, u, out.drop_last(), hash);
        row_comes_again(h, e, u, n - 1, t, Ok(out.last()), hash);
        assert forall|i: int| 0 <= i < n implies (#[trigger] out[i]).digest().settled(hash)
            == e.rows[i].1.digest().settled(hash) by {
            if i < n - 1 {
                assert(out[i] == out.drop_last()[i]);
            }
        }
    }
}

/// Where the world answers as it did, no row fails, and each comes to what is recorded.
pub proof fn an_unchanged_world_replays<H: Host>(
    h: &H,
    e: SceneV,
    s: ValidityV,
    r: Result<Option<Seq<RecordedV>>, ReplayFailureV>,
    hash: HashFn,
)
    requires
        steady(h),
        told_rows(h, e, hash),
        replayed_in(h, e, s, r),
    ensures
        r matches Ok(Some(out)) && out.len() == e.rows.len() && forall|i: int|
            0 <= i < out.len() ==> (#[trigger] out[i]).digest().settled(hash)
                == e.rows[i].1.digest().settled(hash),
{
    match r {
        Ok(Some(out)) => {
            let t = choose|t: ValidityV| #[trigger] rows_done(h, e, s, t, out);
            rows_come_again(h, e, s, e.rows.len() as int, t, out, hash);
        },
        Ok(None) => {},
        Err(f) => {
            let (k, u, t, out) = choose|k: int, u: ValidityV, t: ValidityV, out: Seq<RecordedV>|
                0 <= k < e.rows.len() && rows_to(h, e, s, k, u, out) && #[trigger] row_failed(
                    h,
                    e,
                    u,
                    k,
                    t,
                    out,
                    f,
                );
            row_comes_again(h, e, u, k, t, Err(f), hash);
        },
    }
}

} // verus!
