//! The host that answers an evaluation.
use vstd::prelude::*;
use crate::links::{Symlink, SymlinkV};
use crate::model;
use crate::model::Plain;
use crate::ordered::{TextMap, TextSet};
use crate::task::{
    FetchRequest,
    FetchRequestV,
    FetchTreeRequest,
    FetchTreeRequestV,
    FilteredCopy,
    FilteredCopyV,
    SearchPathEntry,
    SearchPathEntryV,
    TreeAttr,
    TreeAttrV,
};
use crate::text;
use crate::value::{ContextElem, ContextElemV, PathValue, PathValueV};

verus! {

/// The kind of a file.
#[derive(Clone, Copy, Debug, PartialEq, Eq, Structural)]
pub enum FileType {
    Regular,
    Directory,
    Symlink,
    Unknown,
}

impl View for FileType {
    type V = FileType;

    open spec fn view(&self) -> FileType {
        *self
    }
}

impl DeepView for FileType {
    type V = FileType;

    open spec fn deep_view(&self) -> FileType {
        *self
    }
}

impl Plain for FileType {
    fn copied(&self) -> (r: Self) {
        *self
    }

    fn same(&self, other: &Self) -> (r: bool) {
        *self == *other
    }
}

impl FileType {
    /// The name of this kind.
    pub open spec fn spec_name(self) -> Seq<char> {
        match self {
            FileType::Regular => "regular"@,
            FileType::Directory => "directory"@,
            FileType::Symlink => "symlink"@,
            FileType::Unknown => "unknown"@,
        }
    }

    /// The kind of that name.
    pub open spec fn read(s: Seq<char>) -> Option<FileType> {
        if s == "regular"@ {
            Some(FileType::Regular)
        } else if s == "directory"@ {
            Some(FileType::Directory)
        } else if s == "symlink"@ {
            Some(FileType::Symlink)
        } else if s == "unknown"@ {
            Some(FileType::Unknown)
        } else {
            None
        }
    }

    pub fn as_str(&self) -> (r: &'static str)
        ensures
            r@ == self.spec_name(),
    {
        match self {
            FileType::Regular => "regular",
            FileType::Directory => "directory",
            FileType::Symlink => "symlink",
            FileType::Unknown => "unknown",
        }
    }

    pub fn parse(s: &str) -> (r: Option<FileType>)
        ensures
            r == FileType::read(s@),
    {
        if text::same(s, "regular") {
            Some(FileType::Regular)
        } else if text::same(s, "directory") {
            Some(FileType::Directory)
        } else if text::same(s, "symlink") {
            Some(FileType::Symlink)
        } else if text::same(s, "unknown") {
            Some(FileType::Unknown)
        } else {
            None
        }
    }
}

/// A kind is read back by its name.
pub proof fn file_type_reads_back(k: FileType)
    ensures
        FileType::read(k.spec_name()) == Some(k),
{
    reveal_strlit("regular");
    reveal_strlit("directory");
    reveal_strlit("symlink");
    reveal_strlit("unknown");
    assert("regular"@.len() != "directory"@.len());
    assert("regular"@[0] != "symlink"@[0]);
    assert("directory"@.len() != "symlink"@.len());
    assert("regular"@[0] != "unknown"@[0]);
    assert("directory"@.len() != "unknown"@.len());
    assert("symlink"@[0] != "unknown"@[0]);
}

/// Why a store effect failed.
#[derive(Debug, PartialEq, Eq)]
pub enum StoreError {
    /// The store refused or failed.
    Failed(String),
    /// A build was needed and is not allowed.
    ImportFromDerivation(String),
    /// The host cannot do this.
    Unsupported(String),
    /// There is no store.
    NoStore,
}

/// The model of [`StoreError`].
#[verifier::ext_equal]
pub enum StoreErrorV {
    Failed(Seq<char>),
    ImportFromDerivation(Seq<char>),
    Unsupported(Seq<char>),
    NoStore,
}

impl View for StoreError {
    type V = StoreErrorV;

    open spec fn view(&self) -> StoreErrorV {
        match self {
            StoreError::Failed(a) => StoreErrorV::Failed(a@),
            StoreError::ImportFromDerivation(a) => StoreErrorV::ImportFromDerivation(a@),
            StoreError::Unsupported(a) => StoreErrorV::Unsupported(a@),
            StoreError::NoStore => StoreErrorV::NoStore,
        }
    }
}

impl DeepView for StoreError {
    type V = StoreErrorV;

    open spec fn deep_view(&self) -> StoreErrorV {
        self@
    }
}

impl Clone for StoreError {
    fn clone(&self) -> (r: Self)
        ensures
            r@ == self@,
    {
        self.copied()
    }
}

impl Plain for StoreError {
    fn copied(&self) -> (r: Self) {
        match self {
            StoreError::Failed(a) => StoreError::Failed(a.copied()),
            StoreError::ImportFromDerivation(a) => StoreError::ImportFromDerivation(a.copied()),
            StoreError::Unsupported(a) => StoreError::Unsupported(a.copied()),
            StoreError::NoStore => StoreError::NoStore,
        }
    }

    fn same(&self, other: &Self) -> (r: bool) {
        match (self, other) {
            (StoreError::Failed(a), StoreError::Failed(b)) => a.same(b),
            (StoreError::ImportFromDerivation(a), StoreError::ImportFromDerivation(b)) => a.same(b),
            (StoreError::Unsupported(a), StoreError::Unsupported(b)) => a.same(b),
            (StoreError::NoStore, StoreError::NoStore) => true,
            _ => false,
        }
    }
}

/// Why a search-path lookup failed.
#[derive(Debug, PartialEq, Eq)]
pub enum LookupError {
    NotFound(String),
    Failed(String),
    Unsupported(String),
    NoResolver,
}

/// The model of [`LookupError`].
#[verifier::ext_equal]
pub enum LookupErrorV {
    NotFound(Seq<char>),
    Failed(Seq<char>),
    Unsupported(Seq<char>),
    NoResolver,
}

impl View for LookupError {
    type V = LookupErrorV;

    open spec fn view(&self) -> LookupErrorV {
        match self {
            LookupError::NotFound(a) => LookupErrorV::NotFound(a@),
            LookupError::Failed(a) => LookupErrorV::Failed(a@),
            LookupError::Unsupported(a) => LookupErrorV::Unsupported(a@),
            LookupError::NoResolver => LookupErrorV::NoResolver,
        }
    }
}

impl DeepView for LookupError {
    type V = LookupErrorV;

    open spec fn deep_view(&self) -> LookupErrorV {
        self@
    }
}

impl Clone for LookupError {
    fn clone(&self) -> (r: Self)
        ensures
            r@ == self@,
    {
        self.copied()
    }
}

impl Plain for LookupError {
    fn copied(&self) -> (r: Self) {
        match self {
            LookupError::NotFound(a) => LookupError::NotFound(a.copied()),
            LookupError::Failed(a) => LookupError::Failed(a.copied()),
            LookupError::Unsupported(a) => LookupError::Unsupported(a.copied()),
            LookupError::NoResolver => LookupError::NoResolver,
        }
    }

    fn same(&self, other: &Self) -> (r: bool) {
        match (self, other) {
            (LookupError::NotFound(a), LookupError::NotFound(b)) => a.same(b),
            (LookupError::Failed(a), LookupError::Failed(b)) => a.same(b),
            (LookupError::Unsupported(a), LookupError::Unsupported(b)) => a.same(b),
            (LookupError::NoResolver, LookupError::NoResolver) => true,
            _ => false,
        }
    }
}

/// A derivation that was imported: its outputs by name.
#[derive(Debug, PartialEq, Eq)]
pub struct DrvSource {
    pub path: String,
    pub name: String,
    pub outputs: TextMap<String>,
}

/// The model of [`DrvSource`].
#[verifier::ext_equal]
pub struct DrvSourceV {
    pub path: Seq<char>,
    pub name: Seq<char>,
    pub outputs: Seq<(Seq<char>, Seq<char>)>,
}

impl View for DrvSource {
    type V = DrvSourceV;

    open spec fn view(&self) -> DrvSourceV {
        DrvSourceV {
            path: self.path@,
            name: self.name@,
            outputs: self.outputs@,
        }
    }
}

impl DeepView for DrvSource {
    type V = DrvSourceV;

    open spec fn deep_view(&self) -> DrvSourceV {
        self@
    }
}

impl Clone for DrvSource {
    fn clone(&self) -> (r: Self)
        ensures
            r@ == self@,
    {
        self.copied()
    }
}

impl Plain for DrvSource {
    fn copied(&self) -> (r: Self) {
        DrvSource {
            path: self.path.copied(),
            name: self.name.copied(),
            outputs: self.outputs.copied(),
        }
    }

    fn same(&self, other: &Self) -> (r: bool) {
        let s0 = self.path.same(&other.path);
        let s1 = self.name.same(&other.name);
        let s2 = self.outputs.same(&other.outputs);
        s0 && s1 && s2
    }
}

/// What an import found.
#[derive(Debug, PartialEq, Eq)]
pub enum ImportedSource {
    /// A source file: where it was found, and its text.
    Nix { path: PathValue, text: String },
    Derivation(DrvSource),
}

/// The model of [`ImportedSource`].
#[verifier::ext_equal]
pub enum ImportedSourceV {
    Nix { path: PathValueV, text: Seq<char> },
    Derivation(DrvSourceV),
}

impl View for ImportedSource {
    type V = ImportedSourceV;

    open spec fn view(&self) -> ImportedSourceV {
        match self {
            ImportedSource::Nix { path, text } => ImportedSourceV::Nix { path: path@, text: text@ },
            ImportedSource::Derivation(a) => ImportedSourceV::Derivation(a@),
        }
    }
}

impl DeepView for ImportedSource {
    type V = ImportedSourceV;

    open spec fn deep_view(&self) -> ImportedSourceV {
        self@
    }
}

impl Clone for ImportedSource {
    fn clone(&self) -> (r: Self)
        ensures
            r@ == self@,
    {
        self.copied()
    }
}

impl Plain for ImportedSource {
    fn copied(&self) -> (r: Self) {
        match self {
            ImportedSource::Nix { path, text } => ImportedSource::Nix { path: path.copied(), text: text.copied() },
            ImportedSource::Derivation(a) => ImportedSource::Derivation(a.copied()),
        }
    }

    fn same(&self, other: &Self) -> (r: bool) {
        match (self, other) {
            (ImportedSource::Nix { path: path_a, text: text_a }, ImportedSource::Nix { path: path_b, text: text_b }) => {
                let s0 = path_a.same(path_b);
                let s1 = text_a.same(text_b);
                s0 && s1
            },
            (ImportedSource::Derivation(a), ImportedSource::Derivation(b)) => a.same(b),
            _ => false,
        }
    }
}

/// A locked flake, ready to call.
#[derive(Debug, PartialEq, Eq)]
pub struct FlakeCall {
    pub lock_file: String,
    pub overrides: String,
}

/// The model of [`FlakeCall`].
#[verifier::ext_equal]
pub struct FlakeCallV {
    pub lock_file: Seq<char>,
    pub overrides: Seq<char>,
}

impl View for FlakeCall {
    type V = FlakeCallV;

    open spec fn view(&self) -> FlakeCallV {
        FlakeCallV {
            lock_file: self.lock_file@,
            overrides: self.overrides@,
        }
    }
}

impl DeepView for FlakeCall {
    type V = FlakeCallV;

    open spec fn deep_view(&self) -> FlakeCallV {
        self@
    }
}

impl Clone for FlakeCall {
    fn clone(&self) -> (r: Self)
        ensures
            r@ == self@,
    {
        self.copied()
    }
}

impl Plain for FlakeCall {
    fn copied(&self) -> (r: Self) {
        FlakeCall {
            lock_file: self.lock_file.copied(),
            overrides: self.overrides.copied(),
        }
    }

    fn same(&self, other: &Self) -> (r: bool) {
        let s0 = self.lock_file.same(&other.lock_file);
        let s1 = self.overrides.same(&other.overrides);
        s0 && s1
    }
}

/// A path in the store, and the object that holds it.
#[derive(Debug, PartialEq, Eq)]
pub struct StorePathResult {
    pub path: String,
    pub store_path: String,
}

/// The model of [`StorePathResult`].
#[verifier::ext_equal]
pub struct StorePathResultV {
    pub path: Seq<char>,
    pub store_path: Seq<char>,
}

impl View for StorePathResult {
    type V = StorePathResultV;

    open spec fn view(&self) -> StorePathResultV {
        StorePathResultV {
            path: self.path@,
            store_path: self.store_path@,
        }
    }
}

impl DeepView for StorePathResult {
    type V = StorePathResultV;

    open spec fn deep_view(&self) -> StorePathResultV {
        self@
    }
}

impl Clone for StorePathResult {
    fn clone(&self) -> (r: Self)
        ensures
            r@ == self@,
    {
        self.copied()
    }
}

impl Plain for StorePathResult {
    fn copied(&self) -> (r: Self) {
        StorePathResult {
            path: self.path.copied(),
            store_path: self.store_path.copied(),
        }
    }

    fn same(&self, other: &Self) -> (r: bool) {
        let s0 = self.path.same(&other.path);
        let s1 = self.store_path.same(&other.store_path);
        s0 && s1
    }
}

/// A question that the host may answer later.
#[derive(Debug, PartialEq, Eq)]
pub enum Slow {
    Fetch(FetchRequest),
    FetchTree(FetchTreeRequest),
    Flake(String),
    Realise(Vec<ContextElem>),
}

/// The model of [`Slow`].
#[verifier::ext_equal]
pub enum SlowV {
    Fetch(FetchRequestV),
    FetchTree(FetchTreeRequestV),
    Flake(Seq<char>),
    Realise(Seq<ContextElemV>),
}

impl View for Slow {
    type V = SlowV;

    open spec fn view(&self) -> SlowV {
        match self {
            Slow::Fetch(a) => SlowV::Fetch(a@),
            Slow::FetchTree(a) => SlowV::FetchTree(a@),
            Slow::Flake(a) => SlowV::Flake(a@),
            Slow::Realise(a) => SlowV::Realise(a.deep_view()),
        }
    }
}

impl DeepView for Slow {
    type V = SlowV;

    open spec fn deep_view(&self) -> SlowV {
        self@
    }
}

impl Clone for Slow {
    fn clone(&self) -> (r: Self)
        ensures
            r@ == self@,
    {
        self.copied()
    }
}

impl Plain for Slow {
    fn copied(&self) -> (r: Self) {
        match self {
            Slow::Fetch(a) => Slow::Fetch(a.copied()),
            Slow::FetchTree(a) => Slow::FetchTree(a.copied()),
            Slow::Flake(a) => Slow::Flake(a.copied()),
            Slow::Realise(a) => Slow::Realise(a.copied()),
        }
    }

    fn same(&self, other: &Self) -> (r: bool) {
        match (self, other) {
            (Slow::Fetch(a), Slow::Fetch(b)) => a.same(b),
            (Slow::FetchTree(a), Slow::FetchTree(b)) => a.same(b),
            (Slow::Flake(a), Slow::Flake(b)) => a.same(b),
            (Slow::Realise(a), Slow::Realise(b)) => a.same(b),
            _ => false,
        }
    }
}

/// The handle of a question that the host has begun to answer.
#[derive(Clone, Copy, Debug, PartialEq, Eq)]
pub struct Ticket(pub u64);

/// The answer to a [`Slow`] question.
#[derive(Debug, PartialEq, Eq)]
pub enum SlowAnswer {
    Store(Result<String, StoreError>),
    Flake(Result<FlakeCall, StoreError>),
    Realise(Result<TextMap<String>, StoreError>),
}

/// The model of [`SlowAnswer`].
pub enum SlowAnswerV {
    Store(Result<Seq<char>, StoreErrorV>),
    Flake(Result<FlakeCallV, StoreErrorV>),
    Realise(Result<Seq<(Seq<char>, Seq<char>)>, StoreErrorV>),
}

impl View for SlowAnswer {
    type V = SlowAnswerV;

    open spec fn view(&self) -> SlowAnswerV {
        match self {
            SlowAnswer::Store(a) => SlowAnswerV::Store(model::outcome(*a)),
            SlowAnswer::Flake(a) => SlowAnswerV::Flake(model::outcome(*a)),
            SlowAnswer::Realise(a) => SlowAnswerV::Realise(model::outcome(*a)),
        }
    }
}

impl DeepView for SlowAnswer {
    type V = SlowAnswerV;

    open spec fn deep_view(&self) -> SlowAnswerV {
        self@
    }
}

/// The links that leave each object that is sealed.
pub type Sealed = TextMap<Vec<String>>;

/// The links of each object.
pub type Links = TextMap<Vec<Symlink>>;

/// What a host is asked.
#[verifier::ext_equal]
pub enum Ask {
    ImportSource(PathValueV),
    ReadFile(PathValueV),
    ReadFileBytes(PathValueV),
    ReadDir(PathValueV),
    PathExists(PathValueV),
    DirExists(PathValueV),
    FileType(PathValueV),
    FileTypeResolved(PathValueV),
    GetEnv(Seq<char>),
    CopyToStore(PathValueV),
    StorePath(PathValueV),
    FindFile { entries: Seq<SearchPathEntryV>, name: Seq<char> },
    NixPath,
    StoreText { name: Seq<char>, contents: Seq<char>, references: Seq<Seq<char>> },
    WriteDerivation { name: Seq<char>, aterm: Seq<char> },
    Realise(Seq<ContextElemV>),
    EnsurePath(Seq<char>),
    StoreFiltered(FilteredCopyV),
    Fetch(FetchRequestV),
    FetchTree(FetchTreeRequestV),
    LockFlake(Seq<char>),
    ParseFlakeRef(Seq<char>),
    FlakeRefToString(Seq<(Seq<char>, TreeAttrV)>),
    ValidPaths(Seq<Seq<char>>),
    SealedPaths(Seq<Seq<char>>),
    AllowPaths(Seq<Seq<char>>),
    AllowClosures(Seq<Seq<char>>),
    Settle,
    Warn(Seq<char>),
    Trace(Seq<char>),
    Begin(SlowV),
    Collect { ticket: u64, block: bool },
}

/// What a host answers.
#[verifier::ext_equal]
pub enum Reply {
    Said,
    Import(Result<ImportedSourceV, Seq<char>>),
    Text(Result<Seq<char>, Seq<char>>),
    Bytes(Result<Seq<u8>, Seq<char>>),
    Entries(Result<Seq<(Seq<char>, FileType)>, Seq<char>>),
    Exists(Result<bool, Seq<char>>),
    Kind(Result<Option<FileType>, Seq<char>>),
    Resolved(Result<FileType, Seq<char>>),
    Env(Option<Seq<char>>),
    Store(Result<Seq<char>, StoreErrorV>),
    StorePath(Result<StorePathResultV, StoreErrorV>),
    Found(Result<PathValueV, LookupErrorV>),
    SearchPath(Result<Seq<SearchPathEntryV>, LookupErrorV>),
    Rewrites(Result<Seq<(Seq<char>, Seq<char>)>, StoreErrorV>),
    Done(Result<(), StoreErrorV>),
    Flake(Result<FlakeCallV, StoreErrorV>),
    Valid(Result<Seq<Seq<char>>, StoreErrorV>),
    Links(Result<Seq<(Seq<char>, Seq<SymlinkV>)>, StoreErrorV>),
    Began(Option<u64>),
    Collected(Option<SlowAnswerV>),
}

/// The world as an evaluation sees it. An embedder implements this; of its
/// answers nothing is known but that they are answers to what was asked.
pub trait Host {
    /// `reply` is an answer that this host gives to `ask`; a host of which
    /// nothing is stated may give any.
    open spec fn answers(&self, ask: Ask, reply: Reply) -> bool {
        true
    }

    fn import_source(&self, path: &PathValue) -> (r: Result<ImportedSource, String>)
        ensures
            self.answers(Ask::ImportSource(path@), Reply::Import(model::outcome(r))),
    ;

    fn read_file(&self, path: &PathValue) -> (r: Result<String, String>)
        ensures
            self.answers(Ask::ReadFile(path@), Reply::Text(model::outcome(r))),
    ;

    fn read_file_bytes(&self, path: &PathValue) -> (r: Result<Vec<u8>, String>)
        ensures
            self.answers(Ask::ReadFileBytes(path@), Reply::Bytes(model::outcome(r))),
    ;

    fn read_dir(&self, path: &PathValue) -> (r: Result<Vec<(String, FileType)>, String>)
        ensures
            self.answers(Ask::ReadDir(path@), Reply::Entries(model::outcome(r))),
    ;

    fn path_exists_checked(&self, path: &PathValue) -> (r: Result<bool, String>)
        ensures
            self.answers(Ask::PathExists(path@), Reply::Exists(model::outcome(r))),
    ;

    fn dir_exists_checked(&self, path: &PathValue) -> (r: Result<bool, String>)
        ensures
            self.answers(Ask::DirExists(path@), Reply::Exists(model::outcome(r))),
    ;

    fn file_type(&self, path: &PathValue) -> (r: Result<Option<FileType>, String>)
        ensures
            self.answers(Ask::FileType(path@), Reply::Kind(model::outcome(r))),
    ;

    fn file_type_resolved(&self, path: &PathValue) -> (r: Result<FileType, String>)
        ensures
            self.answers(Ask::FileTypeResolved(path@), Reply::Resolved(model::outcome(r))),
    ;

    fn get_env(&self, name: &str) -> (r: Option<String>)
        ensures
            self.answers(Ask::GetEnv(name@), Reply::Env(r.deep_view())),
    ;

    fn copy_to_store(&self, path: &PathValue) -> (r: Result<String, StoreError>)
        ensures
            self.answers(Ask::CopyToStore(path@), Reply::Store(model::outcome(r))),
    ;

    fn store_path(&self, path: &PathValue) -> (r: Result<StorePathResult, StoreError>)
        ensures
            self.answers(Ask::StorePath(path@), Reply::StorePath(model::outcome(r))),
    ;

    fn find_file(&self, entries: &Vec<SearchPathEntry>, name: &str) -> (r: Result<PathValue, LookupError>)
        ensures
            self.answers(Ask::FindFile { entries: entries.deep_view(), name: name@ }, Reply::Found(model::outcome(r))),
    ;

    fn nix_path(&self) -> (r: Result<Vec<SearchPathEntry>, LookupError>)
        ensures
            self.answers(Ask::NixPath, Reply::SearchPath(model::outcome(r))),
    ;

    fn store_text(&self, name: &str, contents: &str, references: &Vec<String>) -> (r: Result<String, StoreError>)
        ensures
            self.answers(Ask::StoreText { name: name@, contents: contents@, references: references.deep_view() }, Reply::Store(model::outcome(r))),
    ;

    fn write_derivation(&self, name: &str, aterm: &str) -> (r: Result<String, StoreError>)
        ensures
            self.answers(Ask::WriteDerivation { name: name@, aterm: aterm@ }, Reply::Store(model::outcome(r))),
    ;

    fn realise(&self, context: &Vec<ContextElem>) -> (r: Result<TextMap<String>, StoreError>)
        ensures
            self.answers(Ask::Realise(context.deep_view()), Reply::Rewrites(model::outcome(r))),
    ;

    fn ensure_path(&self, path: &str) -> (r: Result<(), StoreError>)
        ensures
            self.answers(Ask::EnsurePath(path@), Reply::Done(model::outcome(r))),
    ;

    fn store_filtered(&self, request: &FilteredCopy) -> (r: Result<String, StoreError>)
        ensures
            self.answers(Ask::StoreFiltered(request@), Reply::Store(model::outcome(r))),
    ;

    fn fetch(&self, request: &FetchRequest) -> (r: Result<String, StoreError>)
        ensures
            self.answers(Ask::Fetch(request@), Reply::Store(model::outcome(r))),
    ;

    fn fetch_tree(&self, request: &FetchTreeRequest) -> (r: Result<String, StoreError>)
        ensures
            self.answers(Ask::FetchTree(request@), Reply::Store(model::outcome(r))),
    ;

    fn lock_flake(&self, flake_ref: &str) -> (r: Result<FlakeCall, StoreError>)
        ensures
            self.answers(Ask::LockFlake(flake_ref@), Reply::Flake(model::outcome(r))),
    ;

    fn parse_flake_ref(&self, flake_ref: &str) -> (r: Result<String, StoreError>)
        ensures
            self.answers(Ask::ParseFlakeRef(flake_ref@), Reply::Store(model::outcome(r))),
    ;

    fn flake_ref_to_string(&self, attrs: &TextMap<TreeAttr>) -> (r: Result<String, StoreError>)
        ensures
            self.answers(Ask::FlakeRefToString(attrs@), Reply::Store(model::outcome(r))),
    ;

    /// Which of the paths the store holds.
    fn valid_paths(&self, paths: &Vec<String>) -> (r: Result<TextSet, StoreError>)
        ensures
            self.answers(Ask::ValidPaths(paths.deep_view()), Reply::Valid(model::outcome(r))),
    ;

    /// The links of each of the objects whose contents cannot change.
    fn sealed_paths(&self, objects: &Vec<String>) -> (r: Result<Links, StoreError>)
        ensures
            self.answers(Ask::SealedPaths(objects.deep_view()), Reply::Links(model::outcome(r))),
    ;

    /// Lets the evaluation read the paths.
    fn allow_paths(&self, paths: &Vec<String>) -> (r: Result<(), StoreError>)
        ensures
            self.answers(Ask::AllowPaths(paths.deep_view()), Reply::Done(model::outcome(r))),
    ;

    /// Lets the evaluation read the closures of the paths.
    fn allow_closures(&self, outputs: &Vec<String>) -> (r: Result<(), StoreError>)
        ensures
            self.answers(Ask::AllowClosures(outputs.deep_view()), Reply::Done(model::outcome(r))),
    ;

    fn settle(&self) -> (r: Result<(), StoreError>)
        ensures
            self.answers(Ask::Settle, Reply::Done(model::outcome(r))),
    ;

    fn warn(&self, message: &str)
        ensures
            self.answers(Ask::Warn(message@), Reply::Said),
    ;

    fn trace(&self, message: &str)
        ensures
            self.answers(Ask::Trace(message@), Reply::Said),
    ;

    /// Begins to answer a question, if the host can do so apart.
    fn begin(&self, question: &Slow) -> (r: Option<Ticket>)
        ensures
            self.answers(Ask::Begin(question@), Reply::Began(
                    match r {
                        Some(t) => Some(t.0),
                        None => None,
                    },
                )),
    ;

    fn collect(&self, ticket: Ticket, block: bool) -> (r: Option<SlowAnswer>)
        ensures
            self.answers(Ask::Collect { ticket: ticket.0, block }, Reply::Collected(r.deep_view())),
    ;
}

} // verus!
