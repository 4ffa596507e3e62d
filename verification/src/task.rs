//! What an evaluation asks for: paths, copies, fetches and store effects.
use vstd::prelude::*;
use std::rc::Rc;
use crate::host::FileType;
use crate::model::Plain;
use crate::number;
use crate::ordered;
use crate::ordered::TextMap;
use crate::text;
use crate::value::{ContextElem, ContextElemV, PathValue, PathValueV};

verus! {

/// One entry of a search path.
#[derive(Debug, PartialEq, Eq)]
pub struct SearchPathEntry {
    pub prefix: String,
    pub path: String,
}

/// The model of [`SearchPathEntry`].
#[verifier::ext_equal]
pub struct SearchPathEntryV {
    pub prefix: Seq<char>,
    pub path: Seq<char>,
}

impl View for SearchPathEntry {
    type V = SearchPathEntryV;

    open spec fn view(&self) -> SearchPathEntryV {
        SearchPathEntryV {
            prefix: self.prefix@,
            path: self.path@,
        }
    }
}

impl DeepView for SearchPathEntry {
    type V = SearchPathEntryV;

    open spec fn deep_view(&self) -> SearchPathEntryV {
        self@
    }
}

impl Clone for SearchPathEntry {
    fn clone(&self) -> (r: Self)
        ensures
            r@ == self@,
    {
        self.copied()
    }
}

impl Plain for SearchPathEntry {
    fn copied(&self) -> (r: Self) {
        SearchPathEntry {
            prefix: self.prefix.copied(),
            path: self.path.copied(),
        }
    }

    fn same(&self, other: &Self) -> (r: bool) {
        let s0 = self.prefix.same(&other.prefix);
        let s1 = self.path.same(&other.path);
        s0 && s1
    }
}

/// A path that a filter accepted, and its kind.
#[derive(Debug, PartialEq, Eq)]
pub struct AcceptedPath {
    pub path: String,
    pub file_type: FileType,
}

/// The model of [`AcceptedPath`].
#[verifier::ext_equal]
pub struct AcceptedPathV {
    pub path: Seq<char>,
    pub file_type: FileType,
}

impl View for AcceptedPath {
    type V = AcceptedPathV;

    open spec fn view(&self) -> AcceptedPathV {
        AcceptedPathV {
            path: self.path@,
            file_type: self.file_type,
        }
    }
}

impl DeepView for AcceptedPath {
    type V = AcceptedPathV;

    open spec fn deep_view(&self) -> AcceptedPathV {
        self@
    }
}

impl Clone for AcceptedPath {
    fn clone(&self) -> (r: Self)
        ensures
            r@ == self@,
    {
        self.copied()
    }
}

impl Plain for AcceptedPath {
    fn copied(&self) -> (r: Self) {
        AcceptedPath {
            path: self.path.copied(),
            file_type: self.file_type.copied(),
        }
    }

    fn same(&self, other: &Self) -> (r: bool) {
        let s0 = self.path.same(&other.path);
        let s1 = self.file_type.same(&other.file_type);
        s0 && s1
    }
}

/// How a copied path is hashed.
#[derive(Clone, Copy, Debug, PartialEq, Eq, Structural)]
pub enum PathMethod {
    /// The bytes of one file.
    Flat,
    /// The serialisation of a tree.
    NixArchive,
}

impl View for PathMethod {
    type V = PathMethod;

    open spec fn view(&self) -> PathMethod {
        *self
    }
}

impl DeepView for PathMethod {
    type V = PathMethod;

    open spec fn deep_view(&self) -> PathMethod {
        *self
    }
}

impl Plain for PathMethod {
    fn copied(&self) -> (r: Self) {
        *self
    }

    fn same(&self, other: &Self) -> (r: bool) {
        *self == *other
    }
}

impl PathMethod {
    /// The name of this kind.
    pub open spec fn spec_name(self) -> Seq<char> {
        match self {
            PathMethod::Flat => "flat"@,
            PathMethod::NixArchive => "nar"@,
        }
    }

    /// The kind of that name.
    pub open spec fn read(s: Seq<char>) -> Option<PathMethod> {
        if s == "flat"@ {
            Some(PathMethod::Flat)
        } else if s == "nar"@ {
            Some(PathMethod::NixArchive)
        } else {
            None
        }
    }

    pub fn as_str(&self) -> (r: &'static str)
        ensures
            r@ == self.spec_name(),
    {
        match self {
            PathMethod::Flat => "flat",
            PathMethod::NixArchive => "nar",
        }
    }

    pub fn parse(s: &str) -> (r: Option<PathMethod>)
        ensures
            r == PathMethod::read(s@),
    {
        if text::same(s, "flat") {
            Some(PathMethod::Flat)
        } else if text::same(s, "nar") {
            Some(PathMethod::NixArchive)
        } else {
            None
        }
    }
}

/// A kind is read back by its name.
pub proof fn path_method_reads_back(k: PathMethod)
    ensures
        PathMethod::read(k.spec_name()) == Some(k),
{
    reveal_strlit("flat");
    reveal_strlit("nar");
    assert("flat"@.len() != "nar"@.len());
}

/// A copy of a path into the store, filtered or not.
#[derive(Debug, PartialEq, Eq)]
pub struct FilteredCopy {
    pub root: Rc<PathValue>,
    pub name: String,
    pub method: PathMethod,
    /// The paths the filter accepted; `None` without a filter.
    pub accepted: Option<Vec<AcceptedPath>>,
    pub expected_sha256: Option<String>,
    pub inherit_references: bool,
}

/// The model of [`FilteredCopy`].
#[verifier::ext_equal]
pub struct FilteredCopyV {
    pub root: PathValueV,
    pub name: Seq<char>,
    pub method: PathMethod,
    pub accepted: Option<Seq<AcceptedPathV>>,
    pub expected_sha256: Option<Seq<char>>,
    pub inherit_references: bool,
}

impl View for FilteredCopy {
    type V = FilteredCopyV;

    open spec fn view(&self) -> FilteredCopyV {
        FilteredCopyV {
            root: self.root@,
            name: self.name@,
            method: self.method,
            accepted: self.accepted.deep_view(),
            expected_sha256: self.expected_sha256.deep_view(),
            inherit_references: self.inherit_references,
        }
    }
}

impl DeepView for FilteredCopy {
    type V = FilteredCopyV;

    open spec fn deep_view(&self) -> FilteredCopyV {
        self@
    }
}

impl Clone for FilteredCopy {
    fn clone(&self) -> (r: Self)
        ensures
            r@ == self@,
    {
        self.copied()
    }
}

impl Plain for FilteredCopy {
    fn copied(&self) -> (r: Self) {
        FilteredCopy {
            root: self.root.copied(),
            name: self.name.copied(),
            method: self.method.copied(),
            accepted: self.accepted.copied(),
            expected_sha256: self.expected_sha256.copied(),
            inherit_references: self.inherit_references.copied(),
        }
    }

    fn same(&self, other: &Self) -> (r: bool) {
        let s0 = self.root.same(&other.root);
        let s1 = self.name.same(&other.name);
        let s2 = self.method.same(&other.method);
        let s3 = self.accepted.same(&other.accepted);
        let s4 = self.expected_sha256.same(&other.expected_sha256);
        let s5 = self.inherit_references.same(&other.inherit_references);
        s0 && s1 && s2 && s3 && s4 && s5
    }
}

/// What a fetch unpacks.
#[derive(Clone, Copy, Debug, PartialEq, Eq, Structural)]
pub enum FetchKind {
    File,
    Tarball,
}

impl View for FetchKind {
    type V = FetchKind;

    open spec fn view(&self) -> FetchKind {
        *self
    }
}

impl DeepView for FetchKind {
    type V = FetchKind;

    open spec fn deep_view(&self) -> FetchKind {
        *self
    }
}

impl Plain for FetchKind {
    fn copied(&self) -> (r: Self) {
        *self
    }

    fn same(&self, other: &Self) -> (r: bool) {
        *self == *other
    }
}

impl FetchKind {
    /// The name of this kind.
    pub open spec fn spec_name(self) -> Seq<char> {
        match self {
            FetchKind::File => "file"@,
            FetchKind::Tarball => "tarball"@,
        }
    }

    /// The kind of that name.
    pub open spec fn read(s: Seq<char>) -> Option<FetchKind> {
        if s == "file"@ {
            Some(FetchKind::File)
        } else if s == "tarball"@ {
            Some(FetchKind::Tarball)
        } else {
            None
        }
    }

    pub fn as_str(&self) -> (r: &'static str)
        ensures
            r@ == self.spec_name(),
    {
        match self {
            FetchKind::File => "file",
            FetchKind::Tarball => "tarball",
        }
    }

    pub fn parse(s: &str) -> (r: Option<FetchKind>)
        ensures
            r == FetchKind::read(s@),
    {
        if text::same(s, "file") {
            Some(FetchKind::File)
        } else if text::same(s, "tarball") {
            Some(FetchKind::Tarball)
        } else {
            None
        }
    }
}

/// A kind is read back by its name.
pub proof fn fetch_kind_reads_back(k: FetchKind)
    ensures
        FetchKind::read(k.spec_name()) == Some(k),
{
    reveal_strlit("file");
    reveal_strlit("tarball");
    assert("file"@.len() != "tarball"@.len());
}

impl FetchKind {
    /// The builtin that fetches this kind.
    pub open spec fn spec_who(self) -> Seq<char> {
        match self {
            FetchKind::File => "fetchurl"@,
            FetchKind::Tarball => "fetchTarball"@,
        }
    }

    pub fn who(&self) -> (r: &'static str)
        ensures
            r@ == self.spec_who(),
    {
        match self {
            FetchKind::File => "fetchurl",
            FetchKind::Tarball => "fetchTarball",
        }
    }
}

/// A fetch of one location.
#[derive(Debug, PartialEq, Eq)]
pub struct FetchRequest {
    pub url: String,
    pub name: String,
    pub kind: FetchKind,
    pub expected_sha256: Option<String>,
}

/// The model of [`FetchRequest`].
#[verifier::ext_equal]
pub struct FetchRequestV {
    pub url: Seq<char>,
    pub name: Seq<char>,
    pub kind: FetchKind,
    pub expected_sha256: Option<Seq<char>>,
}

impl View for FetchRequest {
    type V = FetchRequestV;

    open spec fn view(&self) -> FetchRequestV {
        FetchRequestV {
            url: self.url@,
            name: self.name@,
            kind: self.kind,
            expected_sha256: self.expected_sha256.deep_view(),
        }
    }
}

impl DeepView for FetchRequest {
    type V = FetchRequestV;

    open spec fn deep_view(&self) -> FetchRequestV {
        self@
    }
}

impl Clone for FetchRequest {
    fn clone(&self) -> (r: Self)
        ensures
            r@ == self@,
    {
        self.copied()
    }
}

impl Plain for FetchRequest {
    fn copied(&self) -> (r: Self) {
        FetchRequest {
            url: self.url.copied(),
            name: self.name.copied(),
            kind: self.kind.copied(),
            expected_sha256: self.expected_sha256.copied(),
        }
    }

    fn same(&self, other: &Self) -> (r: bool) {
        let s0 = self.url.same(&other.url);
        let s1 = self.name.same(&other.name);
        let s2 = self.kind.same(&other.kind);
        let s3 = self.expected_sha256.same(&other.expected_sha256);
        s0 && s1 && s2 && s3
    }
}

/// An attribute of a tree to fetch.
#[derive(Debug, PartialEq, Eq)]
pub enum TreeAttr {
    Str(String),
    Bool(bool),
    Int(u64),
}

/// The model of [`TreeAttr`].
#[verifier::ext_equal]
pub enum TreeAttrV {
    Str(Seq<char>),
    Bool(bool),
    Int(u64),
}

impl View for TreeAttr {
    type V = TreeAttrV;

    open spec fn view(&self) -> TreeAttrV {
        match self {
            TreeAttr::Str(a) => TreeAttrV::Str(a@),
            TreeAttr::Bool(a) => TreeAttrV::Bool(*a),
            TreeAttr::Int(a) => TreeAttrV::Int(*a),
        }
    }
}

impl DeepView for TreeAttr {
    type V = TreeAttrV;

    open spec fn deep_view(&self) -> TreeAttrV {
        self@
    }
}

impl Clone for TreeAttr {
    fn clone(&self) -> (r: Self)
        ensures
            r@ == self@,
    {
        self.copied()
    }
}

impl Plain for TreeAttr {
    fn copied(&self) -> (r: Self) {
        match self {
            TreeAttr::Str(a) => TreeAttr::Str(a.copied()),
            TreeAttr::Bool(a) => TreeAttr::Bool(a.copied()),
            TreeAttr::Int(a) => TreeAttr::Int(a.copied()),
        }
    }

    fn same(&self, other: &Self) -> (r: bool) {
        match (self, other) {
            (TreeAttr::Str(a), TreeAttr::Str(b)) => a.same(b),
            (TreeAttr::Bool(a), TreeAttr::Bool(b)) => a.same(b),
            (TreeAttr::Int(a), TreeAttr::Int(b)) => a.same(b),
            _ => false,
        }
    }
}

impl TreeAttrV {
    /// The name of the attribute's type.
    pub open spec fn tag(self) -> Seq<char> {
        match self {
            TreeAttrV::Str(s) => "str"@,
            TreeAttrV::Bool(b) => "bool"@,
            TreeAttrV::Int(n) => "int"@,
        }
    }

    /// The attribute as text.
    pub open spec fn shown(self) -> Seq<char> {
        match self {
            TreeAttrV::Str(s) => s,
            TreeAttrV::Bool(b) => if b {
                "true"@
            } else {
                "false"@
            },
            TreeAttrV::Int(n) => number::decimal(n as nat),
        }
    }

    /// The attribute of a type's name and a text.
    pub open spec fn read(tag: Seq<char>, s: Seq<char>) -> Option<TreeAttrV> {
        if tag == "str"@ {
            Some(TreeAttrV::Str(s))
        } else if tag == "bool"@ {
            if s == "true"@ {
                Some(TreeAttrV::Bool(true))
            } else if s == "false"@ {
                Some(TreeAttrV::Bool(false))
            } else {
                None
            }
        } else if tag == "int"@ {
            match number::read(s) {
                Some(n) => Some(TreeAttrV::Int(n)),
                None => None,
            }
        } else {
            None
        }
    }
}

/// An attribute is read back as it was shown.
pub proof fn tree_attr_reads_back(a: TreeAttrV)
    ensures
        TreeAttrV::read(a.tag(), a.shown()) == Some(a),
{
    reveal_strlit("str");
    reveal_strlit("bool");
    reveal_strlit("int");
    reveal_strlit("true");
    reveal_strlit("false");
    assert("str"@[0] != "int"@[0]);
    assert("str"@.len() != "bool"@.len());
    assert("int"@.len() != "bool"@.len());
    assert("true"@.len() != "false"@.len());
    if let TreeAttrV::Int(n) = a {
        number::decimal_reads_back(n);
    }
}

impl TreeAttr {
    pub fn tag(&self) -> (r: &'static str)
        ensures
            r@ == self@.tag(),
    {
        match self {
            TreeAttr::Str(_) => "str",
            TreeAttr::Bool(_) => "bool",
            TreeAttr::Int(_) => "int",
        }
    }

    pub fn text(&self) -> (r: String)
        ensures
            r@ == self@.shown(),
    {
        match self {
            TreeAttr::Str(s) => s.clone(),
            TreeAttr::Bool(b) => if *b {
                "true".to_owned()
            } else {
                "false".to_owned()
            },
            TreeAttr::Int(n) => number::show(*n),
        }
    }

    pub fn parse(tag: &str, s: &str) -> (r: Option<TreeAttr>)
        ensures
            r.deep_view() == TreeAttrV::read(tag@, s@),
    {
        if text::same(tag, "str") {
            Some(TreeAttr::Str(s.to_owned()))
        } else if text::same(tag, "bool") {
            if text::same(s, "true") {
                Some(TreeAttr::Bool(true))
            } else if text::same(s, "false") {
                Some(TreeAttr::Bool(false))
            } else {
                None
            }
        } else if text::same(tag, "int") {
            match number::parse(s) {
                Some(n) => Some(TreeAttr::Int(n)),
                None => None,
            }
        } else {
            None
        }
    }
}

/// Which builtin asked for a tree.
#[derive(Clone, Copy, Debug, PartialEq, Eq, Structural)]
pub enum TreeFetcher {
    /// A tree whose reference may move.
    Tree,
    /// A git tree whose reference may move.
    Git,
    /// A tree that its attributes lock.
    FinalTree,
}

impl View for TreeFetcher {
    type V = TreeFetcher;

    open spec fn view(&self) -> TreeFetcher {
        *self
    }
}

impl DeepView for TreeFetcher {
    type V = TreeFetcher;

    open spec fn deep_view(&self) -> TreeFetcher {
        *self
    }
}

impl Plain for TreeFetcher {
    fn copied(&self) -> (r: Self) {
        *self
    }

    fn same(&self, other: &Self) -> (r: bool) {
        *self == *other
    }
}

impl TreeFetcher {
    /// The name of this kind.
    pub open spec fn spec_name(self) -> Seq<char> {
        match self {
            TreeFetcher::Tree => "fetchTree"@,
            TreeFetcher::Git => "fetchGit"@,
            TreeFetcher::FinalTree => "fetchFinalTree"@,
        }
    }

    /// The kind of that name.
    pub open spec fn read(s: Seq<char>) -> Option<TreeFetcher> {
        if s == "fetchTree"@ {
            Some(TreeFetcher::Tree)
        } else if s == "fetchGit"@ {
            Some(TreeFetcher::Git)
        } else if s == "fetchFinalTree"@ {
            Some(TreeFetcher::FinalTree)
        } else {
            None
        }
    }

    pub fn as_str(&self) -> (r: &'static str)
        ensures
            r@ == self.spec_name(),
    {
        match self {
            TreeFetcher::Tree => "fetchTree",
            TreeFetcher::Git => "fetchGit",
            TreeFetcher::FinalTree => "fetchFinalTree",
        }
    }

    pub fn parse(s: &str) -> (r: Option<TreeFetcher>)
        ensures
            r == TreeFetcher::read(s@),
    {
        if text::same(s, "fetchTree") {
            Some(TreeFetcher::Tree)
        } else if text::same(s, "fetchGit") {
            Some(TreeFetcher::Git)
        } else if text::same(s, "fetchFinalTree") {
            Some(TreeFetcher::FinalTree)
        } else {
            None
        }
    }
}

/// A kind is read back by its name.
pub proof fn tree_fetcher_reads_back(k: TreeFetcher)
    ensures
        TreeFetcher::read(k.spec_name()) == Some(k),
{
    reveal_strlit("fetchTree");
    reveal_strlit("fetchGit");
    reveal_strlit("fetchFinalTree");
    assert("fetchTree"@.len() != "fetchGit"@.len());
    assert("fetchTree"@.len() != "fetchFinalTree"@.len());
    assert("fetchGit"@.len() != "fetchFinalTree"@.len());
}

/// A tree to fetch.
#[derive(Debug, PartialEq, Eq)]
pub struct FetchTreeRequest {
    pub attrs: TextMap<TreeAttr>,
    pub fetcher: TreeFetcher,
}

/// The model of [`FetchTreeRequest`].
#[verifier::ext_equal]
pub struct FetchTreeRequestV {
    pub attrs: Seq<(Seq<char>, TreeAttrV)>,
    pub fetcher: TreeFetcher,
}

impl View for FetchTreeRequest {
    type V = FetchTreeRequestV;

    open spec fn view(&self) -> FetchTreeRequestV {
        FetchTreeRequestV {
            attrs: self.attrs@,
            fetcher: self.fetcher,
        }
    }
}

impl DeepView for FetchTreeRequest {
    type V = FetchTreeRequestV;

    open spec fn deep_view(&self) -> FetchTreeRequestV {
        self@
    }
}

impl Clone for FetchTreeRequest {
    fn clone(&self) -> (r: Self)
        ensures
            r@ == self@,
    {
        self.copied()
    }
}

impl Plain for FetchTreeRequest {
    fn copied(&self) -> (r: Self) {
        FetchTreeRequest {
            attrs: self.attrs.copied(),
            fetcher: self.fetcher.copied(),
        }
    }

    fn same(&self, other: &Self) -> (r: bool) {
        let s0 = self.attrs.same(&other.attrs);
        let s1 = self.fetcher.same(&other.fetcher);
        s0 && s1
    }
}

impl FetchTreeRequestV {
    /// A final tree whose `narHash` fixes its contents.
    pub open spec fn locked_final(self) -> bool {
        self.fetcher == TreeFetcher::FinalTree && ordered::find(self.attrs, "narHash"@) is Some
    }
}

impl FetchTreeRequest {
    pub fn locked_final(&self) -> (r: bool)
        ensures
            r == self@.locked_final(),
    {
        let locked = self.attrs.contains_key("narHash");
        locked && self.fetcher == TreeFetcher::FinalTree
    }
}

/// A hash algorithm.
#[derive(Clone, Copy, Debug, PartialEq, Eq, Structural)]
pub enum HashAlgo {
    Md5,
    Sha1,
    Sha256,
    Sha512,
}

impl View for HashAlgo {
    type V = HashAlgo;

    open spec fn view(&self) -> HashAlgo {
        *self
    }
}

impl DeepView for HashAlgo {
    type V = HashAlgo;

    open spec fn deep_view(&self) -> HashAlgo {
        *self
    }
}

impl Plain for HashAlgo {
    fn copied(&self) -> (r: Self) {
        *self
    }

    fn same(&self, other: &Self) -> (r: bool) {
        *self == *other
    }
}

/// What an evaluation needs of the world, or says to it.
#[derive(Debug, PartialEq, Eq)]
pub enum NeedPath {
    Import(Rc<PathValue>),
    Contents(Rc<PathValue>),
    HashFile { path: Rc<PathValue>, algo: HashAlgo },
    Exists(Rc<PathValue>),
    DirExists(Rc<PathValue>),
    Entries(Rc<PathValue>),
    Kind(Rc<PathValue>),
    MaybeKind(Rc<PathValue>),
    Env(String),
    StorePath(Rc<PathValue>),
    UseStorePath(Rc<PathValue>),
    StoreText { name: String, contents: String, references: Vec<String> },
    WriteDrv { name: String, aterm: String, expected: String },
    StoreFiltered(Box<FilteredCopy>),
    Fetch(Box<FetchRequest>),
    FetchTree(Box<FetchTreeRequest>),
    Flake(String),
    ParseFlakeRef(String),
    FlakeRefToString(TextMap<TreeAttr>),
    EnsurePath(String),
    Realise(Vec<ContextElem>),
    Warn(String),
    Trace(String),
    FindFile { entries: Vec<SearchPathEntry>, name: String },
    NixPath,
}

/// The model of [`NeedPath`].
#[verifier::ext_equal]
pub enum NeedPathV {
    Import(PathValueV),
    Contents(PathValueV),
    HashFile { path: PathValueV, algo: HashAlgo },
    Exists(PathValueV),
    DirExists(PathValueV),
    Entries(PathValueV),
    Kind(PathValueV),
    MaybeKind(PathValueV),
    Env(Seq<char>),
    StorePath(PathValueV),
    UseStorePath(PathValueV),
    StoreText { name: Seq<char>, contents: Seq<char>, references: Seq<Seq<char>> },
    WriteDrv { name: Seq<char>, aterm: Seq<char>, expected: Seq<char> },
    StoreFiltered(FilteredCopyV),
    Fetch(FetchRequestV),
    FetchTree(FetchTreeRequestV),
    Flake(Seq<char>),
    ParseFlakeRef(Seq<char>),
    FlakeRefToString(Seq<(Seq<char>, TreeAttrV)>),
    EnsurePath(Seq<char>),
    Realise(Seq<ContextElemV>),
    Warn(Seq<char>),
    Trace(Seq<char>),
    FindFile { entries: Seq<SearchPathEntryV>, name: Seq<char> },
    NixPath,
}

impl View for NeedPath {
    type V = NeedPathV;

    open spec fn view(&self) -> NeedPathV {
        match self {
            NeedPath::Import(a) => NeedPathV::Import(a@),
            NeedPath::Contents(a) => NeedPathV::Contents(a@),
            NeedPath::HashFile { path, algo } => NeedPathV::HashFile { path: path@, algo: *algo },
            NeedPath::Exists(a) => NeedPathV::Exists(a@),
            NeedPath::DirExists(a) => NeedPathV::DirExists(a@),
            NeedPath::Entries(a) => NeedPathV::Entries(a@),
            NeedPath::Kind(a) => NeedPathV::Kind(a@),
            NeedPath::MaybeKind(a) => NeedPathV::MaybeKind(a@),
            NeedPath::Env(a) => NeedPathV::Env(a@),
            NeedPath::StorePath(a) => NeedPathV::StorePath(a@),
            NeedPath::UseStorePath(a) => NeedPathV::UseStorePath(a@),
            NeedPath::StoreText { name, contents, references } => NeedPathV::StoreText { name: name@, contents: contents@, references: references.deep_view() },
            NeedPath::WriteDrv { name, aterm, expected } => NeedPathV::WriteDrv { name: name@, aterm: aterm@, expected: expected@ },
            NeedPath::StoreFiltered(a) => NeedPathV::StoreFiltered(a@),
            NeedPath::Fetch(a) => NeedPathV::Fetch(a@),
            NeedPath::FetchTree(a) => NeedPathV::FetchTree(a@),
            NeedPath::Flake(a) => NeedPathV::Flake(a@),
            NeedPath::ParseFlakeRef(a) => NeedPathV::ParseFlakeRef(a@),
            NeedPath::FlakeRefToString(a) => NeedPathV::FlakeRefToString(a@),
            NeedPath::EnsurePath(a) => NeedPathV::EnsurePath(a@),
            NeedPath::Realise(a) => NeedPathV::Realise(a.deep_view()),
            NeedPath::Warn(a) => NeedPathV::Warn(a@),
            NeedPath::Trace(a) => NeedPathV::Trace(a@),
            NeedPath::FindFile { entries, name } => NeedPathV::FindFile { entries: entries.deep_view(), name: name@ },
            NeedPath::NixPath => NeedPathV::NixPath,
        }
    }
}

impl DeepView for NeedPath {
    type V = NeedPathV;

    open spec fn deep_view(&self) -> NeedPathV {
        self@
    }
}

impl Clone for NeedPath {
    fn clone(&self) -> (r: Self)
        ensures
            r@ == self@,
    {
        self.copied()
    }
}

impl Plain for NeedPath {
    fn copied(&self) -> (r: Self) {
        match self {
            NeedPath::Import(a) => NeedPath::Import(a.copied()),
            NeedPath::Contents(a) => NeedPath::Contents(a.copied()),
            NeedPath::HashFile { path, algo } => NeedPath::HashFile { path: path.copied(), algo: algo.copied() },
            NeedPath::Exists(a) => NeedPath::Exists(a.copied()),
            NeedPath::DirExists(a) => NeedPath::DirExists(a.copied()),
            NeedPath::Entries(a) => NeedPath::Entries(a.copied()),
            NeedPath::Kind(a) => NeedPath::Kind(a.copied()),
            NeedPath::MaybeKind(a) => NeedPath::MaybeKind(a.copied()),
            NeedPath::Env(a) => NeedPath::Env(a.copied()),
            NeedPath::StorePath(a) => NeedPath::StorePath(a.copied()),
            NeedPath::UseStorePath(a) => NeedPath::UseStorePath(a.copied()),
            NeedPath::StoreText { name, contents, references } => NeedPath::StoreText { name: name.copied(), contents: contents.copied(), references: references.copied() },
            NeedPath::WriteDrv { name, aterm, expected } => NeedPath::WriteDrv { name: name.copied(), aterm: aterm.copied(), expected: expected.copied() },
            NeedPath::StoreFiltered(a) => NeedPath::StoreFiltered(a.copied()),
            NeedPath::Fetch(a) => NeedPath::Fetch(a.copied()),
            NeedPath::FetchTree(a) => NeedPath::FetchTree(a.copied()),
            NeedPath::Flake(a) => NeedPath::Flake(a.copied()),
            NeedPath::ParseFlakeRef(a) => NeedPath::ParseFlakeRef(a.copied()),
            NeedPath::FlakeRefToString(a) => NeedPath::FlakeRefToString(a.copied()),
            NeedPath::EnsurePath(a) => NeedPath::EnsurePath(a.copied()),
            NeedPath::Realise(a) => NeedPath::Realise(a.copied()),
            NeedPath::Warn(a) => NeedPath::Warn(a.copied()),
            NeedPath::Trace(a) => NeedPath::Trace(a.copied()),
            NeedPath::FindFile { entries, name } => NeedPath::FindFile { entries: entries.copied(), name: name.copied() },
            NeedPath::NixPath => NeedPath::NixPath,
        }
    }

    fn same(&self, other: &Self) -> (r: bool) {
        match (self, other) {
            (NeedPath::Import(a), NeedPath::Import(b)) => a.same(b),
            (NeedPath::Contents(a), NeedPath::Contents(b)) => a.same(b),
            (NeedPath::HashFile { path: path_a, algo: algo_a }, NeedPath::HashFile { path: path_b, algo: algo_b }) => {
                let s0 = path_a.same(path_b);
                let s1 = algo_a.same(algo_b);
                s0 && s1
            },
            (NeedPath::Exists(a), NeedPath::Exists(b)) => a.same(b),
            (NeedPath::DirExists(a), NeedPath::DirExists(b)) => a.same(b),
            (NeedPath::Entries(a), NeedPath::Entries(b)) => a.same(b),
            (NeedPath::Kind(a), NeedPath::Kind(b)) => a.same(b),
            (NeedPath::MaybeKind(a), NeedPath::MaybeKind(b)) => a.same(b),
            (NeedPath::Env(a), NeedPath::Env(b)) => a.same(b),
            (NeedPath::StorePath(a), NeedPath::StorePath(b)) => a.same(b),
            (NeedPath::UseStorePath(a), NeedPath::UseStorePath(b)) => a.same(b),
            (NeedPath::StoreText { name: name_a, contents: contents_a, references: references_a }, NeedPath::StoreText { name: name_b, contents: contents_b, references: references_b }) => {
                let s0 = name_a.same(name_b);
                let s1 = contents_a.same(contents_b);
                let s2 = references_a.same(references_b);
                s0 && s1 && s2
            },
            (NeedPath::WriteDrv { name: name_a, aterm: aterm_a, expected: expected_a }, NeedPath::WriteDrv { name: name_b, aterm: aterm_b, expected: expected_b }) => {
                let s0 = name_a.same(name_b);
                let s1 = aterm_a.same(aterm_b);
                let s2 = expected_a.same(expected_b);
                s0 && s1 && s2
            },
            (NeedPath::StoreFiltered(a), NeedPath::StoreFiltered(b)) => a.same(b),
            (NeedPath::Fetch(a), NeedPath::Fetch(b)) => a.same(b),
            (NeedPath::FetchTree(a), NeedPath::FetchTree(b)) => a.same(b),
            (NeedPath::Flake(a), NeedPath::Flake(b)) => a.same(b),
            (NeedPath::ParseFlakeRef(a), NeedPath::ParseFlakeRef(b)) => a.same(b),
            (NeedPath::FlakeRefToString(a), NeedPath::FlakeRefToString(b)) => a.same(b),
            (NeedPath::EnsurePath(a), NeedPath::EnsurePath(b)) => a.same(b),
            (NeedPath::Realise(a), NeedPath::Realise(b)) => a.same(b),
            (NeedPath::Warn(a), NeedPath::Warn(b)) => a.same(b),
            (NeedPath::Trace(a), NeedPath::Trace(b)) => a.same(b),
            (NeedPath::FindFile { entries: entries_a, name: name_a }, NeedPath::FindFile { entries: entries_b, name: name_b }) => {
                let s0 = entries_a.same(entries_b);
                let s1 = name_a.same(name_b);
                s0 && s1
            },
            (NeedPath::NixPath, NeedPath::NixPath) => true,
            _ => false,
        }
    }
}

} // verus!
