//! The questions an evaluation asks of its host, and what is recorded of the answers.
use vstd::prelude::*;
use std::rc::Rc;
use crate::digest;
use crate::digest::{
    Digest,
    DigestV,
    ObjId,
    WriteDrvAnswer,
    WriteDrvAnswerV,
};
use crate::host::{StoreError, StoreErrorV};
use crate::json;
use crate::json::{Doc, DocV, Field, FieldV};
use crate::model;
use crate::model::Plain;
use crate::ordered;
use crate::ordered::TextMap;
use crate::task::{
    AcceptedPath,
    AcceptedPathV,
    FetchRequest,
    FetchRequestV,
    FetchTreeRequest,
    FetchTreeRequestV,
    FilteredCopy,
    FilteredCopyV,
    NeedPath,
    NeedPathV,
    SearchPathEntry,
    SearchPathEntryV,
    TreeAttr,
    TreeAttrV,
};
use crate::text;
use crate::value::{ContextElem, ContextElemV, PathValue, PathValueV, Root};

verus! {

/// A question that an evaluation asked.
#[derive(Debug, PartialEq, Eq)]
pub enum Question {
    /// Where an import leads, and the source found there.
    Import(Rc<PathValue>),
    ReadFile(Rc<PathValue>),
    ReadFileBytes(Rc<PathValue>),
    ReadDir(Rc<PathValue>),
    PathExists(Rc<PathValue>),
    DirExists(Rc<PathValue>),
    FileType(Rc<PathValue>),
    FileTypeResolved(Rc<PathValue>),
    GetEnv(String),
    CopyToStore(Rc<PathValue>),
    StorePath(Rc<PathValue>),
    FindFile { entries: Vec<SearchPathEntry>, name: String },
    NixPath,
    StoreText { name: String, contents: String, references: Vec<String> },
    /// A derivation written: its text is the object `aterm`, and `answer` what the write must come to.
    WriteDrv { name: String, answer: WriteDrvAnswer, aterm: ObjId },
    Realise(Vec<ContextElem>),
    EnsurePath(String),
    StoreFiltered(Box<FilteredCopy>),
    Fetch(Box<FetchRequest>),
    FetchTree(Box<FetchTreeRequest>),
    LockFlake(String),
    ParseFlakeRef(String),
    FlakeRefToString(TextMap<TreeAttr>),
    /// All reads under one immutable root.
    Tree(Rc<PathValue>),
}

/// The model of [`Question`].
#[verifier::ext_equal]
pub enum QuestionV {
    Import(PathValueV),
    ReadFile(PathValueV),
    ReadFileBytes(PathValueV),
    ReadDir(PathValueV),
    PathExists(PathValueV),
    DirExists(PathValueV),
    FileType(PathValueV),
    FileTypeResolved(PathValueV),
    GetEnv(Seq<char>),
    CopyToStore(PathValueV),
    StorePath(PathValueV),
    FindFile { entries: Seq<SearchPathEntryV>, name: Seq<char> },
    NixPath,
    StoreText { name: Seq<char>, contents: Seq<char>, references: Seq<Seq<char>> },
    WriteDrv { name: Seq<char>, answer: WriteDrvAnswerV, aterm: Seq<u8> },
    Realise(Seq<ContextElemV>),
    EnsurePath(Seq<char>),
    StoreFiltered(FilteredCopyV),
    Fetch(FetchRequestV),
    FetchTree(FetchTreeRequestV),
    LockFlake(Seq<char>),
    ParseFlakeRef(Seq<char>),
    FlakeRefToString(Seq<(Seq<char>, TreeAttrV)>),
    Tree(PathValueV),
}

impl View for Question {
    type V = QuestionV;

    open spec fn view(&self) -> QuestionV {
        match self {
            Question::Import(a) => QuestionV::Import(a@),
            Question::ReadFile(a) => QuestionV::ReadFile(a@),
            Question::ReadFileBytes(a) => QuestionV::ReadFileBytes(a@),
            Question::ReadDir(a) => QuestionV::ReadDir(a@),
            Question::PathExists(a) => QuestionV::PathExists(a@),
            Question::DirExists(a) => QuestionV::DirExists(a@),
            Question::FileType(a) => QuestionV::FileType(a@),
            Question::FileTypeResolved(a) => QuestionV::FileTypeResolved(a@),
            Question::GetEnv(a) => QuestionV::GetEnv(a@),
            Question::CopyToStore(a) => QuestionV::CopyToStore(a@),
            Question::StorePath(a) => QuestionV::StorePath(a@),
            Question::FindFile { entries, name } => QuestionV::FindFile { entries: entries.deep_view(), name: name@ },
            Question::NixPath => QuestionV::NixPath,
            Question::StoreText { name, contents, references } => QuestionV::StoreText { name: name@, contents: contents@, references: references.deep_view() },
            Question::WriteDrv { name, answer, aterm } => QuestionV::WriteDrv { name: name@, answer: answer@, aterm: aterm@ },
            Question::Realise(a) => QuestionV::Realise(a.deep_view()),
            Question::EnsurePath(a) => QuestionV::EnsurePath(a@),
            Question::StoreFiltered(a) => QuestionV::StoreFiltered(a@),
            Question::Fetch(a) => QuestionV::Fetch(a@),
            Question::FetchTree(a) => QuestionV::FetchTree(a@),
            Question::LockFlake(a) => QuestionV::LockFlake(a@),
            Question::ParseFlakeRef(a) => QuestionV::ParseFlakeRef(a@),
            Question::FlakeRefToString(a) => QuestionV::FlakeRefToString(a@),
            Question::Tree(a) => QuestionV::Tree(a@),
        }
    }
}

impl DeepView for Question {
    type V = QuestionV;

    open spec fn deep_view(&self) -> QuestionV {
        self@
    }
}

impl Clone for Question {
    fn clone(&self) -> (r: Self)
        ensures
            r@ == self@,
    {
        self.copied()
    }
}

impl Plain for Question {
    fn copied(&self) -> (r: Self) {
        match self {
            Question::Import(a) => Question::Import(a.copied()),
            Question::ReadFile(a) => Question::ReadFile(a.copied()),
            Question::ReadFileBytes(a) => Question::ReadFileBytes(a.copied()),
            Question::ReadDir(a) => Question::ReadDir(a.copied()),
            Question::PathExists(a) => Question::PathExists(a.copied()),
            Question::DirExists(a) => Question::DirExists(a.copied()),
            Question::FileType(a) => Question::FileType(a.copied()),
            Question::FileTypeResolved(a) => Question::FileTypeResolved(a.copied()),
            Question::GetEnv(a) => Question::GetEnv(a.copied()),
            Question::CopyToStore(a) => Question::CopyToStore(a.copied()),
            Question::StorePath(a) => Question::StorePath(a.copied()),
            Question::FindFile { entries, name } => Question::FindFile { entries: entries.copied(), name: name.copied() },
            Question::NixPath => Question::NixPath,
            Question::StoreText { name, contents, references } => Question::StoreText { name: name.copied(), contents: contents.copied(), references: references.copied() },
            Question::WriteDrv { name, answer, aterm } => Question::WriteDrv { name: name.copied(), answer: answer.copied(), aterm: aterm.copied() },
            Question::Realise(a) => Question::Realise(a.copied()),
            Question::EnsurePath(a) => Question::EnsurePath(a.copied()),
            Question::StoreFiltered(a) => Question::StoreFiltered(a.copied()),
            Question::Fetch(a) => Question::Fetch(a.copied()),
            Question::FetchTree(a) => Question::FetchTree(a.copied()),
            Question::LockFlake(a) => Question::LockFlake(a.copied()),
            Question::ParseFlakeRef(a) => Question::ParseFlakeRef(a.copied()),
            Question::FlakeRefToString(a) => Question::FlakeRefToString(a.copied()),
            Question::Tree(a) => Question::Tree(a.copied()),
        }
    }

    fn same(&self, other: &Self) -> (r: bool) {
        match (self, other) {
            (Question::Import(a), Question::Import(b)) => a.same(b),
            (Question::ReadFile(a), Question::ReadFile(b)) => a.same(b),
            (Question::ReadFileBytes(a), Question::ReadFileBytes(b)) => a.same(b),
            (Question::ReadDir(a), Question::ReadDir(b)) => a.same(b),
            (Question::PathExists(a), Question::PathExists(b)) => a.same(b),
            (Question::DirExists(a), Question::DirExists(b)) => a.same(b),
            (Question::FileType(a), Question::FileType(b)) => a.same(b),
            (Question::FileTypeResolved(a), Question::FileTypeResolved(b)) => a.same(b),
            (Question::GetEnv(a), Question::GetEnv(b)) => a.same(b),
            (Question::CopyToStore(a), Question::CopyToStore(b)) => a.same(b),
            (Question::StorePath(a), Question::StorePath(b)) => a.same(b),
            (Question::FindFile { entries: entries_a, name: name_a }, Question::FindFile { entries: entries_b, name: name_b }) => {
                let s0 = entries_a.same(entries_b);
                let s1 = name_a.same(name_b);
                s0 && s1
            },
            (Question::NixPath, Question::NixPath) => true,
            (Question::StoreText { name: name_a, contents: contents_a, references: references_a }, Question::StoreText { name: name_b, contents: contents_b, references: references_b }) => {
                let s0 = name_a.same(name_b);
                let s1 = contents_a.same(contents_b);
                let s2 = references_a.same(references_b);
                s0 && s1 && s2
            },
            (Question::WriteDrv { name: name_a, answer: answer_a, aterm: aterm_a }, Question::WriteDrv { name: name_b, answer: answer_b, aterm: aterm_b }) => {
                let s0 = name_a.same(name_b);
                let s1 = answer_a.same(answer_b);
                let s2 = aterm_a.same(aterm_b);
                s0 && s1 && s2
            },
            (Question::Realise(a), Question::Realise(b)) => a.same(b),
            (Question::EnsurePath(a), Question::EnsurePath(b)) => a.same(b),
            (Question::StoreFiltered(a), Question::StoreFiltered(b)) => a.same(b),
            (Question::Fetch(a), Question::Fetch(b)) => a.same(b),
            (Question::FetchTree(a), Question::FetchTree(b)) => a.same(b),
            (Question::LockFlake(a), Question::LockFlake(b)) => a.same(b),
            (Question::ParseFlakeRef(a), Question::ParseFlakeRef(b)) => a.same(b),
            (Question::FlakeRefToString(a), Question::FlakeRefToString(b)) => a.same(b),
            (Question::Tree(a), Question::Tree(b)) => a.same(b),
            _ => false,
        }
    }
}

/// What is recorded of an answer.
#[derive(Debug, PartialEq, Eq)]
pub enum Recorded {
    Digest(Digest),
    /// The answer itself, where the question can be replayed from it.
    Answer(String),
}

/// The model of [`Recorded`].
#[verifier::ext_equal]
pub enum RecordedV {
    Digest(DigestV),
    Answer(Seq<char>),
}

impl View for Recorded {
    type V = RecordedV;

    open spec fn view(&self) -> RecordedV {
        match self {
            Recorded::Digest(a) => RecordedV::Digest(a@),
            Recorded::Answer(a) => RecordedV::Answer(a@),
        }
    }
}

impl DeepView for Recorded {
    type V = RecordedV;

    open spec fn deep_view(&self) -> RecordedV {
        self@
    }
}

impl Clone for Recorded {
    fn clone(&self) -> (r: Self)
        ensures
            r@ == self@,
    {
        self.copied()
    }
}

impl Plain for Recorded {
    fn copied(&self) -> (r: Self) {
        match self {
            Recorded::Digest(a) => Recorded::Digest(a.copied()),
            Recorded::Answer(a) => Recorded::Answer(a.copied()),
        }
    }

    fn same(&self, other: &Self) -> (r: bool) {
        match (self, other) {
            (Recorded::Digest(a), Recorded::Digest(b)) => a.same(b),
            (Recorded::Answer(a), Recorded::Answer(b)) => a.same(b),
            _ => false,
        }
    }
}

/// A question, and what is recorded of its answer.
pub type WitnessRow = (Question, Recorded);

/// The store path in a fetched tree's description.
pub open spec fn out_path_in(doc: DocV) -> Option<Seq<char>> {
    match json::field_of(doc, "outPath"@) {
        Some(FieldV::Text(t)) => Some(t),
        _ => None,
    }
}

/// The store path in the text of a fetched tree's description, where that
/// text is a JSON object with the string `outPath`.
pub open spec fn out_path(t: Seq<char>) -> Option<Seq<char>> {
    match json::json_doc(text::utf8(t)) {
        Ok(doc) => out_path_in(doc),
        Err(_) => None,
    }
}

/// Paths and kinds in turn.
pub open spec fn accepted_fields(list: Seq<AcceptedPathV>) -> Seq<Seq<char>>
    decreases list.len(),
{
    if list.len() == 0 {
        Seq::empty()
    } else {
        accepted_fields(list.drop_last()).push(list.last().path).push(
            list.last().file_type.spec_name(),
        )
    }
}

/// Names, types and texts in turn.
pub open spec fn attr_fields(attrs: Seq<(Seq<char>, TreeAttrV)>) -> Seq<Seq<char>>
    decreases attrs.len(),
{
    if attrs.len() == 0 {
        Seq::empty()
    } else {
        attr_fields(attrs.drop_last()).push(attrs.last().0).push(attrs.last().1.tag()).push(
            attrs.last().1.shown(),
        )
    }
}

/// The texts of the elements.
pub open spec fn elem_fields(context: Seq<ContextElemV>) -> Seq<Seq<char>> {
    Seq::new(context.len(), |i: int| context[i].shown())
}

/// A pin as fields.
pub open spec fn pin_fields(sha256: Option<Seq<char>>) -> Seq<Seq<char>> {
    match sha256 {
        Some(h) => seq!["sha256"@, h],
        None => seq!["no-sha256"@],
    }
}

impl QuestionV {
    /// The number of the kind.
    pub open spec fn tag(self) -> u8 {
        match self {
            QuestionV::Import(..) => 20,
            QuestionV::ReadFile(..) => 1,
            QuestionV::ReadDir(..) => 2,
            QuestionV::PathExists(..) => 3,
            QuestionV::DirExists(..) => 22,
            QuestionV::FileType(..) => 4,
            QuestionV::GetEnv(..) => 5,
            QuestionV::CopyToStore(..) => 6,
            QuestionV::StorePath(..) => 21,
            QuestionV::FindFile { .. } => 7,
            QuestionV::NixPath => 8,
            QuestionV::EnsurePath(..) => 9,
            QuestionV::StoreText { .. } => 10,
            QuestionV::StoreFiltered(..) => 11,
            QuestionV::Fetch(..) => 12,
            QuestionV::FetchTree(..) => 13,
            QuestionV::FileTypeResolved(..) => 14,
            QuestionV::LockFlake(..) => 15,
            QuestionV::Realise(..) => 16,
            QuestionV::ReadFileBytes(..) => 17,
            QuestionV::ParseFlakeRef(..) => 18,
            QuestionV::FlakeRefToString(..) => 19,
            QuestionV::WriteDrv { .. } => 23,
            QuestionV::Tree(..) => 24,
        }
    }

    /// The path that is read, where the question is a plain read.
    pub open spec fn read_path(self) -> Option<PathValueV> {
        match self {
            QuestionV::Import(p) => Some(p),
            QuestionV::ReadFile(p) => Some(p),
            QuestionV::ReadFileBytes(p) => Some(p),
            QuestionV::ReadDir(p) => Some(p),
            QuestionV::PathExists(p) => Some(p),
            QuestionV::DirExists(p) => Some(p),
            QuestionV::FileType(p) => Some(p),
            QuestionV::FileTypeResolved(p) => Some(p),
            QuestionV::Tree(p) => Some(p),
            _ => None,
        }
    }

    /// The path that is named, where there is one.
    pub open spec fn path(self) -> Option<PathValueV> {
        match self {
            QuestionV::CopyToStore(p) => Some(p),
            QuestionV::StoreFiltered(r) => Some(r.root),
            _ => self.read_path(),
        }
    }

    /// The path that is read or copied, where it is an ambient one.
    pub open spec fn ambient_path(self) -> Option<PathValueV> {
        match self.path() {
            Some(p) => if p.root is Ambient {
                Some(p)
            } else {
                None
            },
            None => None,
        }
    }

    /// The first argument.
    pub open spec fn arg(self) -> Seq<char> {
        match self {
            QuestionV::Import(p) => p.path,
            QuestionV::ReadFile(p) => p.path,
            QuestionV::ReadFileBytes(p) => p.path,
            QuestionV::ReadDir(p) => p.path,
            QuestionV::PathExists(p) => p.path,
            QuestionV::DirExists(p) => p.path,
            QuestionV::FileType(p) => p.path,
            QuestionV::FileTypeResolved(p) => p.path,
            QuestionV::Tree(p) => p.path,
            QuestionV::CopyToStore(p) => p.path,
            QuestionV::StorePath(p) => p.path,
            QuestionV::GetEnv(name) => name,
            QuestionV::FindFile { entries, name } => name,
            QuestionV::NixPath => ""@,
            QuestionV::EnsurePath(path) => path,
            QuestionV::StoreText { name, contents, references } => name,
            QuestionV::WriteDrv { name, answer, aterm } => name,
            QuestionV::StoreFiltered(r) => r.root.path,
            QuestionV::Fetch(r) => r.url,
            QuestionV::LockFlake(r) => r,
            QuestionV::ParseFlakeRef(r) => r,
            QuestionV::FetchTree(_) => ""@,
            QuestionV::Realise(_) => ""@,
            QuestionV::FlakeRefToString(_) => ""@,
        }
    }

    /// The other arguments, where they are texts.
    pub open spec fn key_texts(self) -> Seq<Seq<char>> {
        match self {
            QuestionV::Import(p) => seq![p.root.wire()],
            QuestionV::ReadFile(p) => seq![p.root.wire()],
            QuestionV::ReadFileBytes(p) => seq![p.root.wire()],
            QuestionV::ReadDir(p) => seq![p.root.wire()],
            QuestionV::PathExists(p) => seq![p.root.wire()],
            QuestionV::DirExists(p) => seq![p.root.wire()],
            QuestionV::FileType(p) => seq![p.root.wire()],
            QuestionV::FileTypeResolved(p) => seq![p.root.wire()],
            QuestionV::Tree(p) => seq![p.root.wire()],
            QuestionV::CopyToStore(p) => seq![p.root.wire()],
            QuestionV::StorePath(p) => seq![p.root.wire()],
            QuestionV::FindFile { entries, name } => digest::entry_fields(entries),
            QuestionV::StoreText { name, contents, references } => seq![contents] + references,
            QuestionV::StoreFiltered(r) => seq![r.root.root.wire(), r.name, r.method.spec_name()]
                + pin_fields(r.expected_sha256) + (match r.accepted {
                None => seq!["unfiltered"@],
                Some(list) => seq!["filtered"@] + accepted_fields(list),
            }) + (if r.inherit_references {
                seq!["inherit-references"@]
            } else {
                Seq::empty()
            }),
            QuestionV::Fetch(r) => seq![r.name, r.kind.spec_name()] + pin_fields(r.expected_sha256),
            QuestionV::Realise(context) => elem_fields(context),
            QuestionV::FetchTree(r) => seq![r.fetcher.spec_name()] + attr_fields(r.attrs),
            QuestionV::FlakeRefToString(attrs) => attr_fields(attrs),
            _ => Seq::empty(),
        }
    }

    /// The other arguments as bytes.
    pub open spec fn key_parts(self) -> Seq<Seq<u8>> {
        match self {
            QuestionV::WriteDrv { name, answer, aterm } => seq![aterm],
            _ => digest::utf8s(self.key_texts()),
        }
    }

    /// What a question adds to a key: its tag, its first argument, the others.
    pub open spec fn key_material(self) -> Seq<Seq<u8>> {
        seq![seq![self.tag()], text::utf8(self.arg())] + self.key_parts()
    }

    /// The store object that an answer names, where the question can be
    /// answered by that object's being there.
    pub open spec fn named_object(self, answer: Seq<char>) -> Option<Seq<char>> {
        match self {
            QuestionV::CopyToStore(_) => Some(answer),
            QuestionV::StoreFiltered(_) => Some(answer),
            QuestionV::Fetch(r) => if r.expected_sha256 is Some {
                Some(answer)
            } else {
                None
            },
            QuestionV::FetchTree(r) => if r.locked_final() {
                out_path(answer)
            } else {
                None
            },
            _ => None,
        }
    }

    /// The need by which the question is judged.
    pub open spec fn need(self) -> NeedPathV {
        match self {
            QuestionV::Import(p) => NeedPathV::Import(p),
            QuestionV::ReadFile(p) => NeedPathV::Contents(p),
            QuestionV::ReadFileBytes(p) => NeedPathV::Contents(p),
            QuestionV::ReadDir(p) => NeedPathV::Entries(p),
            QuestionV::PathExists(p) => NeedPathV::Exists(p),
            QuestionV::DirExists(p) => NeedPathV::DirExists(p),
            QuestionV::FileType(p) => NeedPathV::Kind(p),
            QuestionV::FileTypeResolved(p) => NeedPathV::Import(p),
            QuestionV::GetEnv(n) => NeedPathV::Env(n),
            QuestionV::CopyToStore(p) => NeedPathV::StorePath(p),
            QuestionV::StorePath(p) => NeedPathV::UseStorePath(p),
            QuestionV::FindFile { entries, name } => NeedPathV::FindFile { entries, name },
            QuestionV::NixPath => NeedPathV::NixPath,
            QuestionV::EnsurePath(p) => NeedPathV::EnsurePath(p),
            QuestionV::Realise(context) => NeedPathV::Realise(context),
            QuestionV::StoreText { name, contents, references } => NeedPathV::StoreText {
                name,
                contents,
                references,
            },
            QuestionV::WriteDrv { name, answer, aterm } => NeedPathV::WriteDrv {
                name,
                aterm: ""@,
                expected: answer.shown(),
            },
            QuestionV::StoreFiltered(r) => NeedPathV::StoreFiltered(r),
            QuestionV::Fetch(r) => NeedPathV::Fetch(r),
            QuestionV::FetchTree(r) => NeedPathV::FetchTree(r),
            QuestionV::LockFlake(r) => NeedPathV::Flake(r),
            QuestionV::ParseFlakeRef(r) => NeedPathV::ParseFlakeRef(r),
            QuestionV::FlakeRefToString(a) => NeedPathV::FlakeRefToString(a),
            QuestionV::Tree(p) => NeedPathV::Exists(p),
        }
    }

    /// The question can be written down and read back.
    pub open spec fn wf(self) -> bool {
        match self {
            QuestionV::Import(p) => p.wf(),
            QuestionV::ReadFile(p) => p.wf(),
            QuestionV::ReadFileBytes(p) => p.wf(),
            QuestionV::ReadDir(p) => p.wf(),
            QuestionV::PathExists(p) => p.wf(),
            QuestionV::DirExists(p) => p.wf(),
            QuestionV::FileType(p) => p.wf(),
            QuestionV::FileTypeResolved(p) => p.wf(),
            QuestionV::Tree(p) => p.wf(),
            QuestionV::CopyToStore(p) => p.wf(),
            QuestionV::StorePath(p) => p.wf(),
            QuestionV::StoreFiltered(r) => r.root.wf(),
            QuestionV::WriteDrv { name, answer, aterm } => answer.wf() && aterm.len() == 32,
            QuestionV::Realise(context) => forall|i: int|
                0 <= i < context.len() ==> (#[trigger] context[i]).wf(),
            QuestionV::FetchTree(r) => text::sorted(ordered::keys(r.attrs)),
            QuestionV::FlakeRefToString(attrs) => text::sorted(ordered::keys(attrs)),
            _ => true,
        }
    }
}

impl RecordedV {
    /// The digest that is recorded, or that of the answer that is.
    pub open spec fn digest(self) -> DigestV {
        match self {
            RecordedV::Digest(d) => d,
            RecordedV::Answer(t) => digest::store_outcome("store"@, Ok(t)),
        }
    }

    /// What is recorded of an answer that names its object.
    pub open spec fn kept(question: QuestionV, answer: Seq<char>) -> Option<RecordedV> {
        if question.named_object(answer) is Some {
            Some(RecordedV::Answer(answer))
        } else {
            None
        }
    }

    /// What is recorded of a copy or a fetch.
    pub open spec fn copy_record(question: QuestionV, answer: Result<Seq<char>, StoreErrorV>) -> RecordedV {
        match answer {
            Ok(t) => match RecordedV::kept(question, t) {
                Some(r) => r,
                None => RecordedV::Digest(digest::store_outcome("store"@, answer)),
            },
            Err(_) => RecordedV::Digest(digest::store_outcome("store"@, answer)),
        }
    }
}

/// A copy or a fetch digests the same whether its answer was kept or not.
pub proof fn kept_answer_digests_as_recorded(
    question: QuestionV,
    answer: Result<Seq<char>, StoreErrorV>,
)
    ensures
        RecordedV::copy_record(question, answer).digest() == digest::store_outcome(
            "store"@,
            answer,
        ),
{
}

/// The store path in a fetched tree's description.
pub fn out_path_of(doc: &Doc) -> (r: Option<String>)
    ensures
        r.deep_view() == out_path_in(doc.deep_view()),
{
    match json::field(doc, "outPath") {
        Some(Field::Text(t)) => Some(t.clone()),
        _ => None,
    }
}

/// The store path in the text of a fetched tree's description.
pub fn tree_out_path(t: &str) -> (r: Option<String>)
    ensures
        r.deep_view() == out_path(t@),
{
    match json::read_doc(&text::bytes(t)) {
        Ok(doc) => out_path_of(&doc),
        Err(_) => None,
    }
}

fn pin_texts(parts: &mut Vec<String>, sha256: &Option<String>)
    ensures
        text::texts(final(parts)@) == text::texts(old(parts)@) + pin_fields(sha256.deep_view()),
{
    let ghost prior = text::texts(parts@);
    match sha256 {
        Some(h) => {
            parts.push("sha256".to_owned());
            parts.push(h.clone());
        },
        None => {
            parts.push("no-sha256".to_owned());
        },
    }
    assert(text::texts(parts@) =~= prior + pin_fields(sha256.deep_view()));
}

fn attr_texts(parts: &mut Vec<String>, attrs: &TextMap<TreeAttr>)
    ensures
        text::texts(final(parts)@) == text::texts(old(parts)@) + attr_fields(attrs@),
{
    let ghost head = text::texts(parts@);
    let ghost all = attrs@;
    let mut i: usize = 0;
    assert(text::texts(parts@) =~= head + attr_fields(all.take(0)));
    while i < attrs.entries.len()
        invariant
            i <= attrs.entries.len(),
            all == attrs@,
            text::texts(parts@) == head + attr_fields(all.take(i as int)),
        decreases attrs.entries.len() - i,
    {
        let ghost prior = parts@;
        let e = &attrs.entries[i];
        parts.push(e.0.clone());
        parts.push(e.1.tag().to_owned());
        parts.push(e.1.text());
        proof {
            assert(all.take(i + 1).drop_last() =~= all.take(i as int));
            assert(all.take(i + 1).last() == (e.0@, e.1@));
            assert(text::texts(parts@) =~= text::texts(prior).push(e.0@).push(e.1@.tag()).push(
                e.1@.shown(),
            ));
            assert(text::texts(parts@) =~= head + attr_fields(all.take(i + 1)));
        }
        i += 1;
    }
    assert(all.take(i as int) =~= all);
}

pub fn accepted_texts(parts: &mut Vec<String>, list: &Vec<AcceptedPath>)
    ensures
        text::texts(final(parts)@) == text::texts(old(parts)@) + accepted_fields(list.deep_view()),
{
    let ghost head = text::texts(parts@);
    let ghost all = list.deep_view();
    let mut i: usize = 0;
    assert(text::texts(parts@) =~= head + accepted_fields(all.take(0)));
    while i < list.len()
        invariant
            i <= list.len(),
            all == list.deep_view(),
            text::texts(parts@) == head + accepted_fields(all.take(i as int)),
        decreases list.len() - i,
    {
        let ghost prior = parts@;
        let e = &list[i];
        parts.push(e.path.clone());
        parts.push(e.file_type.as_str().to_owned());
        proof {
            assert(all.take(i + 1).drop_last() =~= all.take(i as int));
            assert(all.take(i + 1).last() == e@);
            assert(text::texts(parts@) =~= text::texts(prior).push(e.path@).push(
                e.file_type.spec_name(),
            ));
            assert(text::texts(parts@) =~= head + accepted_fields(all.take(i + 1)));
        }
        i += 1;
    }
    assert(all.take(i as int) =~= all);
}

impl Recorded {
    /// What is recorded of a copy or a fetch.
    pub fn store_copy(question: &Question, answer: &Result<String, StoreError>) -> (r: Recorded)
        ensures
            r@ == RecordedV::copy_record(question@, model::outcome(*answer)),
    {
        match answer {
            Ok(t) => match Recorded::answer(question, t.clone()) {
                Some(r) => r,
                None => Recorded::Digest(digest::digest_store_copy(answer)),
            },
            Err(_) => Recorded::Digest(digest::digest_store_copy(answer)),
        }
    }

    /// The answer kept as it is, where the question can be replayed from it.
    pub fn answer(question: &Question, text: String) -> (r: Option<Recorded>)
        ensures
            r.deep_view() == RecordedV::kept(question@, text@),
    {
        if question.named_object(text.as_str()).is_some() {
            Some(Recorded::Answer(text))
        } else {
            None
        }
    }

    pub fn digest(&self) -> (r: Digest)
        ensures
            r@ == self@.digest(),
    {
        match self {
            Recorded::Digest(d) => d.copied(),
            Recorded::Answer(t) => digest::digest_store_outcome("store", Ok(t.as_str())),
        }
    }
}

impl Question {
    /// The number of the kind.
    pub fn tag(&self) -> (r: u8)
        ensures
            r == self@.tag(),
    {
        match self {
            Question::Import(..) => 20,
            Question::ReadFile(..) => 1,
            Question::ReadDir(..) => 2,
            Question::PathExists(..) => 3,
            Question::DirExists(..) => 22,
            Question::FileType(..) => 4,
            Question::GetEnv(..) => 5,
            Question::CopyToStore(..) => 6,
            Question::StorePath(..) => 21,
            Question::FindFile { .. } => 7,
            Question::NixPath => 8,
            Question::EnsurePath(..) => 9,
            Question::StoreText { .. } => 10,
            Question::StoreFiltered(..) => 11,
            Question::Fetch(..) => 12,
            Question::FetchTree(..) => 13,
            Question::FileTypeResolved(..) => 14,
            Question::LockFlake(..) => 15,
            Question::Realise(..) => 16,
            Question::ReadFileBytes(..) => 17,
            Question::ParseFlakeRef(..) => 18,
            Question::FlakeRefToString(..) => 19,
            Question::WriteDrv { .. } => 23,
            Question::Tree(..) => 24,
        }
    }

    /// The path that is read, where the question is a plain read.
    pub fn read_path(&self) -> (r: Option<&PathValue>)
        ensures
            match r {
                Some(p) => self@.read_path() == Some(p@),
                None => self@.read_path() is None,
            },
    {
        match self {
            Question::Import(p) => Some(&**p),
            Question::ReadFile(p) => Some(&**p),
            Question::ReadFileBytes(p) => Some(&**p),
            Question::ReadDir(p) => Some(&**p),
            Question::PathExists(p) => Some(&**p),
            Question::DirExists(p) => Some(&**p),
            Question::FileType(p) => Some(&**p),
            Question::FileTypeResolved(p) => Some(&**p),
            Question::Tree(p) => Some(&**p),
            _ => None,
        }
    }

    /// The path that is read or copied, where it is an ambient one.
    pub fn ambient_path(&self) -> (r: Option<&PathValue>)
        ensures
            match r {
                Some(p) => self@.ambient_path() == Some(p@),
                None => self@.ambient_path() is None,
            },
    {
        let path = match self {
            Question::CopyToStore(p) => &**p,
            Question::StoreFiltered(r) => &*r.root,
            _ => match self.read_path() {
                Some(p) => p,
                None => return None,
            },
        };
        match path.root {
            Root::Ambient => Some(path),
            Root::Mounted(_) => None,
        }
    }

    /// The first argument.
    pub fn arg(&self) -> (r: String)
        ensures
            r@ == self@.arg(),
    {
        match self {
            Question::Import(p) => p.accessor_path().to_owned(),
            Question::ReadFile(p) => p.accessor_path().to_owned(),
            Question::ReadFileBytes(p) => p.accessor_path().to_owned(),
            Question::ReadDir(p) => p.accessor_path().to_owned(),
            Question::PathExists(p) => p.accessor_path().to_owned(),
            Question::DirExists(p) => p.accessor_path().to_owned(),
            Question::FileType(p) => p.accessor_path().to_owned(),
            Question::FileTypeResolved(p) => p.accessor_path().to_owned(),
            Question::Tree(p) => p.accessor_path().to_owned(),
            Question::CopyToStore(p) => p.accessor_path().to_owned(),
            Question::StorePath(p) => p.accessor_path().to_owned(),
            Question::GetEnv(name) => name.clone(),
            Question::FindFile { entries: _, name } => name.clone(),
            Question::NixPath => "".to_owned(),
            Question::EnsurePath(path) => path.clone(),
            Question::StoreText { name, contents: _, references: _ } => name.clone(),
            Question::WriteDrv { name, answer: _, aterm: _ } => name.clone(),
            Question::StoreFiltered(r) => r.root.accessor_path().to_owned(),
            Question::Fetch(r) => r.url.clone(),
            Question::LockFlake(r) => r.clone(),
            Question::ParseFlakeRef(r) => r.clone(),
            Question::FetchTree(_) => "".to_owned(),
            Question::Realise(_) => "".to_owned(),
            Question::FlakeRefToString(_) => "".to_owned(),
        }
    }

    /// The other arguments, where they are texts.
    pub fn key_texts(&self) -> (r: Vec<String>)
        ensures
            text::texts(r@) == self@.key_texts(),
    {
        let mut parts: Vec<String> = Vec::new();
        let ghost none = Seq::<Seq<char>>::empty();
        assert(text::texts(parts@) =~= none);
        match self {
            Question::Import(p) => {
                parts.push(p.root.wire_name().to_owned());
                assert(text::texts(parts@) =~= seq![p@.root.wire()]);
            },
            Question::ReadFile(p) => {
                parts.push(p.root.wire_name().to_owned());
                assert(text::texts(parts@) =~= seq![p@.root.wire()]);
            },
            Question::ReadFileBytes(p) => {
                parts.push(p.root.wire_name().to_owned());
                assert(text::texts(parts@) =~= seq![p@.root.wire()]);
            },
            Question::ReadDir(p) => {
                parts.push(p.root.wire_name().to_owned());
                assert(text::texts(parts@) =~= seq![p@.root.wire()]);
            },
            Question::PathExists(p) => {
                parts.push(p.root.wire_name().to_owned());
                assert(text::texts(parts@) =~= seq![p@.root.wire()]);
            },
            Question::DirExists(p) => {
                parts.push(p.root.wire_name().to_owned());
                assert(text::texts(parts@) =~= seq![p@.root.wire()]);
            },
            Question::FileType(p) => {
                parts.push(p.root.wire_name().to_owned());
                assert(text::texts(parts@) =~= seq![p@.root.wire()]);
            },
            Question::FileTypeResolved(p) => {
                parts.push(p.root.wire_name().to_owned());
                assert(text::texts(parts@) =~= seq![p@.root.wire()]);
            },
            Question::Tree(p) => {
                parts.push(p.root.wire_name().to_owned());
                assert(text::texts(parts@) =~= seq![p@.root.wire()]);
            },
            Question::CopyToStore(p) => {
                parts.push(p.root.wire_name().to_owned());
                assert(text::texts(parts@) =~= seq![p@.root.wire()]);
            },
            Question::StorePath(p) => {
                parts.push(p.root.wire_name().to_owned());
                assert(text::texts(parts@) =~= seq![p@.root.wire()]);
            },
            Question::FindFile { entries, name: _ } => {
                digest::add_entries(&mut parts, entries);
                assert(text::texts(parts@) =~= digest::entry_fields(entries.deep_view()));
            },
            Question::StoreText { name: _, contents, references } => {
                parts.push(contents.clone());
                let mut more = text::copied(references);
                proof {
                    model::deep_texts(references);
                    assert(text::texts(parts@ + more@) =~= seq![contents@] + text::texts(
                        references@,
                    )) by {
                        assert forall|i: int| 0 <= i < more@.len() implies more@[i]@ == references@[i]@ by {
                            assert(text::texts(more@)[i] == text::texts(references@)[i]);
                        }
                    }
                }
                parts.append(&mut more);
            },
            Question::StoreFiltered(r) => {
                parts.push(r.root.root.wire_name().to_owned());
                parts.push(r.name.clone());
                parts.push(r.method.as_str().to_owned());
                assert(text::texts(parts@) =~= seq![
                    r@.root.root.wire(),
                    r@.name,
                    r@.method.spec_name(),
                ]);
                pin_texts(&mut parts, &r.expected_sha256);
                let ghost pinned = text::texts(parts@);
                match &r.accepted {
                    None => {
                        parts.push("unfiltered".to_owned());
                        assert(text::texts(parts@) =~= pinned + seq!["unfiltered"@]);
                    },
                    Some(list) => {
                        parts.push("filtered".to_owned());
                        assert(text::texts(parts@) =~= pinned + seq!["filtered"@]);
                        accepted_texts(&mut parts, list);
                        assert(text::texts(parts@) =~= pinned + (seq!["filtered"@]
                            + accepted_fields(list.deep_view())));
                    },
                }
                let ghost filtered = text::texts(parts@);
                if r.inherit_references {
                    parts.push("inherit-references".to_owned());
                    assert(text::texts(parts@) =~= filtered + seq!["inherit-references"@]);
                } else {
                    assert(filtered =~= filtered + none);
                }
            },
            Question::Fetch(r) => {
                parts.push(r.name.clone());
                parts.push(r.kind.as_str().to_owned());
                assert(text::texts(parts@) =~= seq![r@.name, r@.kind.spec_name()]);
                pin_texts(&mut parts, &r.expected_sha256);
            },
            Question::Realise(context) => {
                let ghost all = context.deep_view();
                let mut i: usize = 0;
                assert(text::texts(parts@) =~= elem_fields(all.take(0)));
                while i < context.len()
                    invariant
                        i <= context.len(),
                        all == context.deep_view(),
                        text::texts(parts@) == elem_fields(all.take(i as int)),
                    decreases context.len() - i,
                {
                    let ghost prior = parts@;
                    parts.push(context[i].display());
                    proof {
                        assert(text::texts(parts@) =~= text::texts(prior).push(
                            context@[i as int]@.shown(),
                        ));
                        assert(elem_fields(all.take(i + 1)) =~= elem_fields(
                            all.take(i as int),
                        ).push(context@[i as int]@.shown()));
                    }
                    i += 1;
                }
                assert(all.take(i as int) =~= all);
            },
            Question::FetchTree(r) => {
                parts.push(r.fetcher.as_str().to_owned());
                assert(text::texts(parts@) =~= seq![r@.fetcher.spec_name()]);
                attr_texts(&mut parts, &r.attrs);
            },
            Question::FlakeRefToString(attrs) => {
                attr_texts(&mut parts, attrs);
                assert(text::texts(parts@) =~= attr_fields(attrs@));
            },
            _ => {},
        }
        parts
    }

    /// The other arguments as bytes.
    pub fn key_parts(&self) -> (r: Vec<Vec<u8>>)
        ensures
            r.deep_view() == self@.key_parts(),
    {
        let mut fields: Vec<Vec<u8>> = Vec::new();
        if let Question::WriteDrv { name: _, answer: _, aterm } = self {
            let b = aterm.hash.to_vec();
            assert(b.deep_view() =~= b@);
            fields.push(b);
            assert(fields.deep_view() =~= seq![aterm@]);
            return fields;
        }
        let parts = self.key_texts();
        let ghost all = text::texts(parts@);
        let mut i: usize = 0;
        assert(fields.deep_view() =~= digest::utf8s(all).take(0));
        while i < parts.len()
            invariant
                i <= parts.len(),
                all == text::texts(parts@),
                fields.deep_view() == digest::utf8s(all).take(i as int),
            decreases parts.len() - i,
        {
            digest::add_text(&mut fields, parts[i].as_str());
            proof {
                assert(digest::utf8s(all).take(i + 1) =~= digest::utf8s(all).take(i as int).push(
                    text::utf8(parts@[i as int]@),
                ));
            }
            i += 1;
        }
        assert(digest::utf8s(all).take(i as int) =~= digest::utf8s(all));
        fields
    }

    /// What a question adds to a key.
    pub fn key_material(&self) -> (r: Vec<Vec<u8>>)
        ensures
            r.deep_view() == self@.key_material(),
    {
        let mut fields: Vec<Vec<u8>> = Vec::new();
        let mut tag: Vec<u8> = Vec::new();
        tag.push(self.tag());
        assert(tag.deep_view() =~= seq![self@.tag()]);
        fields.push(tag);
        assert(fields.deep_view() =~= seq![seq![self@.tag()]]);
        digest::add_text(&mut fields, self.arg().as_str());
        let ghost head = fields.deep_view();
        let ghost start = fields@;
        let mut more = self.key_parts();
        let ghost tail = more@;
        fields.append(&mut more);
        proof {
            model::deep_vec(&fields);
            assert(fields@ =~= start + tail);
            assert(fields.deep_view() =~= head + self@.key_parts());
            assert(head =~= seq![seq![self@.tag()], text::utf8(self@.arg())]);
        }
        fields
    }

    /// The store object that an answer names, where the question can be
    /// answered by that object's being there.
    pub fn named_object(&self, text: &str) -> (r: Option<String>)
        ensures
            r.deep_view() == self@.named_object(text@),
    {
        match self {
            Question::CopyToStore(_) => Some(text.to_owned()),
            Question::StoreFiltered(_) => Some(text.to_owned()),
            Question::Fetch(r) => if r.expected_sha256.is_some() {
                Some(text.to_owned())
            } else {
                None
            },
            Question::FetchTree(r) => if r.locked_final() {
                tree_out_path(text)
            } else {
                None
            },
            _ => None,
        }
    }

    /// The need by which the question is judged.
    pub fn as_need_path(&self) -> (r: NeedPath)
        ensures
            r@ == self@.need(),
    {
        match self {
            Question::Import(p) => NeedPath::Import(p.copied()),
            Question::ReadFile(p) => NeedPath::Contents(p.copied()),
            Question::ReadFileBytes(p) => NeedPath::Contents(p.copied()),
            Question::ReadDir(p) => NeedPath::Entries(p.copied()),
            Question::PathExists(p) => NeedPath::Exists(p.copied()),
            Question::DirExists(p) => NeedPath::DirExists(p.copied()),
            Question::FileType(p) => NeedPath::Kind(p.copied()),
            Question::FileTypeResolved(p) => NeedPath::Import(p.copied()),
            Question::GetEnv(n) => NeedPath::Env(n.clone()),
            Question::CopyToStore(p) => NeedPath::StorePath(p.copied()),
            Question::StorePath(p) => NeedPath::UseStorePath(p.copied()),
            Question::FindFile { entries, name } => NeedPath::FindFile {
                entries: entries.copied(),
                name: name.clone(),
            },
            Question::NixPath => NeedPath::NixPath,
            Question::EnsurePath(p) => NeedPath::EnsurePath(p.clone()),
            Question::Realise(context) => NeedPath::Realise(context.copied()),
            Question::StoreText { name, contents, references } => NeedPath::StoreText {
                name: name.clone(),
                contents: contents.clone(),
                references: references.copied(),
            },
            Question::WriteDrv { name, answer, aterm: _ } => NeedPath::WriteDrv {
                name: name.clone(),
                aterm: "".to_owned(),
                expected: answer.render(),
            },
            Question::StoreFiltered(r) => NeedPath::StoreFiltered(r.copied()),
            Question::Fetch(r) => NeedPath::Fetch(r.copied()),
            Question::FetchTree(r) => NeedPath::FetchTree(r.copied()),
            Question::LockFlake(r) => NeedPath::Flake(r.clone()),
            Question::ParseFlakeRef(r) => NeedPath::ParseFlakeRef(r.clone()),
            Question::FlakeRefToString(a) => NeedPath::FlakeRefToString(a.copied()),
            Question::Tree(p) => NeedPath::Exists(p.copied()),
        }
    }
}

/// The numbers of the kinds, which keys and written rows go by.
pub proof fn the_numbers_of_the_kinds(q: QuestionV)
    ensures
        match q.tag() {
            1 => q is ReadFile,
            2 => q is ReadDir,
            3 => q is PathExists,
            4 => q is FileType,
            5 => q is GetEnv,
            6 => q is CopyToStore,
            7 => q is FindFile,
            8 => q is NixPath,
            9 => q is EnsurePath,
            10 => q is StoreText,
            11 => q is StoreFiltered,
            12 => q is Fetch,
            13 => q is FetchTree,
            14 => q is FileTypeResolved,
            15 => q is LockFlake,
            16 => q is Realise,
            17 => q is ReadFileBytes,
            18 => q is ParseFlakeRef,
            19 => q is FlakeRefToString,
            20 => q is Import,
            21 => q is StorePath,
            22 => q is DirExists,
            23 => q is WriteDrv,
            24 => q is Tree,
            _ => false,
        },
{
}

/// An answer is kept only where its question can be answered by the object that
/// it names: of copies, of fetches that are pinned, and of final trees whose
/// hash is given.
pub proof fn which_answers_are_kept(q: QuestionV, answer: Result<Seq<char>, StoreErrorV>)
    ensures
        RecordedV::copy_record(q, answer) is Answer <==> (answer matches Ok(t) && (match q {
            QuestionV::CopyToStore(_) => true,
            QuestionV::StoreFiltered(_) => true,
            QuestionV::Fetch(r) => r.expected_sha256 is Some,
            QuestionV::FetchTree(r) => r.fetcher is FinalTree && ordered::find(
                r.attrs,
                "narHash"@,
            ) is Some && out_path(t) is Some,
            _ => false,
        })),
        RecordedV::copy_record(q, answer) matches RecordedV::Answer(t) ==> answer == Ok::<
            Seq<char>,
            StoreErrorV,
        >(t),
{
}

} // verus!
