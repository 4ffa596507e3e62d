//! How questions, rows and witnesses are written down.
use vstd::prelude::*;
use std::rc::Rc;
use crate::digest;
use crate::digest::{Digest, DigestV, HashFn, ObjId, WriteDrvAnswer, WriteDrvAnswerV};
use crate::host::FileType;
use crate::model;
use crate::model::Plain;
use crate::ordered;
use crate::ordered::TextMap;
use crate::question;
use crate::question::{Question, QuestionV, Recorded, RecordedV, WitnessRow};
use crate::task::{
    AcceptedPath,
    AcceptedPathV,
    FetchKind,
    FetchRequest,
    FetchRequestV,
    FetchTreeRequest,
    FetchTreeRequestV,
    FilteredCopy,
    FilteredCopyV,
    PathMethod,
    SearchPathEntry,
    SearchPathEntryV,
    TreeAttr,
    TreeAttrV,
    TreeFetcher,
};
use crate::text;
use crate::value::{ContextElem, ContextElemV, PathValue, PathValueV, RootV};

verus! {

/// A value with one canonical encoding.
#[derive(Debug, PartialEq, Eq)]
pub enum CanonValue {
    Int(u64),
    Str(String),
    Bytes(Vec<u8>),
    Array(Vec<CanonValue>),
    Table(Vec<(CanonValue, CanonValue)>),
    /// The thirty-two bytes of a digest that is still to be taken.
    Digest(Digest),
}

/// The model of [`CanonValue`].
#[verifier::ext_equal]
pub enum CanonV {
    Int(u64),
    Str(Seq<char>),
    Bytes(Seq<u8>),
    Array(Seq<CanonV>),
    Table(Seq<(CanonV, CanonV)>),
    Digest(DigestV),
}

impl CanonValue {
    pub open spec fn canon(&self) -> CanonV
        decreases self,
    {
        match self {
            CanonValue::Int(n) => CanonV::Int(*n),
            CanonValue::Str(s) => CanonV::Str(s@),
            CanonValue::Bytes(b) => CanonV::Bytes(b@),
            CanonValue::Array(v) => CanonV::Array(
                Seq::new(
                    v@.len(),
                    |i: int|
                        if 0 <= i < v@.len() {
                            v@[i].canon()
                        } else {
                            CanonV::Int(0)
                        },
                ),
            ),
            CanonValue::Table(v) => CanonV::Table(
                Seq::new(
                    v@.len(),
                    |i: int|
                        if 0 <= i < v@.len() {
                            (v@[i].0.canon(), v@[i].1.canon())
                        } else {
                            (CanonV::Int(0), CanonV::Int(0))
                        },
                ),
            ),
            CanonValue::Digest(d) => CanonV::Digest(d@),
        }
    }
}

impl CanonV {
    /// The value with its digests taken, answers being hashed by `hash`.
    pub open spec fn settled(self, hash: HashFn) -> CanonV
        decreases self,
    {
        match self {
            CanonV::Array(s) => CanonV::Array(
                Seq::new(
                    s.len(),
                    |i: int|
                        if 0 <= i < s.len() {
                            s[i].settled(hash)
                        } else {
                            CanonV::Int(0)
                        },
                ),
            ),
            CanonV::Table(s) => CanonV::Table(
                Seq::new(
                    s.len(),
                    |i: int|
                        if 0 <= i < s.len() {
                            (s[i].0.settled(hash), s[i].1.settled(hash))
                        } else {
                            (CanonV::Int(0), CanonV::Int(0))
                        },
                ),
            ),
            CanonV::Digest(d) => CanonV::Bytes(d.settled(hash)),
            _ => self,
        }
    }

    /// A number, a text or bytes.
    pub open spec fn single(self) -> bool {
        self is Int || self is Str || self is Bytes
    }

    /// A single value, or an array of them.
    pub open spec fn shallow(self) -> bool {
        self.single() || (self matches CanonV::Array(s) && forall|i: int|
            0 <= i < s.len() ==> (#[trigger] s[i]).single())
    }
}

proof fn shallow_is_settled(v: CanonV, hash: HashFn)
    requires
        v.shallow(),
    ensures
        v.settled(hash) == v,
{
    reveal_with_fuel(CanonV::settled, 2);
    if let CanonV::Array(s) = v {
        if let CanonV::Array(t) = v.settled(hash) {
            assert forall|i: int| 0 <= i < s.len() implies t[i] == s[i] by {
                assert(s[i].single());
            }
            assert(t =~= s);
        }
    }
}

impl View for CanonValue {
    type V = CanonV;

    open spec fn view(&self) -> CanonV {
        self.canon()
    }
}

impl DeepView for CanonValue {
    type V = CanonV;

    open spec fn deep_view(&self) -> CanonV {
        self@
    }
}

pub proof fn canon_array(v: Vec<CanonValue>)
    ensures
        CanonValue::Array(v)@ == CanonV::Array(model::deep(v@)),
{
    if let CanonV::Array(s) = CanonValue::Array(v)@ {
        assert(s =~= model::deep(v@));
    }
}


/// Texts as values.
pub open spec fn strs(t: Seq<Seq<char>>) -> Seq<CanonV> {
    Seq::new(t.len(), |i: int| CanonV::Str(t[i]))
}

/// The texts, where all the values are texts.
pub open spec fn all_str(s: Seq<CanonV>) -> Option<Seq<Seq<char>>> {
    if forall|i: int| 0 <= i < s.len() ==> (#[trigger] s[i]) is Str {
        Some(Seq::new(s.len(), |i: int| s[i]->Str_0))
    } else {
        None
    }
}

pub proof fn all_str_of_strs(t: Seq<Seq<char>>)
    ensures
        all_str(strs(t)) == Some(t),
{
    assert(all_str(strs(t))->0 =~= t);
}

/// A pin as a list of at most one.
pub open spec fn pin_list(sha256: Option<Seq<char>>) -> Seq<CanonV> {
    match sha256 {
        Some(h) => strs(seq![h]),
        None => Seq::empty(),
    }
}

/// What an accepted list is written as.
pub open spec fn accepted_list(accepted: Option<Seq<AcceptedPathV>>) -> Seq<CanonV> {
    match accepted {
        None => strs(seq!["unfiltered"@]),
        Some(list) => strs(seq!["filtered"@] + question::accepted_fields(list)),
    }
}

/// The values behind a question's tag and first argument.
pub open spec fn rest_value(q: QuestionV) -> Seq<CanonV> {
    match q {
        QuestionV::ReadFile(p) => strs(seq![p.root.wire()]),
        QuestionV::Import(p) => strs(seq![p.root.wire()]),
        QuestionV::ReadFileBytes(p) => strs(seq![p.root.wire()]),
        QuestionV::ReadDir(p) => strs(seq![p.root.wire()]),
        QuestionV::PathExists(p) => strs(seq![p.root.wire()]),
        QuestionV::DirExists(p) => strs(seq![p.root.wire()]),
        QuestionV::FileType(p) => strs(seq![p.root.wire()]),
        QuestionV::FileTypeResolved(p) => strs(seq![p.root.wire()]),
        QuestionV::CopyToStore(p) => strs(seq![p.root.wire()]),
        QuestionV::StorePath(p) => strs(seq![p.root.wire()]),
        QuestionV::Tree(p) => strs(seq![p.root.wire()]),
        QuestionV::StoreFiltered(r) => seq![
            CanonV::Str(r.root.root.wire()),
            CanonV::Array(
                strs(
                    if r.inherit_references {
                        seq![r.name, r.method.spec_name(), "inherit-references"@]
                    } else {
                        seq![r.name, r.method.spec_name()]
                    },
                ),
            ),
            CanonV::Array(pin_list(r.expected_sha256)),
            CanonV::Array(accepted_list(r.accepted)),
        ],
        QuestionV::FindFile { entries, name } => strs(digest::entry_fields(entries)),
        QuestionV::StoreText { name, contents, references } => strs(seq![contents] + references),
        QuestionV::WriteDrv { name, answer, aterm } => seq![
            CanonV::Str(answer.shown()),
            CanonV::Bytes(aterm),
        ],
        QuestionV::Realise(context) => strs(question::elem_fields(context)),
        QuestionV::FetchTree(r) => seq![
            CanonV::Array(strs(seq![r.fetcher.spec_name()] + question::attr_fields(r.attrs))),
        ],
        QuestionV::FlakeRefToString(attrs) => seq![
            CanonV::Array(strs(question::attr_fields(attrs))),
        ],
        QuestionV::Fetch(r) => seq![
            CanonV::Array(strs(seq![r.name, r.kind.spec_name()])),
            CanonV::Array(pin_list(r.expected_sha256)),
        ],
        _ => Seq::empty(),
    }
}

/// What a question is written as.
pub open spec fn written(q: QuestionV) -> CanonV {
    CanonV::Array(seq![CanonV::Int(q.tag() as u64), CanonV::Str(q.arg())] + rest_value(q))
}

/// Entries of prefixes and paths in turn.
pub open spec fn read_entries(t: Seq<Seq<char>>) -> Seq<SearchPathEntryV> {
    Seq::new(
        (t.len() / 2) as nat,
        |i: int| SearchPathEntryV { prefix: t[2 * i], path: t[2 * i + 1] },
    )
}

/// Accepted paths of paths and kinds in turn, where each kind is one.
pub open spec fn read_accepted(t: Seq<Seq<char>>) -> Option<Seq<AcceptedPathV>> {
    if t.len() % 2 == 0 && forall|i: int|
        0 <= i < t.len() / 2 ==> FileType::read(#[trigger] t[2 * i + 1]) is Some {
        Some(
            Seq::new(
                (t.len() / 2) as nat,
                |i: int|
                    AcceptedPathV { path: t[2 * i], file_type: FileType::read(t[2 * i + 1])->0 },
            ),
        )
    } else {
        None
    }
}

/// Attributes of the first `n` names, types and texts, where each is one.
pub open spec fn read_attrs(t: Seq<Seq<char>>, n: int) -> Option<Seq<(Seq<char>, TreeAttrV)>>
    decreases n,
{
    if n <= 0 {
        Some(Seq::empty())
    } else {
        match (read_attrs(t, n - 1), TreeAttrV::read(t[3 * n - 2], t[3 * n - 1])) {
            (Some(attrs), Some(a)) => Some(ordered::put(attrs, t[3 * n - 3], a)),
            _ => None,
        }
    }
}

/// Elements of their texts, where each is one.
pub open spec fn read_elems(t: Seq<Seq<char>>) -> Option<Seq<ContextElemV>> {
    if forall|i: int| 0 <= i < t.len() ==> ContextElemV::read(#[trigger] t[i]) is Some {
        Some(Seq::new(t.len(), |i: int| ContextElemV::read(t[i])->0))
    } else {
        None
    }
}

/// A pin from a list of at most one text; `None` of any other list.
pub open spec fn read_pin(sha: Seq<CanonV>) -> Option<Option<Seq<char>>> {
    if sha.len() == 0 {
        Some(None)
    } else if sha.len() > 1 {
        None
    } else if let CanonV::Str(h) = sha[0] {
        Some(Some(h))
    } else {
        None
    }
}

/// A filtered copy of `path` from what follows it.
pub open spec fn read_filtered(path: Seq<char>, rest: Seq<CanonV>) -> Option<QuestionV> {
    if rest.len() != 4 {
        None
    } else {
        match (rest[0], rest[1], rest[2], rest[3]) {
            (
                CanonV::Str(root),
                CanonV::Array(head),
                CanonV::Array(sha),
                CanonV::Array(list),
            ) => if head.len() < 2 || head.len() > 3 || list.len() == 0 {
                None
            } else {
                match (head[0], head[1], list[0]) {
                    (CanonV::Str(name), CanonV::Str(method), CanonV::Str(marker)) => {
                        let inherit = if head.len() == 2 {
                            Some(false)
                        } else if head[2] == CanonV::Str("inherit-references"@) {
                            Some(true)
                        } else {
                            None
                        };
                        let accepted = if marker == "unfiltered"@ {
                            if list.len() == 1 {
                                Some(None)
                            } else {
                                None
                            }
                        } else if marker == "filtered"@ {
                            match all_str(list.skip(1)) {
                                Some(t) => match read_accepted(t) {
                                    Some(a) => Some(Some(a)),
                                    None => None,
                                },
                                None => None,
                            }
                        } else {
                            None
                        };
                        match (inherit, read_pin(sha), accepted, PathMethod::read(method)) {
                            (
                                Some(inherit_references),
                                Some(expected_sha256),
                                Some(accepted),
                                Some(method),
                            ) => Some(
                                QuestionV::StoreFiltered(
                                    FilteredCopyV {
                                        root: PathValueV { root: RootV::read(root), path },
                                        name,
                                        method,
                                        accepted,
                                        expected_sha256,
                                        inherit_references,
                                    },
                                ),
                            ),
                            _ => None,
                        }
                    },
                    _ => None,
                }
            },
            _ => None,
        }
    }
}

/// A fetch of `url` from what follows it.
pub open spec fn read_fetch(url: Seq<char>, rest: Seq<CanonV>) -> Option<QuestionV> {
    if rest.len() != 2 {
        None
    } else {
        match (rest[0], rest[1]) {
            (CanonV::Array(head), CanonV::Array(sha)) => if head.len() != 2 {
                None
            } else {
                match (head[0], head[1]) {
                    (CanonV::Str(name), CanonV::Str(kind)) => match (
                        read_pin(sha),
                        FetchKind::read(kind),
                    ) {
                        (Some(expected_sha256), Some(kind)) => Some(
                            QuestionV::Fetch(FetchRequestV { url, name, kind, expected_sha256 }),
                        ),
                        _ => None,
                    },
                    _ => None,
                }
            },
            _ => None,
        }
    }
}

/// Attributes from a list of texts in threes.
pub open spec fn read_triples(items: Seq<CanonV>) -> Option<Seq<(Seq<char>, TreeAttrV)>> {
    match all_str(items) {
        Some(t) => if t.len() % 3 == 0 {
            read_attrs(t, t.len() as int / 3)
        } else {
            None
        },
        None => None,
    }
}

/// A tree to fetch from what follows the first argument.
pub open spec fn read_fetch_tree(rest: Seq<CanonV>) -> Option<QuestionV> {
    if rest.len() != 1 {
        None
    } else if let CanonV::Array(items) = rest[0] {
        if items.len() == 0 {
            None
        } else if let CanonV::Str(fetcher) = items[0] {
            match (read_triples(items.skip(1)), TreeFetcher::read(fetcher)) {
                (Some(attrs), Some(fetcher)) => Some(
                    QuestionV::FetchTree(FetchTreeRequestV { attrs, fetcher }),
                ),
                _ => None,
            }
        } else {
            None
        }
    } else {
        None
    }
}

/// A flake reference to print from what follows the first argument.
pub open spec fn read_flake_ref(rest: Seq<CanonV>) -> Option<QuestionV> {
    if rest.len() != 1 {
        None
    } else if let CanonV::Array(items) = rest[0] {
        match read_triples(items) {
            Some(attrs) => Some(QuestionV::FlakeRefToString(attrs)),
            None => None,
        }
    } else {
        None
    }
}

/// The path that a path question is about.
pub open spec fn read_rooted(arg: Seq<char>, rest: Seq<CanonV>) -> Option<PathValueV> {
    if rest.len() == 0 {
        None
    } else if let CanonV::Str(root) = rest[0] {
        Some(PathValueV { root: RootV::read(root), path: arg })
    } else {
        None
    }
}

/// The question of a tag, a first argument and what follows.
pub open spec fn read_parts(tag: u64, arg: Seq<char>, rest: Seq<CanonV>) -> Option<QuestionV> {
    let rooted = read_rooted(arg, rest);
    if tag == 5 {
        Some(QuestionV::GetEnv(arg))
    } else if tag == 7 {
        match all_str(rest) {
            Some(t) => if t.len() % 2 == 0 {
                Some(QuestionV::FindFile { entries: read_entries(t), name: arg })
            } else {
                None
            },
            None => None,
        }
    } else if tag == 8 {
        Some(QuestionV::NixPath)
    } else if tag == 9 {
        Some(QuestionV::EnsurePath(arg))
    } else if tag == 10 {
        match all_str(rest) {
            Some(t) => if t.len() > 0 {
                Some(QuestionV::StoreText { name: arg, contents: t[0], references: t.skip(1) })
            } else {
                None
            },
            None => None,
        }
    } else if tag == 11 {
        read_filtered(arg, rest)
    } else if tag == 12 {
        read_fetch(arg, rest)
    } else if tag == 13 {
        read_fetch_tree(rest)
    } else if tag == 15 {
        Some(QuestionV::LockFlake(arg))
    } else if tag == 16 {
        match all_str(rest) {
            Some(t) => match read_elems(t) {
                Some(context) => Some(QuestionV::Realise(context)),
                None => None,
            },
            None => None,
        }
    } else if tag == 18 {
        Some(QuestionV::ParseFlakeRef(arg))
    } else if tag == 19 {
        read_flake_ref(rest)
    } else if tag == 23 {
        if rest.len() != 2 {
            None
        } else {
            match (rest[0], rest[1]) {
                (CanonV::Str(shown), CanonV::Bytes(raw)) => match WriteDrvAnswerV::read(shown) {
                    Some(answer) => if raw.len() == 32 {
                        Some(QuestionV::WriteDrv { name: arg, answer, aterm: raw })
                    } else {
                        None
                    },
                    None => None,
                },
                _ => None,
            }
        }
    } else {
        match rooted {
            None => None,
            Some(p) => rooted_question(tag, p),
        }
    }
}

/// The path question of that tag.
pub open spec fn rooted_question(tag: u64, p: PathValueV) -> Option<QuestionV> {
    if tag == 1 {
        Some(QuestionV::ReadFile(p))
    } else if tag == 2 {
        Some(QuestionV::ReadDir(p))
    } else if tag == 3 {
        Some(QuestionV::PathExists(p))
    } else if tag == 4 {
        Some(QuestionV::FileType(p))
    } else if tag == 6 {
        Some(QuestionV::CopyToStore(p))
    } else if tag == 14 {
        Some(QuestionV::FileTypeResolved(p))
    } else if tag == 17 {
        Some(QuestionV::ReadFileBytes(p))
    } else if tag == 20 {
        Some(QuestionV::Import(p))
    } else if tag == 21 {
        Some(QuestionV::StorePath(p))
    } else if tag == 22 {
        Some(QuestionV::DirExists(p))
    } else if tag == 24 {
        Some(QuestionV::Tree(p))
    } else {
        None
    }
}

/// The question that is written so, if one is.
pub open spec fn question_read(v: CanonV) -> Option<QuestionV> {
    match v {
        CanonV::Array(parts) => if parts.len() < 2 {
            None
        } else {
            match (parts[0], parts[1]) {
                (CanonV::Int(tag), CanonV::Str(arg)) => read_parts(tag, arg, parts.skip(2)),
                _ => None,
            }
        },
        _ => None,
    }
}

pub proof fn entry_fields_at(e: Seq<SearchPathEntryV>)
    ensures
        digest::entry_fields(e).len() == 2 * e.len(),
        forall|i: int|
            0 <= i < e.len() ==> digest::entry_fields(e)[2 * i] == (#[trigger] e[i]).prefix
                && digest::entry_fields(e)[2 * i + 1] == e[i].path,
    decreases e.len(),
{
    if e.len() > 0 {
        let d = e.drop_last();
        entry_fields_at(d);
        assert forall|i: int| 0 <= i < e.len() implies digest::entry_fields(e)[2 * i] == (
        #[trigger] e[i]).prefix && digest::entry_fields(e)[2 * i + 1] == e[i].path by {
            if i < d.len() {
                assert(d[i] == e[i]);
            }
        }
    }
}

pub proof fn accepted_fields_at(e: Seq<AcceptedPathV>)
    ensures
        question::accepted_fields(e).len() == 2 * e.len(),
        forall|i: int|
            0 <= i < e.len() ==> question::accepted_fields(e)[2 * i] == (#[trigger] e[i]).path
                && question::accepted_fields(e)[2 * i + 1] == e[i].file_type.spec_name(),
    decreases e.len(),
{
    if e.len() > 0 {
        let d = e.drop_last();
        accepted_fields_at(d);
        assert forall|i: int| 0 <= i < e.len() implies question::accepted_fields(e)[2 * i] == (
        #[trigger] e[i]).path && question::accepted_fields(e)[2 * i + 1]
            == e[i].file_type.spec_name() by {
            if i < d.len() {
                assert(d[i] == e[i]);
            }
        }
    }
}

pub proof fn attr_fields_at(e: Seq<(Seq<char>, TreeAttrV)>)
    ensures
        question::attr_fields(e).len() == 3 * e.len(),
        forall|i: int|
            0 <= i < e.len() ==> question::attr_fields(e)[3 * i] == (#[trigger] e[i]).0
                && question::attr_fields(e)[3 * i + 1] == e[i].1.tag() && question::attr_fields(
                e,
            )[3 * i + 2] == e[i].1.shown(),
    decreases e.len(),
{
    if e.len() > 0 {
        let d = e.drop_last();
        attr_fields_at(d);
        assert forall|i: int| 0 <= i < e.len() implies question::attr_fields(e)[3 * i] == (
        #[trigger] e[i]).0 && question::attr_fields(e)[3 * i + 1] == e[i].1.tag()
            && question::attr_fields(e)[3 * i + 2] == e[i].1.shown() by {
            if i < d.len() {
                assert(d[i] == e[i]);
            }
        }
    }
}

proof fn entries_read_back(e: Seq<SearchPathEntryV>)
    ensures
        read_entries(digest::entry_fields(e)) == e,
        digest::entry_fields(e).len() % 2 == 0,
{
    entry_fields_at(e);
    let t = digest::entry_fields(e);
    assert forall|i: int| 0 <= i < e.len() implies read_entries(t)[i] == e[i] by {
        assert(t[2 * i] == e[i].prefix);
    }
    assert(read_entries(t) =~= e);
}

proof fn accepted_read_back(e: Seq<AcceptedPathV>)
    ensures
        read_accepted(question::accepted_fields(e)) == Some(e),
{
    accepted_fields_at(e);
    let t = question::accepted_fields(e);
    assert forall|i: int| 0 <= i < t.len() / 2 implies FileType::read(
        #[trigger] t[2 * i + 1],
    ) is Some by {
        assert(t[2 * i] == e[i].path);
        crate::host::file_type_reads_back(e[i].file_type);
    }
    let r = read_accepted(t)->0;
    assert forall|i: int| 0 <= i < e.len() implies r[i] == e[i] by {
        assert(t[2 * i] == e[i].path);
        crate::host::file_type_reads_back(e[i].file_type);
    }
    assert(r =~= e);
}

proof fn attrs_read_back(e: Seq<(Seq<char>, TreeAttrV)>, n: int)
    requires
        text::sorted(ordered::keys(e)),
        0 <= n <= e.len(),
    ensures
        read_attrs(question::attr_fields(e), n) == Some(e.take(n)),
    decreases n,
{
    attr_fields_at(e);
    if n == 0 {
        assert(e.take(0) =~= Seq::empty());
    } else {
        let t = question::attr_fields(e);
        attrs_read_back(e, n - 1);
        let a = e[n - 1];
        assert(t[3 * (n - 1)] == a.0);
        crate::task::tree_attr_reads_back(a.1);
        let m = e.take(n - 1);
        assert forall|i: int| 0 <= i < m.len() implies text::lt((#[trigger] m[i]).0, a.0) by {
            assert(text::lt(ordered::keys(e)[i], ordered::keys(e)[n - 1]));
        }
        ordered::put_last(m, a.0, a.1);
        assert(e.take(n) =~= m.push(a));
    }
}

proof fn triples_read_back(e: Seq<(Seq<char>, TreeAttrV)>)
    requires
        text::sorted(ordered::keys(e)),
    ensures
        read_triples(strs(question::attr_fields(e))) == Some(e),
{
    all_str_of_strs(question::attr_fields(e));
    attr_fields_at(e);
    attrs_read_back(e, e.len() as int);
    assert(e.take(e.len() as int) =~= e);
}

proof fn elems_read_back(c: Seq<ContextElemV>)
    requires
        forall|i: int| 0 <= i < c.len() ==> (#[trigger] c[i]).wf(),
    ensures
        read_elems(question::elem_fields(c)) == Some(c),
{
    let t = question::elem_fields(c);
    assert forall|i: int| 0 <= i < t.len() implies ContextElemV::read(#[trigger] t[i]) == Some(
        c[i],
    ) by {
        crate::value::elem_reads_back(c[i]);
    }
    assert(read_elems(t)->0 =~= c);
}

proof fn pin_reads_back(pin: Option<Seq<char>>)
    ensures
        read_pin(pin_list(pin)) == Some(pin),
{
}

proof fn filtered_reads_back(r: FilteredCopyV)
    requires
        r.root.wf(),
    ensures
        read_filtered(r.root.path, rest_value(QuestionV::StoreFiltered(r))) == Some(
            QuestionV::StoreFiltered(r),
        ),
{
    reveal_strlit("unfiltered");
    reveal_strlit("filtered");
    let rest = rest_value(QuestionV::StoreFiltered(r));
    let head = strs(
        if r.inherit_references {
            seq![r.name, r.method.spec_name(), "inherit-references"@]
        } else {
            seq![r.name, r.method.spec_name()]
        },
    );
    assert(rest[1] == CanonV::Array(head));
    assert(head[0] == CanonV::Str(r.name));
    assert(head[1] == CanonV::Str(r.method.spec_name()));
    let list = accepted_list(r.accepted);
    assert("unfiltered"@.len() != "filtered"@.len());
    crate::task::path_method_reads_back(r.method);
    crate::value::root_reads_back(r.root.root);
    pin_reads_back(r.expected_sha256);
    match r.accepted {
        None => {
            assert(list[0] == CanonV::Str("unfiltered"@));
        },
        Some(a) => {
            assert(list[0] == CanonV::Str("filtered"@));
            assert(list.skip(1) =~= strs(question::accepted_fields(a)));
            all_str_of_strs(question::accepted_fields(a));
            accepted_read_back(a);
        },
    }
}

/// What a question is written as is read back as that question.
pub proof fn question_round_trips(q: QuestionV)
    requires
        q.wf(),
    ensures
        question_read(written(q)) == Some(q),
{
    let rest = rest_value(q);
    let parts = seq![CanonV::Int(q.tag() as u64), CanonV::Str(q.arg())] + rest;
    assert(parts.skip(2) =~= rest);
    if let Some(p) = q.path() {
        crate::value::root_reads_back(p.root);
    }
    match q {
        QuestionV::StorePath(p) => {
            crate::value::root_reads_back(p.root);
        },
        QuestionV::StoreFiltered(r) => {
            filtered_reads_back(r);
        },
        QuestionV::FindFile { entries, name } => {
            all_str_of_strs(digest::entry_fields(entries));
            entries_read_back(entries);
        },
        QuestionV::StoreText { name, contents, references } => {
            let t = seq![contents] + references;
            all_str_of_strs(t);
            assert(t.skip(1) =~= references);
        },
        QuestionV::WriteDrv { name, answer, aterm } => {
            digest::write_drv_answer_reads_back(answer);
        },
        QuestionV::Realise(context) => {
            all_str_of_strs(question::elem_fields(context));
            elems_read_back(context);
        },
        QuestionV::FetchTree(r) => {
            let items = strs(seq![r.fetcher.spec_name()] + question::attr_fields(r.attrs));
            assert(items.skip(1) =~= strs(question::attr_fields(r.attrs)));
            triples_read_back(r.attrs);
            crate::task::tree_fetcher_reads_back(r.fetcher);
        },
        QuestionV::FlakeRefToString(attrs) => {
            triples_read_back(attrs);
        },
        QuestionV::Fetch(r) => {
            crate::task::fetch_kind_reads_back(r.kind);
            pin_reads_back(r.expected_sha256);
        },
        _ => {},
    }
}

/// No two kinds share a tag, and none has the tag 0.
pub proof fn tags_are_distinct(a: QuestionV, b: QuestionV)
    ensures
        a.tag() != 0,
        a.tag() == b.tag() ==> kind_index(a) == kind_index(b),
{
}

/// The place of the kind in the list of all kinds.
pub open spec fn kind_index(q: QuestionV) -> int {
    match q {
        QuestionV::ReadFile(..) => 0,
        QuestionV::ReadDir(..) => 1,
        QuestionV::PathExists(..) => 2,
        QuestionV::FileType(..) => 3,
        QuestionV::GetEnv(..) => 4,
        QuestionV::CopyToStore(..) => 5,
        QuestionV::FindFile { .. } => 6,
        QuestionV::NixPath => 7,
        QuestionV::EnsurePath(..) => 8,
        QuestionV::StoreText { .. } => 9,
        QuestionV::StoreFiltered(..) => 10,
        QuestionV::Fetch(..) => 11,
        QuestionV::FetchTree(..) => 12,
        QuestionV::FileTypeResolved(..) => 13,
        QuestionV::LockFlake(..) => 14,
        QuestionV::Realise(..) => 15,
        QuestionV::ReadFileBytes(..) => 16,
        QuestionV::ParseFlakeRef(..) => 17,
        QuestionV::FlakeRefToString(..) => 18,
        QuestionV::Import(..) => 19,
        QuestionV::StorePath(..) => 20,
        QuestionV::DirExists(..) => 21,
        QuestionV::WriteDrv { .. } => 22,
        QuestionV::Tree(..) => 23,
    }
}

/// The texts as values.
fn str_values(t: &Vec<String>) -> (r: Vec<CanonValue>)
    ensures
        model::deep(r@) == strs(text::texts(t@)),
{
    let mut r: Vec<CanonValue> = Vec::new();
    let ghost all = strs(text::texts(t@));
    let mut i: usize = 0;
    assert(model::deep(r@) =~= all.take(0));
    while i < t.len()
        invariant
            i <= t.len(),
            all == strs(text::texts(t@)),
            model::deep(r@) == all.take(i as int),
        decreases t.len() - i,
    {
        let v = CanonValue::Str(t[i].clone());
        proof {
            model::deep_push(r@, v);
            assert(all.take(i + 1) =~= all.take(i as int).push(v@));
        }
        r.push(v);
        i += 1;
    }
    assert(all.take(i as int) =~= all);
    r
}

/// The texts from `from` on, where all the values there are texts.
fn str_tail(v: &Vec<CanonValue>, from: usize) -> (r: Option<Vec<String>>)
    requires
        from <= v.len(),
    ensures
        match r {
            Some(t) => all_str(model::deep(v@).skip(from as int)) == Some(text::texts(t@)),
            None => all_str(model::deep(v@).skip(from as int)) is None,
        },
{
    let ghost s = model::deep(v@).skip(from as int);
    let mut t: Vec<String> = Vec::new();
    let mut i: usize = from;
    while i < v.len()
        invariant
            from <= i <= v.len(),
            s == model::deep(v@).skip(from as int),
            t.len() == i - from,
            forall|j: int| 0 <= j < i - from ==> #[trigger] s[j] == CanonV::Str(t@[j]@),
        decreases v.len() - i,
    {
        match &v[i] {
            CanonValue::Str(x) => {
                assert(s[i - from] == CanonV::Str(x@));
                t.push(x.clone());
            },
            _ => {
                assert(s[i - from] !is Str);
                return None;
            },
        }
        i += 1;
    }
    assert(all_str(s)->0 =~= text::texts(t@));
    Some(t)
}

pub fn array_of(v: Vec<CanonValue>) -> (r: CanonValue)
    ensures
        r@ == CanonV::Array(model::deep(v@)),
{
    proof {
        canon_array(v);
    }
    CanonValue::Array(v)
}

fn pin_values(sha256: &Option<String>) -> (r: CanonValue)
    ensures
        r@ == CanonV::Array(pin_list(sha256.deep_view())),
{
    let mut t: Vec<String> = Vec::new();
    if let Some(h) = sha256 {
        t.push(h.clone());
        assert(text::texts(t@) =~= seq![h@]);
    } else {
        assert(strs(text::texts(t@)) =~= Seq::<CanonV>::empty());
    }
    array_of(str_values(&t))
}

/// The values behind a question's tag and first argument.
fn rest_values(q: &Question) -> (r: Vec<CanonValue>)
    ensures
        model::deep(r@) == rest_value(q@),
{
    match q {
        Question::StoreFiltered(r) => {
            let mut rest: Vec<CanonValue> = Vec::new();
            rest.push(CanonValue::Str(r.root.root.wire_name().to_owned()));
            let mut head: Vec<String> = Vec::new();
            head.push(r.name.clone());
            head.push(r.method.as_str().to_owned());
            if r.inherit_references {
                head.push("inherit-references".to_owned());
            }
            proof {
                assert(text::texts(head@) =~= if r.inherit_references {
                    seq![r@.name, r@.method.spec_name(), "inherit-references"@]
                } else {
                    seq![r@.name, r@.method.spec_name()]
                });
            }
            rest.push(array_of(str_values(&head)));
            rest.push(pin_values(&r.expected_sha256));
            let mut list: Vec<String> = Vec::new();
            match &r.accepted {
                None => {
                    list.push("unfiltered".to_owned());
                    assert(text::texts(list@) =~= seq!["unfiltered"@]);
                },
                Some(a) => {
                    list.push("filtered".to_owned());
                    assert(text::texts(list@) =~= seq!["filtered"@]);
                    question::accepted_texts(&mut list, a);
                },
            }
            rest.push(array_of(str_values(&list)));
            assert(model::deep(rest@) =~= rest_value(q@));
            rest
        },
        Question::WriteDrv { name: _, answer, aterm } => {
            let mut rest: Vec<CanonValue> = Vec::new();
            rest.push(CanonValue::Str(answer.render()));
            rest.push(CanonValue::Bytes(aterm.hash.to_vec()));
            assert(model::deep(rest@) =~= rest_value(q@));
            rest
        },
        Question::FetchTree(_) => {
            let t = q.key_texts();
            let mut rest: Vec<CanonValue> = Vec::new();
            rest.push(array_of(str_values(&t)));
            assert(model::deep(rest@) =~= rest_value(q@));
            rest
        },
        Question::FlakeRefToString(_) => {
            let t = q.key_texts();
            let mut rest: Vec<CanonValue> = Vec::new();
            rest.push(array_of(str_values(&t)));
            assert(model::deep(rest@) =~= rest_value(q@));
            rest
        },
        Question::Fetch(r) => {
            let mut head: Vec<String> = Vec::new();
            head.push(r.name.clone());
            head.push(r.kind.as_str().to_owned());
            assert(text::texts(head@) =~= seq![r@.name, r@.kind.spec_name()]);
            let mut rest: Vec<CanonValue> = Vec::new();
            rest.push(array_of(str_values(&head)));
            rest.push(pin_values(&r.expected_sha256));
            assert(model::deep(rest@) =~= rest_value(q@));
            rest
        },
        _ => {
            let t = q.key_texts();
            let rest = str_values(&t);
            assert(strs(Seq::<Seq<char>>::empty()) =~= Seq::<CanonV>::empty());
            rest
        },
    }
}

/// What a question is written as.
pub fn question_value(q: &Question) -> (r: CanonValue)
    ensures
        r@ == written(q@),
{
    let mut parts: Vec<CanonValue> = Vec::new();
    parts.push(CanonValue::Int(q.tag() as u64));
    parts.push(CanonValue::Str(q.arg()));
    let ghost head = parts@;
    let mut rest = rest_values(q);
    let ghost tail = rest@;
    parts.append(&mut rest);
    proof {
        assert(parts@ =~= head + tail);
        assert(model::deep(parts@) =~= seq![CanonV::Int(q@.tag() as u64), CanonV::Str(q@.arg())]
            + rest_value(q@));
    }
    array_of(parts)
}

fn entries_from(t: &Vec<String>) -> (r: Vec<SearchPathEntry>)
    requires
        t.len() % 2 == 0,
    ensures
        r.deep_view() == read_entries(text::texts(t@)),
{
    let ghost all = text::texts(t@);
    let mut r: Vec<SearchPathEntry> = Vec::new();
    let n: usize = t.len() / 2;
    let mut i: usize = 0;
    while i < n
        invariant
            i <= n,
            n == t.len() / 2,
            all == text::texts(t@),
            r.len() == i,
            forall|j: int| 0 <= j < i ==> (#[trigger] r@[j])@ == read_entries(all)[j],
        decreases n - i,
    {
        r.push(SearchPathEntry { prefix: t[2 * i].clone(), path: t[2 * i + 1].clone() });
        i += 1;
    }
    assert(r.deep_view() =~= read_entries(all));
    r
}

fn accepted_from(t: &Vec<String>) -> (r: Option<Vec<AcceptedPath>>)
    ensures
        r.deep_view() == read_accepted(text::texts(t@)),
{
    let ghost all = text::texts(t@);
    if t.len() % 2 != 0 {
        return None;
    }
    let mut r: Vec<AcceptedPath> = Vec::new();
    let n: usize = t.len() / 2;
    let mut i: usize = 0;
    while i < n
        invariant
            i <= n,
            n == t.len() / 2,
            t.len() % 2 == 0,
            all == text::texts(t@),
            r.len() == i,
            forall|j: int|
                0 <= j < i ==> FileType::read(#[trigger] all[2 * j + 1]) is Some && r@[j]@ == (
                AcceptedPathV { path: all[2 * j], file_type: FileType::read(all[2 * j + 1])->0 }),
        decreases n - i,
    {
        match file_type_from(t[2 * i + 1].as_str()) {
            Some(file_type) => {
                r.push(AcceptedPath { path: t[2 * i].clone(), file_type });
            },
            None => {
                assert(FileType::read(all[2 * i + 1]) is None);
                return None;
            },
        }
        i += 1;
    }
    proof {
        let want = read_accepted(all)->0;
        assert(r.deep_view() =~= want) by {
            assert forall|j: int| 0 <= j < n implies r@[j].deep_view() == want[j] by {
                assert(FileType::read(all[2 * j + 1]) is Some);
            }
        }
    }
    Some(r)
}

/// The kind of file of that name.
pub fn file_type_from(name: &str) -> (r: Option<FileType>)
    ensures
        r == FileType::read(name@),
{
    FileType::parse(name)
}

fn attrs_from(t: &Vec<String>) -> (r: Option<TextMap<TreeAttr>>)
    requires
        t.len() % 3 == 0,
    ensures
        match r {
            Some(m) => read_attrs(text::texts(t@), t@.len() as int / 3) == Some(m@) && m.wf(),
            None => read_attrs(text::texts(t@), t@.len() as int / 3) is None,
        },
{
    let ghost all = text::texts(t@);
    let mut m: TextMap<TreeAttr> = TextMap::new();
    let n: usize = t.len() / 3;
    let mut i: usize = 0;
    while i < n
        invariant
            i <= n,
            n == t.len() / 3,
            all == text::texts(t@),
            m.wf(),
            read_attrs(all, i as int) == Some(m@),
        decreases n - i,
    {
        match TreeAttr::parse(t[3 * i + 1].as_str(), t[3 * i + 2].as_str()) {
            Some(a) => {
                m.insert(t[3 * i].clone(), a);
            },
            None => {
                proof {
                    assert(read_attrs(all, i + 1) is None);
                    attrs_none(all, i + 1, n as int);
                }
                return None;
            },
        }
        i += 1;
    }
    Some(m)
}

proof fn attrs_none(t: Seq<Seq<char>>, i: int, n: int)
    requires
        1 <= i <= n,
        read_attrs(t, i) is None,
    ensures
        read_attrs(t, n) is None,
    decreases n - i,
{
    if i < n {
        attrs_none(t, i + 1, n);
    }
}

fn triples_from(items: &Vec<CanonValue>, from: usize) -> (r: Option<TextMap<TreeAttr>>)
    requires
        from <= items.len(),
    ensures
        match r {
            Some(m) => read_triples(model::deep(items@).skip(from as int)) == Some(m@) && m.wf(),
            None => read_triples(model::deep(items@).skip(from as int)) is None,
        },
{
    match str_tail(items, from) {
        Some(t) => if t.len() % 3 == 0 {
            attrs_from(&t)
        } else {
            None
        },
        None => None,
    }
}

fn elems_from(t: &Vec<String>) -> (r: Option<Vec<ContextElem>>)
    ensures
        r.deep_view() == read_elems(text::texts(t@)),
{
    let ghost all = text::texts(t@);
    let mut r: Vec<ContextElem> = Vec::new();
    let mut i: usize = 0;
    while i < t.len()
        invariant
            i <= t.len(),
            all == text::texts(t@),
            r.len() == i,
            forall|j: int| 0 <= j < i ==> ContextElemV::read(#[trigger] all[j]) == Some(r@[j]@),
        decreases t.len() - i,
    {
        match ContextElem::parse(t[i].as_str()) {
            Some(e) => {
                r.push(e);
            },
            None => {
                assert(ContextElemV::read(all[i as int]) is None);
                return None;
            },
        }
        i += 1;
    }
    proof {
        assert(r.deep_view() =~= read_elems(all)->0) by {
            assert forall|j: int| 0 <= j < t.len() implies r@[j].deep_view() == read_elems(all)->0[j] by {
                assert(ContextElemV::read(all[j]) == Some(r@[j]@));
            }
        }
    }
    Some(r)
}

/// A pin from a list of at most one text; the outer `None` of any other list.
fn pin_from(sha: &Vec<CanonValue>) -> (r: Option<Option<String>>)
    ensures
        r.deep_view() == read_pin(model::deep(sha@)),
{
    if sha.len() == 0 {
        return Some(None);
    }
    if sha.len() > 1 {
        return None;
    }
    match &sha[0] {
        CanonValue::Str(h) => Some(Some(h.clone())),
        _ => None,
    }
}

/// A filtered copy of `path` from `rest[2..]`.
fn question_filtered(path: &str, rest: &Vec<CanonValue>) -> (r: Option<Question>)
    requires
        rest.len() >= 2,
    ensures
        r.deep_view() == read_filtered(path@, model::deep(rest@).skip(2)),
{
    let ghost s = model::deep(rest@).skip(2);
    if rest.len() != 6 {
        return None;
    }
    proof {
        assert(s[0] == rest@[2]@);
        assert(s[1] == rest@[3]@);
        assert(s[2] == rest@[4]@);
        assert(s[3] == rest@[5]@);
    }
    let (
        CanonValue::Str(root),
        CanonValue::Array(head),
        CanonValue::Array(sha),
        CanonValue::Array(list),
    ) = (&rest[2], &rest[3], &rest[4], &rest[5]) else {
        return None;
    };
    proof {
        canon_array(*head);
        canon_array(*sha);
        canon_array(*list);
    }
    if head.len() < 2 || head.len() > 3 || list.len() == 0 {
        return None;
    }
    let (CanonValue::Str(name), CanonValue::Str(method), CanonValue::Str(marker)) = (
        &head[0],
        &head[1],
        &list[0],
    ) else {
        return None;
    };
    assert(model::deep(head@)[0] == CanonV::Str(name@));
    assert(model::deep(head@)[1] == CanonV::Str(method@));
    assert(model::deep(list@)[0] == CanonV::Str(marker@));
    let inherit_references = if head.len() == 2 {
        false
    } else {
        assert(model::deep(head@)[2] == head@[2]@);
        match &head[2] {
            CanonValue::Str(m) => if text::same(m.as_str(), "inherit-references") {
                true
            } else {
                return None;
            },
            _ => {
                return None;
            },
        }
    };
    let Some(expected_sha256) = pin_from(sha) else {
        return None;
    };
    let accepted = if text::same(marker.as_str(), "unfiltered") {
        if list.len() != 1 {
            return None;
        }
        None
    } else if text::same(marker.as_str(), "filtered") {
        let Some(t) = str_tail(list, 1) else {
            return None;
        };
        let Some(a) = accepted_from(&t) else {
            return None;
        };
        Some(a)
    } else {
        return None;
    };
    let Some(method) = PathMethod::parse(method.as_str()) else {
        return None;
    };
    let root = Rc::new(PathValue::from_wire(root.as_str(), path));
    Some(
        Question::StoreFiltered(
            Box::new(
                FilteredCopy {
                    root,
                    name: name.clone(),
                    method,
                    accepted,
                    expected_sha256,
                    inherit_references,
                },
            ),
        ),
    )
}

/// A fetch of `url` from `rest[2..]`.
fn question_fetch(url: &str, rest: &Vec<CanonValue>) -> (r: Option<Question>)
    requires
        rest.len() >= 2,
    ensures
        r.deep_view() == read_fetch(url@, model::deep(rest@).skip(2)),
{
    let ghost s = model::deep(rest@).skip(2);
    if rest.len() != 4 {
        return None;
    }
    assert(s[0] == rest@[2]@);
    assert(s[1] == rest@[3]@);
    let (CanonValue::Array(head), CanonValue::Array(sha)) = (&rest[2], &rest[3]) else {
        return None;
    };
    proof {
        canon_array(*head);
        canon_array(*sha);
    }
    if head.len() != 2 {
        return None;
    }
    assert(model::deep(head@)[0] == head@[0]@);
    assert(model::deep(head@)[1] == head@[1]@);
    let (CanonValue::Str(name), CanonValue::Str(kind)) = (&head[0], &head[1]) else {
        return None;
    };
    let Some(expected_sha256) = pin_from(sha) else {
        return None;
    };
    let Some(kind) = FetchKind::parse(kind.as_str()) else {
        return None;
    };
    Some(
        Question::Fetch(
            Box::new(
                FetchRequest { url: url.to_owned(), name: name.clone(), kind, expected_sha256 },
            ),
        ),
    )
}

/// A tree to fetch from `rest[2..]`.
fn question_fetch_tree(rest: &Vec<CanonValue>) -> (r: Option<Question>)
    requires
        rest.len() >= 2,
    ensures
        r.deep_view() == read_fetch_tree(model::deep(rest@).skip(2)),
{
    let ghost s = model::deep(rest@).skip(2);
    if rest.len() != 3 {
        return None;
    }
    assert(s[0] == rest@[2]@);
    let CanonValue::Array(items) = &rest[2] else {
        return None;
    };
    proof {
        canon_array(*items);
    }
    if items.len() == 0 {
        return None;
    }
    assert(model::deep(items@)[0] == items@[0]@);
    let CanonValue::Str(fetcher) = &items[0] else {
        return None;
    };
    let Some(attrs) = triples_from(items, 1) else {
        return None;
    };
    let Some(fetcher) = TreeFetcher::parse(fetcher.as_str()) else {
        return None;
    };
    Some(Question::FetchTree(Box::new(FetchTreeRequest { attrs, fetcher })))
}

/// A flake reference to print from `rest[2..]`.
fn question_flake_ref_to_string(rest: &Vec<CanonValue>) -> (r: Option<Question>)
    requires
        rest.len() >= 2,
    ensures
        r.deep_view() == read_flake_ref(model::deep(rest@).skip(2)),
{
    let ghost s = model::deep(rest@).skip(2);
    if rest.len() != 3 {
        return None;
    }
    assert(s[0] == rest@[2]@);
    let CanonValue::Array(items) = &rest[2] else {
        return None;
    };
    proof {
        canon_array(*items);
        assert(model::deep(items@).skip(0) =~= model::deep(items@));
    }
    match triples_from(items, 0) {
        Some(attrs) => Some(Question::FlakeRefToString(attrs)),
        None => None,
    }
}

/// A derivation written, from `rest[2..]`.
fn question_write_drv(name: &str, rest: &Vec<CanonValue>) -> (r: Option<Question>)
    requires
        rest.len() >= 2,
    ensures
        r.deep_view() == read_parts(23, name@, model::deep(rest@).skip(2)),
{
    let ghost s = model::deep(rest@).skip(2);
    if rest.len() != 4 {
        return None;
    }
    assert(s[0] == rest@[2]@);
    assert(s[1] == rest@[3]@);
    let (CanonValue::Str(shown), CanonValue::Bytes(raw)) = (&rest[2], &rest[3]) else {
        return None;
    };
    let Some(answer) = WriteDrvAnswer::parse(shown.as_str()) else {
        return None;
    };
    let Some(hash) = digest::Hash::from_vec(raw) else {
        return None;
    };
    Some(Question::WriteDrv { name: name.to_owned(), answer, aterm: ObjId { hash } })
}

/// The path question of that tag.
fn rooted_from(tag: u64, p: Rc<PathValue>) -> (r: Option<Question>)
    ensures
        r.deep_view() == rooted_question(tag, p@),
{
    if tag == 1 {
        Some(Question::ReadFile(p))
    } else if tag == 2 {
        Some(Question::ReadDir(p))
    } else if tag == 3 {
        Some(Question::PathExists(p))
    } else if tag == 4 {
        Some(Question::FileType(p))
    } else if tag == 6 {
        Some(Question::CopyToStore(p))
    } else if tag == 14 {
        Some(Question::FileTypeResolved(p))
    } else if tag == 17 {
        Some(Question::ReadFileBytes(p))
    } else if tag == 20 {
        Some(Question::Import(p))
    } else if tag == 21 {
        Some(Question::StorePath(p))
    } else if tag == 22 {
        Some(Question::DirExists(p))
    } else if tag == 24 {
        Some(Question::Tree(p))
    } else {
        None
    }
}

/// The question that is written so, if one is.
pub fn question_from(value: &CanonValue) -> (r: Option<Question>)
    ensures
        r.deep_view() == question_read(value@),
{
    let CanonValue::Array(parts) = value else {
        return None;
    };
    proof {
        canon_array(*parts);
    }
    if parts.len() < 2 {
        return None;
    }
    let ghost s = model::deep(parts@);
    assert(s[0] == parts@[0]@);
    assert(s[1] == parts@[1]@);
    let (CanonValue::Int(tag), CanonValue::Str(arg)) = (&parts[0], &parts[1]) else {
        return None;
    };
    let tag: u64 = *tag;
    if tag == 5 {
        Some(Question::GetEnv(arg.clone()))
    } else if tag == 7 {
        let Some(t) = str_tail(parts, 2) else {
            return None;
        };
        if t.len() % 2 != 0 {
            return None;
        }
        Some(Question::FindFile { entries: entries_from(&t), name: arg.clone() })
    } else if tag == 8 {
        Some(Question::NixPath)
    } else if tag == 9 {
        Some(Question::EnsurePath(arg.clone()))
    } else if tag == 10 {
        let Some(t) = str_tail(parts, 2) else {
            return None;
        };
        if t.len() == 0 {
            return None;
        }
        let Some(references) = str_tail(parts, 3) else {
            assert(all_str(s.skip(2)) is Some);
            assert forall|i: int| 0 <= i < s.skip(3).len() implies (#[trigger] s.skip(3)[i]) is Str by {
                assert(s.skip(2)[i + 1] is Str);
            }
            return None;
        };
        proof {
            model::deep_texts(&references);
            assert(text::texts(references@) =~= text::texts(t@).skip(1)) by {
                let a = all_str(s.skip(2))->0;
                let b = all_str(s.skip(3))->0;
                assert forall|i: int| 0 <= i < b.len() implies b[i] == a[i + 1] by {
                    assert(s.skip(3)[i] == s.skip(2)[i + 1]);
                }
            }
        }
        Some(Question::StoreText { name: arg.clone(), contents: t[0].clone(), references })
    } else if tag == 11 {
        question_filtered(arg.as_str(), parts)
    } else if tag == 12 {
        question_fetch(arg.as_str(), parts)
    } else if tag == 13 {
        question_fetch_tree(parts)
    } else if tag == 15 {
        Some(Question::LockFlake(arg.clone()))
    } else if tag == 16 {
        let Some(t) = str_tail(parts, 2) else {
            return None;
        };
        match elems_from(&t) {
            Some(context) => Some(Question::Realise(context)),
            None => None,
        }
    } else if tag == 18 {
        Some(Question::ParseFlakeRef(arg.clone()))
    } else if tag == 19 {
        question_flake_ref_to_string(parts)
    } else if tag == 23 {
        question_write_drv(arg.as_str(), parts)
    } else {
        if parts.len() < 3 {
            return None;
        }
        assert(s.skip(2)[0] == parts@[2]@);
        let CanonValue::Str(root) = &parts[2] else {
            return None;
        };
        let p = Rc::new(PathValue::from_wire(root.as_str(), arg.as_str()));
        rooted_from(tag, p)
    }
}

/// What is recorded, as a value.
pub open spec fn recorded_written(r: RecordedV) -> CanonV {
    match r {
        RecordedV::Digest(DigestV::Known(h)) => CanonV::Bytes(h),
        RecordedV::Digest(d) => CanonV::Digest(d),
        RecordedV::Answer(t) => CanonV::Str(t),
    }
}

/// What a row is written as.
pub open spec fn row_written(row: (QuestionV, RecordedV)) -> CanonV {
    CanonV::Array(seq![written(row.0), recorded_written(row.1)])
}

/// The row that is written so: its digest as bytes, or an answer that its
/// question can be replayed from.
pub open spec fn row_read(v: CanonV) -> Option<(QuestionV, RecordedV)> {
    match v {
        CanonV::Array(parts) => if parts.len() != 2 {
            None
        } else {
            match question_read(parts[0]) {
                None => None,
                Some(q) => match parts[1] {
                    CanonV::Bytes(b) => if b.len() == 32 {
                        Some((q, RecordedV::Digest(DigestV::Known(b))))
                    } else {
                        None
                    },
                    CanonV::Str(t) => match RecordedV::kept(q, t) {
                        Some(r) => Some((q, r)),
                        None => None,
                    },
                    _ => None,
                },
            }
        },
        _ => None,
    }
}

/// What a row is written as is read back as that row: one whose digest is
/// known, or whose answer its question can be replayed from.
pub proof fn row_round_trips(q: QuestionV, r: RecordedV)
    requires
        q.wf(),
        match r {
            RecordedV::Digest(d) => d matches DigestV::Known(h) && h.len() == 32,
            RecordedV::Answer(t) => q.named_object(t) is Some,
        },
    ensures
        row_read(row_written((q, r))) == Some((q, r)),
{
    question_round_trips(q);
}

proof fn rest_is_shallow(q: QuestionV)
    ensures
        forall|i: int| 0 <= i < rest_value(q).len() ==> (#[trigger] rest_value(q)[i]).shallow(),
{
}

/// No digest is left to be taken in what a question is written as.
pub proof fn a_question_is_settled(q: QuestionV, hash: HashFn)
    ensures
        written(q).settled(hash) == written(q),
{
    rest_is_shallow(q);
    let parts = written(q)->Array_0;
    let now = written(q).settled(hash)->Array_0;
    assert forall|i: int| 0 <= i < parts.len() implies now[i] == parts[i] by {
        if i >= 2 {
            assert(parts[i] == rest_value(q)[i - 2]);
        }
        shallow_is_settled(parts[i], hash);
    }
    assert(now =~= parts);
}

/// A row with its digest taken.
pub open spec fn row_settled(row: (QuestionV, RecordedV), hash: HashFn) -> (QuestionV, RecordedV) {
    match row.1 {
        RecordedV::Digest(d) => (row.0, RecordedV::Digest(DigestV::Known(d.settled(hash)))),
        RecordedV::Answer(_) => row,
    }
}

/// Once its digest is taken, a row is written as the row with its digest taken.
pub proof fn a_row_is_settled(row: (QuestionV, RecordedV), hash: HashFn)
    ensures
        row_written(row).settled(hash) == row_written(row_settled(row, hash)),
{
    reveal_with_fuel(CanonV::settled, 2);
    a_question_is_settled(row.0, hash);
    let now = row_written(row).settled(hash)->Array_0;
    assert(now[0] == written(row.0));
    assert(now[1] == recorded_written(row_settled(row, hash).1));
    assert(now =~= seq![written(row.0), recorded_written(row_settled(row, hash).1)]);
}

/// An answer is refused on a question that cannot be replayed from it.
pub proof fn kept_answer_refused(q: QuestionV, t: Seq<char>)
    requires
        q.wf(),
        q.named_object(t) is None,
    ensures
        row_read(row_written((q, RecordedV::Answer(t)))) is None,
{
    question_round_trips(q);
}

/// What a row is written as.
pub fn row_value(row: &WitnessRow) -> (r: CanonValue)
    ensures
        r@ == row_written(row.deep_view()),
{
    let mut parts: Vec<CanonValue> = Vec::new();
    parts.push(question_value(&row.0));
    let recorded = match &row.1 {
        Recorded::Digest(Digest::Known(h)) => CanonValue::Bytes(h.to_vec()),
        Recorded::Digest(d) => CanonValue::Digest(d.copied()),
        Recorded::Answer(t) => CanonValue::Str(t.clone()),
    };
    parts.push(recorded);
    assert(model::deep(parts@) =~= seq![written(row.0@), recorded_written(row.1@)]);
    array_of(parts)
}

/// The row that is written so, if one is.
pub fn row_from(value: &CanonValue) -> (r: Option<WitnessRow>)
    ensures
        r.deep_view() == row_read(value@),
{
    let CanonValue::Array(parts) = value else {
        return None;
    };
    proof {
        canon_array(*parts);
    }
    if parts.len() != 2 {
        return None;
    }
    assert(model::deep(parts@)[0] == parts@[0]@);
    assert(model::deep(parts@)[1] == parts@[1]@);
    let Some(q) = question_from(&parts[0]) else {
        return None;
    };
    match &parts[1] {
        CanonValue::Bytes(b) => match digest::Hash::from_vec(b) {
            Some(h) => Some((q, Recorded::Digest(Digest::Known(h)))),
            None => None,
        },
        CanonValue::Str(t) => match Recorded::answer(&q, t.clone()) {
            Some(r) => Some((q, r)),
            None => None,
        },
        _ => None,
    }
}

proof fn utf8s_injective(a: Seq<Seq<char>>, b: Seq<Seq<char>>)
    requires
        digest::utf8s(a) == digest::utf8s(b),
    ensures
        a == b,
{
    digest::told_injective(a, b);
}

proof fn pins_injective(a: Option<Seq<char>>, b: Option<Seq<char>>, x: Seq<Seq<char>>, y: Seq<Seq<char>>)
    requires
        question::pin_fields(a) + x == question::pin_fields(b) + y,
    ensures
        a == b,
        x == y,
{
    reveal_strlit("sha256");
    reveal_strlit("no-sha256");
    let s = question::pin_fields(a) + x;
    let t = question::pin_fields(b) + y;
    assert(s[0] == question::pin_fields(a)[0]);
    assert(t[0] == question::pin_fields(b)[0]);
    assert("sha256"@.len() != "no-sha256"@.len());
    if a is Some {
        assert(s[1] == a->0);
        assert(t[1] == b->0);
        assert(s.skip(2) =~= x);
        assert(t.skip(2) =~= y);
    } else {
        assert(s.skip(1) =~= x);
        assert(t.skip(1) =~= y);
    }
}

/// What follows the pin in a filtered copy's texts.
pub open spec fn filter_texts(accepted: Option<Seq<AcceptedPathV>>, inherit: bool) -> Seq<Seq<char>> {
    (match accepted {
        None => seq!["unfiltered"@],
        Some(list) => seq!["filtered"@] + question::accepted_fields(list),
    }) + (if inherit {
        seq!["inherit-references"@]
    } else {
        Seq::empty()
    })
}

proof fn filters_injective(
    a: Option<Seq<AcceptedPathV>>,
    b: Option<Seq<AcceptedPathV>>,
    i: bool,
    j: bool,
)
    requires
        filter_texts(a, i) == filter_texts(b, j),
    ensures
        a == b,
        i == j,
{
    reveal_strlit("unfiltered");
    reveal_strlit("filtered");
    assert("unfiltered"@.len() != "filtered"@.len());
    let s = filter_texts(a, i);
    let t = filter_texts(b, j);
    assert(s[0] == (if a is None {
        "unfiltered"@
    } else {
        "filtered"@
    }));
    assert(t[0] == (if b is None {
        "unfiltered"@
    } else {
        "filtered"@
    }));
    if a is Some {
        let x = question::accepted_fields(a->0);
        let y = question::accepted_fields(b->0);
        accepted_fields_at(a->0);
        accepted_fields_at(b->0);
        assert(s.len() == 1 + x.len() + if i { 1int } else { 0 });
        assert(t.len() == 1 + y.len() + if j { 1int } else { 0 });
        assert(s.subrange(1, 1 + x.len() as int) =~= x);
        assert(t.subrange(1, 1 + y.len() as int) =~= y);
        accepted_read_back(a->0);
        accepted_read_back(b->0);
    }
}

/// What a question adds to a key names the question: no two that can be
/// written down add the same, but for derivations of one name and text, whose
/// answers the digest tells apart.
pub proof fn material_names_the_question(a: QuestionV, b: QuestionV)
    requires
        a.wf(),
        b.wf(),
        a.key_material() == b.key_material(),
    ensures
        a == b || (a matches QuestionV::WriteDrv { name: m, answer: _, aterm: x }
            && b matches QuestionV::WriteDrv { name: n, answer: _, aterm: y } && m == n && x == y),
{
    let p = a.key_material();
    let q = b.key_material();
    assert(p[0] == seq![a.tag()]);
    assert(q[0] == seq![b.tag()]);
    assert(seq![a.tag()][0] == seq![b.tag()][0]);
    assert(a.tag() == b.tag());
    assert(p[1] == text::utf8(a.arg()));
    assert(q[1] == text::utf8(b.arg()));
    text::utf8_injective(a.arg(), b.arg());
    assert(p.skip(2) =~= a.key_parts());
    assert(q.skip(2) =~= b.key_parts());
    tags_are_distinct(a, b);
    assert(kind_index(a) == kind_index(b));
    if a is WriteDrv {
        assert(a.key_parts()[0] == b.key_parts()[0]);
    } else {
        assert(!(b is WriteDrv));
        assert(a.key_parts() == digest::utf8s(a.key_texts()));
        assert(b.key_parts() == digest::utf8s(b.key_texts()));
        utf8s_injective(a.key_texts(), b.key_texts());
        same_texts_same_question(a, b);
    }
}

proof fn regrouped(a: Seq<Seq<char>>, b: Seq<Seq<char>>, c: Seq<Seq<char>>, d: Seq<Seq<char>>)
    ensures
        a + b + c + d == a + (b + (c + d)),
{
    assert(a + b + c + d =~= a + (b + (c + d)));
}

proof fn heads_injective(
    a: (Seq<char>, Seq<char>, Seq<char>),
    b: (Seq<char>, Seq<char>, Seq<char>),
    x: Seq<Seq<char>>,
    y: Seq<Seq<char>>,
)
    requires
        seq![a.0, a.1, a.2] + x == seq![b.0, b.1, b.2] + y,
    ensures
        a == b,
        x == y,
{
    let s = seq![a.0, a.1, a.2] + x;
    let t = seq![b.0, b.1, b.2] + y;
    assert(s[0] == a.0 && s[1] == a.1 && s[2] == a.2);
    assert(t[0] == b.0 && t[1] == b.1 && t[2] == b.2);
    assert(s.skip(3) =~= x);
    assert(t.skip(3) =~= y);
}

/// The texts of a filtered copy, its head apart.
proof fn filtered_texts(r: FilteredCopyV)
    ensures
        QuestionV::StoreFiltered(r).key_texts() == seq![
            r.root.root.wire(),
            r.name,
            r.method.spec_name(),
        ] + (question::pin_fields(r.expected_sha256) + filter_texts(
            r.accepted,
            r.inherit_references,
        )),
{
    regrouped(
        seq![r.root.root.wire(), r.name, r.method.spec_name()],
        question::pin_fields(r.expected_sha256),
        match r.accepted {
            None => seq!["unfiltered"@],
            Some(list) => seq!["filtered"@] + question::accepted_fields(list),
        },
        if r.inherit_references {
            seq!["inherit-references"@]
        } else {
            Seq::empty()
        },
    );
}

proof fn same_filtered(r: FilteredCopyV, u: FilteredCopyV)
    requires
        r.root.wf(),
        u.root.wf(),
        r.root.path == u.root.path,
        QuestionV::StoreFiltered(r).key_texts() == QuestionV::StoreFiltered(u).key_texts(),
    ensures
        r == u,
{
    filtered_texts(r);
    filtered_texts(u);
    let x = filter_texts(r.accepted, r.inherit_references);
    let y = filter_texts(u.accepted, u.inherit_references);
    let p = question::pin_fields(r.expected_sha256) + x;
    let q = question::pin_fields(u.expected_sha256) + y;
    heads_injective(
        (r.root.root.wire(), r.name, r.method.spec_name()),
        (u.root.root.wire(), u.name, u.method.spec_name()),
        p,
        q,
    );
    pins_injective(r.expected_sha256, u.expected_sha256, x, y);
    filters_injective(r.accepted, u.accepted, r.inherit_references, u.inherit_references);
    crate::value::root_reads_back(r.root.root);
    crate::value::root_reads_back(u.root.root);
    crate::task::path_method_reads_back(r.method);
    crate::task::path_method_reads_back(u.method);
}

proof fn same_fetch(r: FetchRequestV, u: FetchRequestV)
    requires
        r.url == u.url,
        QuestionV::Fetch(r).key_texts() == QuestionV::Fetch(u).key_texts(),
    ensures
        r == u,
{
    let s = QuestionV::Fetch(r).key_texts();
    let t = QuestionV::Fetch(u).key_texts();
    let none = Seq::<Seq<char>>::empty();
    assert(s[0] == r.name && s[1] == r.kind.spec_name());
    assert(t[0] == u.name && t[1] == u.kind.spec_name());
    assert(s.skip(2) =~= question::pin_fields(r.expected_sha256) + none);
    assert(t.skip(2) =~= question::pin_fields(u.expected_sha256) + none);
    pins_injective(r.expected_sha256, u.expected_sha256, none, none);
    crate::task::fetch_kind_reads_back(r.kind);
    crate::task::fetch_kind_reads_back(u.kind);
}

proof fn same_fetch_tree(r: FetchTreeRequestV, u: FetchTreeRequestV)
    requires
        text::sorted(ordered::keys(r.attrs)),
        text::sorted(ordered::keys(u.attrs)),
        QuestionV::FetchTree(r).key_texts() == QuestionV::FetchTree(u).key_texts(),
    ensures
        r == u,
{
    let s = QuestionV::FetchTree(r).key_texts();
    let t = QuestionV::FetchTree(u).key_texts();
    assert(s[0] == r.fetcher.spec_name());
    assert(t[0] == u.fetcher.spec_name());
    assert(s.skip(1) =~= question::attr_fields(r.attrs));
    assert(t.skip(1) =~= question::attr_fields(u.attrs));
    triples_read_back(r.attrs);
    triples_read_back(u.attrs);
    crate::task::tree_fetcher_reads_back(r.fetcher);
    crate::task::tree_fetcher_reads_back(u.fetcher);
}

proof fn same_rooted(p: PathValueV, q: PathValueV)
    requires
        p.wf(),
        q.wf(),
        p.path == q.path,
        seq![p.root.wire()] == seq![q.root.wire()],
    ensures
        p == q,
{
    assert(seq![p.root.wire()][0] == seq![q.root.wire()][0]);
    crate::value::root_reads_back(p.root);
    crate::value::root_reads_back(q.root);
}

proof fn same_store_text(a: Seq<char>, b: Seq<char>, x: Seq<Seq<char>>, y: Seq<Seq<char>>)
    requires
        seq![a] + x == seq![b] + y,
    ensures
        a == b,
        x == y,
{
    let s = seq![a] + x;
    let t = seq![b] + y;
    assert(s[0] == a);
    assert(t[0] == b);
    assert(s.skip(1) =~= x);
    assert(t.skip(1) =~= y);
}

#[verifier::spinoff_prover]
#[verifier::rlimit(60)]
proof fn same_texts_same_question(a: QuestionV, b: QuestionV)
    requires
        a.wf(),
        b.wf(),
        !(a is WriteDrv),
        kind_index(a) == kind_index(b),
        a.arg() == b.arg(),
        a.key_texts() == b.key_texts(),
    ensures
        a == b,
{
    match (a, b) {
        (
            QuestionV::FindFile { entries, name },
            QuestionV::FindFile { entries: other, name: n },
        ) => {
            entries_read_back(entries);
            entries_read_back(other);
        },
        (
            QuestionV::StoreText { name, contents, references },
            QuestionV::StoreText { name: n, contents: c, references: r },
        ) => {
            same_store_text(contents, c, references, r);
        },
        (QuestionV::StoreFiltered(r), QuestionV::StoreFiltered(u)) => {
            same_filtered(r, u);
        },
        (QuestionV::Fetch(r), QuestionV::Fetch(u)) => {
            same_fetch(r, u);
        },
        (QuestionV::Realise(context), QuestionV::Realise(other)) => {
            elems_read_back(context);
            elems_read_back(other);
        },
        (QuestionV::FetchTree(r), QuestionV::FetchTree(u)) => {
            same_fetch_tree(r, u);
        },
        (QuestionV::FlakeRefToString(attrs), QuestionV::FlakeRefToString(other)) => {
            triples_read_back(attrs);
            triples_read_back(other);
        },
        (QuestionV::ReadFile(p), QuestionV::ReadFile(q)) => {
            same_rooted(p, q);
        },
        (QuestionV::Import(p), QuestionV::Import(q)) => {
            same_rooted(p, q);
        },
        (QuestionV::ReadFileBytes(p), QuestionV::ReadFileBytes(q)) => {
            same_rooted(p, q);
        },
        (QuestionV::ReadDir(p), QuestionV::ReadDir(q)) => {
            same_rooted(p, q);
        },
        (QuestionV::PathExists(p), QuestionV::PathExists(q)) => {
            same_rooted(p, q);
        },
        (QuestionV::DirExists(p), QuestionV::DirExists(q)) => {
            same_rooted(p, q);
        },
        (QuestionV::FileType(p), QuestionV::FileType(q)) => {
            same_rooted(p, q);
        },
        (QuestionV::FileTypeResolved(p), QuestionV::FileTypeResolved(q)) => {
            same_rooted(p, q);
        },
        (QuestionV::CopyToStore(p), QuestionV::CopyToStore(q)) => {
            same_rooted(p, q);
        },
        (QuestionV::StorePath(p), QuestionV::StorePath(q)) => {
            same_rooted(p, q);
        },
        (QuestionV::Tree(p), QuestionV::Tree(q)) => {
            same_rooted(p, q);
        },
        _ => {},
    }
}

} // verus!
