//! Digests of answers, as what they are taken over.
//!
//! A digest is either known, thirty-two bytes that came from elsewhere, or the
//! tagged hash over a list of fields. Two digests over different fields are
//! different here; the hash function keeps them so up to collisions.
use vstd::prelude::*;
use crate::host::{
    FileType,
    FlakeCall,
    FlakeCallV,
    ImportedSource,
    ImportedSourceV,
    LookupError,
    LookupErrorV,
    StoreError,
    StoreErrorV,
    StorePathResult,
    StorePathResultV,
};
use crate::model;
use crate::model::Plain;
use crate::ordered::TextMap;
use crate::task::{SearchPathEntry, SearchPathEntryV};
use crate::text;
use crate::value::{PathValue, PathValueV};

verus! {

/// The tag of the digests of answers.
pub const READ_TAG: &'static str = "ixe-read-v1";

/// The tag of the keys of evaluation results.
pub const EVAL_TAG: &'static str = "ixe-eval-result-v3";

/// A hash: thirty-two bytes.
#[derive(Clone, Copy, Debug, PartialEq, Eq, PartialOrd, Ord)]
pub struct Hash {
    pub bytes: [u8; 32],
}

impl View for Hash {
    type V = Seq<u8>;

    open spec fn view(&self) -> Seq<u8> {
        self.bytes@
    }
}

impl DeepView for Hash {
    type V = Seq<u8>;

    open spec fn deep_view(&self) -> Seq<u8> {
        self@
    }
}

impl Plain for Hash {
    fn copied(&self) -> (r: Self) {
        *self
    }

    fn same(&self, other: &Self) -> (r: bool) {
        let mut i: usize = 0;
        while i < 32
            invariant
                i <= 32,
                forall|j: int| 0 <= j < i ==> self.bytes@[j] == other.bytes@[j],
            decreases 32 - i,
        {
            if self.bytes[i] != other.bytes[i] {
                return false;
            }
            i += 1;
        }
        assert(self@ =~= other@);
        true
    }
}

/// The two hexadecimal digits of a byte.
pub open spec fn hex_digit(d: int) -> char {
    if d < 10 {
        (('0' as int) + d) as char
    } else {
        (('a' as int) + d - 10) as char
    }
}

/// Bytes in lower-case hexadecimal.
pub open spec fn hex(b: Seq<u8>) -> Seq<char>
    decreases b.len(),
{
    if b.len() == 0 {
        Seq::empty()
    } else {
        hex(b.drop_last()).push(hex_digit(b.last() as int / 16)).push(
            hex_digit(b.last() as int % 16),
        )
    }
}

proof fn hex_digits_differ(a: int, b: int)
    requires
        0 <= a < 16,
        0 <= b < 16,
        hex_digit(a) == hex_digit(b),
    ensures
        a == b,
{
    assert(hex_digit(a) as int == (if a < 10 {
        48 + a
    } else {
        87 + a
    }));
    assert(hex_digit(b) as int == (if b < 10 {
        48 + b
    } else {
        87 + b
    }));
}

/// Different bytes are different in hexadecimal.
pub proof fn hex_injective(a: Seq<u8>, b: Seq<u8>)
    requires
        hex(a) == hex(b),
    ensures
        a == b,
    decreases a.len(),
{
    if a.len() == 0 || b.len() == 0 {
        assert(a.len() > 0 ==> hex(a).len() >= 2);
        assert(b.len() > 0 ==> hex(b).len() >= 2);
        assert(a =~= b);
    } else {
        let h = hex(a);
        let n = h.len();
        assert(h[n - 1] == hex_digit(a.last() as int % 16));
        assert(h[n - 1] == hex_digit(b.last() as int % 16));
        assert(h[n - 2] == hex_digit(a.last() as int / 16));
        assert(h[n - 2] == hex_digit(b.last() as int / 16));
        hex_digits_differ(a.last() as int % 16, b.last() as int % 16);
        hex_digits_differ(a.last() as int / 16, b.last() as int / 16);
        assert(a.last() == b.last());
        assert(h.drop_last().drop_last() =~= hex(a.drop_last()));
        assert(h.drop_last().drop_last() =~= hex(b.drop_last()));
        hex_injective(a.drop_last(), b.drop_last());
        assert(a =~= a.drop_last().push(a.last()));
        assert(b =~= b.drop_last().push(b.last()));
    }
}

pub fn hex_char(d: u8) -> (c: char)
    requires
        d < 16,
    ensures
        c == hex_digit(d as int),
{
    let digits = [
        '0', '1', '2', '3', '4', '5', '6', '7', '8', '9', 'a', 'b', 'c', 'd', 'e', 'f',
    ];
    digits[d as usize]
}

impl Hash {
    pub fn from_bytes(bytes: [u8; 32]) -> (r: Hash)
        ensures
            r@ == bytes@,
    {
        Hash { bytes }
    }

    /// The hash of exactly thirty-two bytes.
    pub fn from_vec(v: &Vec<u8>) -> (r: Option<Hash>)
        ensures
            r is Some == (v@.len() == 32),
            r matches Some(h) ==> h@ == v@,
    {
        if v.len() != 32 {
            return None;
        }
        let mut bytes: [u8; 32] = [0; 32];
        let mut i: usize = 0;
        while i < 32
            invariant
                i <= 32,
                v.len() == 32,
                bytes@.len() == 32,
                forall|j: int| 0 <= j < i ==> bytes@[j] == v@[j],
            decreases 32 - i,
        {
            bytes[i] = v[i];
            i += 1;
        }
        assert(bytes@ =~= v@);
        Some(Hash { bytes })
    }

    pub fn to_vec(&self) -> (v: Vec<u8>)
        ensures
            v@ == self@,
    {
        let mut v: Vec<u8> = Vec::new();
        let mut i: usize = 0;
        while i < 32
            invariant
                i <= 32,
                v@ == self@.take(i as int),
            decreases 32 - i,
        {
            v.push(self.bytes[i]);
            proof {
                assert(self@.take(i + 1) =~= self@.take(i as int).push(self.bytes@[i as int]));
            }
            i += 1;
        }
        assert(self@.take(32) =~= self@);
        v
    }

    /// The first half of the hash.
    pub fn shortened(&self) -> (r: [u8; 16])
        ensures
            r@ == self@.take(16),
    {
        let mut r: [u8; 16] = [0; 16];
        let mut i: usize = 0;
        while i < 16
            invariant
                i <= 16,
                r@.len() == 16,
                forall|j: int| 0 <= j < i ==> r@[j] == self@[j],
            decreases 16 - i,
        {
            r[i] = self.bytes[i];
            i += 1;
        }
        assert(r@ =~= self@.take(16));
        r
    }

    pub fn to_hex(&self) -> (s: String)
        ensures
            s@ == hex(self@),
    {
        let mut s: String = String::new();
        let mut i: usize = 0;
        while i < 32
            invariant
                i <= 32,
                s@ == hex(self@.take(i as int)),
            decreases 32 - i,
        {
            let b: u8 = self.bytes[i];
            s.push(hex_char(b / 16));
            s.push(hex_char(b % 16));
            proof {
                assert(self@.take(i + 1).drop_last() =~= self@.take(i as int));
                assert(self@.take(i + 1).last() == b);
            }
            i += 1;
        }
        assert(self@.take(32) =~= self@);
        s
    }
}

/// The name of a stored object: the hash of its bytes.
#[derive(Clone, Copy, Debug, PartialEq, Eq, PartialOrd, Ord)]
pub struct ObjId {
    pub hash: Hash,
}

impl View for ObjId {
    type V = Seq<u8>;

    open spec fn view(&self) -> Seq<u8> {
        self.hash@
    }
}

impl DeepView for ObjId {
    type V = Seq<u8>;

    open spec fn deep_view(&self) -> Seq<u8> {
        self@
    }
}

impl Plain for ObjId {
    fn copied(&self) -> (r: Self) {
        *self
    }

    fn same(&self, other: &Self) -> (r: bool) {
        self.hash.same(&other.hash)
    }
}

/// The digest of an answer.
#[derive(Debug, PartialEq, Eq)]
pub enum Digest {
    /// A digest that came as its bytes.
    Known(Hash),
    /// The digest of an answer: the hash tagged [`READ_TAG`] over these fields.
    Read(Vec<Vec<u8>>),
}

/// The model of [`Digest`].
#[verifier::ext_equal]
pub enum DigestV {
    Known(Seq<u8>),
    Read(Seq<Seq<u8>>),
}

/// How the fields of an answer are hashed.
pub type HashFn = spec_fn(Seq<Seq<u8>>) -> Seq<u8>;

impl DigestV {
    /// The bytes of the digest, answers being hashed by `hash`.
    pub open spec fn settled(self, hash: HashFn) -> Seq<u8> {
        match self {
            DigestV::Known(bytes) => bytes,
            DigestV::Read(fields) => hash(fields),
        }
    }
}

impl View for Digest {
    type V = DigestV;

    open spec fn view(&self) -> DigestV {
        match self {
            Digest::Known(a) => DigestV::Known(a@),
            Digest::Read(a) => DigestV::Read(a.deep_view()),
        }
    }
}

impl DeepView for Digest {
    type V = DigestV;

    open spec fn deep_view(&self) -> DigestV {
        self@
    }
}

impl Clone for Digest {
    fn clone(&self) -> (r: Self)
        ensures
            r@ == self@,
    {
        self.copied()
    }
}

impl Plain for Digest {
    fn copied(&self) -> (r: Self) {
        match self {
            Digest::Known(a) => Digest::Known(a.copied()),
            Digest::Read(a) => Digest::Read(a.copied()),
        }
    }

    fn same(&self, other: &Self) -> (r: bool) {
        match (self, other) {
            (Digest::Known(a), Digest::Known(b)) => a.same(b),
            (Digest::Read(a), Digest::Read(b)) => a.same(b),
            _ => false,
        }
    }
}

/// A field of a hash.
#[derive(Debug, PartialEq, Eq)]
pub enum Part {
    Bytes(Vec<u8>),
    /// The thirty-two bytes of a digest.
    Digest(Digest),
}

/// The model of [`Part`].
#[verifier::ext_equal]
pub enum PartV {
    Bytes(Seq<u8>),
    Digest(DigestV),
}

impl View for Part {
    type V = PartV;

    open spec fn view(&self) -> PartV {
        match self {
            Part::Bytes(a) => PartV::Bytes(a.deep_view()),
            Part::Digest(a) => PartV::Digest(a@),
        }
    }
}

impl DeepView for Part {
    type V = PartV;

    open spec fn deep_view(&self) -> PartV {
        self@
    }
}

impl Clone for Part {
    fn clone(&self) -> (r: Self)
        ensures
            r@ == self@,
    {
        self.copied()
    }
}

impl Plain for Part {
    fn copied(&self) -> (r: Self) {
        match self {
            Part::Bytes(a) => Part::Bytes(a.copied()),
            Part::Digest(a) => Part::Digest(a.copied()),
        }
    }

    fn same(&self, other: &Self) -> (r: bool) {
        match (self, other) {
            (Part::Bytes(a), Part::Bytes(b)) => a.same(b),
            (Part::Digest(a), Part::Digest(b)) => a.same(b),
            _ => false,
        }
    }
}

/// What a tagged hash is taken over.
#[derive(Debug, PartialEq, Eq)]
pub struct Preimage {
    pub tag: String,
    pub parts: Vec<Part>,
}

/// The model of [`Preimage`].
#[verifier::ext_equal]
pub struct PreimageV {
    pub tag: Seq<char>,
    pub parts: Seq<PartV>,
}

impl PartV {
    /// The bytes of the field, answers being hashed by `hash`.
    pub open spec fn settled(self, hash: HashFn) -> Seq<u8> {
        match self {
            PartV::Bytes(bytes) => bytes,
            PartV::Digest(d) => d.settled(hash),
        }
    }
}

/// The fields that are hashed, answers being hashed by `hash`.
pub open spec fn settled_parts(parts: Seq<PartV>, hash: HashFn) -> Seq<Seq<u8>> {
    Seq::new(parts.len(), |i: int| parts[i].settled(hash))
}

impl PreimageV {
    /// The tag and the fields that are hashed, answers being hashed by `hash`.
    pub open spec fn settled(self, hash: HashFn) -> (Seq<char>, Seq<Seq<u8>>) {
        (self.tag, settled_parts(self.parts, hash))
    }
}

impl View for Preimage {
    type V = PreimageV;

    open spec fn view(&self) -> PreimageV {
        PreimageV {
            tag: self.tag@,
            parts: self.parts.deep_view(),
        }
    }
}

impl DeepView for Preimage {
    type V = PreimageV;

    open spec fn deep_view(&self) -> PreimageV {
        self@
    }
}

impl Clone for Preimage {
    fn clone(&self) -> (r: Self)
        ensures
            r@ == self@,
    {
        self.copied()
    }
}

impl Plain for Preimage {
    fn copied(&self) -> (r: Self) {
        Preimage {
            tag: self.tag.copied(),
            parts: self.parts.copied(),
        }
    }

    fn same(&self, other: &Self) -> (r: bool) {
        let s0 = self.tag.same(&other.tag);
        let s1 = self.parts.same(&other.parts);
        s0 && s1
    }
}

/// The digest over the bytes of some texts.
pub open spec fn told(parts: Seq<Seq<char>>) -> DigestV {
    DigestV::Read(Seq::new(parts.len(), |i: int| text::utf8(parts[i])))
}

/// Digests over different texts are different.
pub proof fn told_injective(a: Seq<Seq<char>>, b: Seq<Seq<char>>)
    requires
        told(a) == told(b),
    ensures
        a == b,
{
    let x = Seq::new(a.len(), |i: int| text::utf8(a[i]));
    let y = Seq::new(b.len(), |i: int| text::utf8(b[i]));
    assert(x == y);
    assert(x.len() == y.len());
    assert forall|i: int| 0 <= i < a.len() implies a[i] == b[i] by {
        assert(x[i] == y[i]);
        text::utf8_injective(a[i], b[i]);
    }
    assert(a =~= b);
}

/// How a failure is written: its kind and what it says.
pub open spec fn failure(e: StoreErrorV) -> (Seq<char>, Seq<char>) {
    match e {
        StoreErrorV::Failed(detail) => ("err"@, detail),
        StoreErrorV::ImportFromDerivation(detail) => ("ifd"@, detail),
        StoreErrorV::Unsupported(detail) => ("unsupported"@, detail),
        StoreErrorV::NoStore => ("absent"@, ""@),
    }
}

/// The digest of what a store effect came to.
pub open spec fn store_outcome(kind: Seq<char>, answer: Result<Seq<char>, StoreErrorV>) -> DigestV {
    match answer {
        Ok(value) => told(seq![kind, "ok"@, value]),
        Err(e) => told(seq![kind, failure(e).0, failure(e).1]),
    }
}

/// Different outcomes of a store effect have different digests.
pub proof fn store_outcome_injective(
    kind: Seq<char>,
    a: Result<Seq<char>, StoreErrorV>,
    b: Result<Seq<char>, StoreErrorV>,
)
    requires
        store_outcome(kind, a) == store_outcome(kind, b),
    ensures
        a == b,
{
    reveal_strlit("ok");
    reveal_strlit("err");
    reveal_strlit("ifd");
    reveal_strlit("unsupported");
    reveal_strlit("absent");
    let x = match a {
        Ok(value) => seq![kind, "ok"@, value],
        Err(e) => seq![kind, failure(e).0, failure(e).1],
    };
    let y = match b {
        Ok(value) => seq![kind, "ok"@, value],
        Err(e) => seq![kind, failure(e).0, failure(e).1],
    };
    told_injective(x, y);
    assert(x[1] == y[1]);
    assert(x[2] == y[2]);
    assert("err"@[0] != "ifd"@[0]);
    assert("ok"@.len() != "err"@.len());
    assert("absent"@.len() != "unsupported"@.len());
}

pub open spec fn file_text(answer: Result<Seq<char>, Seq<char>>) -> DigestV {
    match answer {
        Ok(t) => told(seq!["file-ok"@, t]),
        Err(e) => told(seq!["file-err"@, e]),
    }
}

pub open spec fn file_bytes(answer: Result<Seq<u8>, Seq<char>>) -> DigestV {
    match answer {
        Ok(b) => DigestV::Read(seq![text::utf8("file-bytes-ok"@), b]),
        Err(e) => told(seq!["file-bytes-err"@, e]),
    }
}

/// The fields of a listing: each name and its kind.
pub open spec fn listing(entries: Seq<(Seq<char>, FileType)>) -> Seq<Seq<char>>
    decreases entries.len(),
{
    if entries.len() == 0 {
        seq!["dir-ok"@]
    } else {
        listing(entries.drop_last()).push(entries.last().0).push(entries.last().1.spec_name())
    }
}

pub open spec fn entries(answer: Result<Seq<(Seq<char>, FileType)>, Seq<char>>) -> DigestV {
    match answer {
        Ok(v) => told(listing(v)),
        Err(e) => told(seq!["dir-err"@, e]),
    }
}

pub open spec fn exists_answer(answer: Result<bool, Seq<char>>) -> DigestV {
    match answer {
        Ok(b) => told(
            seq![
                "exists"@,
                if b {
                    "1"@
                } else {
                    "0"@
                },
            ],
        ),
        Err(e) => told(seq!["exists-error"@, e]),
    }
}

pub open spec fn kind(answer: Result<Option<FileType>, Seq<char>>) -> DigestV {
    match answer {
        Ok(Some(k)) => told(seq!["kind-ok"@, k.spec_name()]),
        Ok(None) => told(seq!["kind-absent"@]),
        Err(e) => told(seq!["kind-err"@, e]),
    }
}

pub open spec fn kind_resolved(answer: Result<FileType, Seq<char>>) -> DigestV {
    match answer {
        Ok(k) => told(seq!["kind-resolved-ok"@, k.spec_name()]),
        Err(e) => told(seq!["kind-resolved-err"@, e]),
    }
}

pub open spec fn env(answer: Option<Seq<char>>) -> DigestV {
    match answer {
        Some(value) => told(seq!["env-set"@, value]),
        None => told(seq!["env-unset"@]),
    }
}

/// Names and paths in turn.
pub open spec fn output_fields(outputs: Seq<(Seq<char>, Seq<char>)>) -> Seq<Seq<char>>
    decreases outputs.len(),
{
    if outputs.len() == 0 {
        Seq::empty()
    } else {
        output_fields(outputs.drop_last()).push(outputs.last().0).push(outputs.last().1)
    }
}

pub open spec fn import(answer: Result<ImportedSourceV, Seq<char>>) -> DigestV {
    match answer {
        Ok(ImportedSourceV::Nix { path, text }) => told(
            seq!["import-ok"@, path.root.wire(), path.path, text],
        ),
        Ok(ImportedSourceV::Derivation(drv)) => told(
            seq!["import-drv"@, drv.path, drv.name] + output_fields(drv.outputs),
        ),
        Err(e) => told(seq!["import-err"@, e]),
    }
}

pub open spec fn find_file(answer: Result<PathValueV, LookupErrorV>) -> DigestV {
    match answer {
        Ok(path) => told(seq!["find-ok"@, path.root.wire(), path.path]),
        Err(LookupErrorV::NotFound(m)) => told(seq!["find-miss"@, m]),
        Err(LookupErrorV::Failed(m)) => told(seq!["find-err"@, m]),
        Err(LookupErrorV::Unsupported(m)) => told(seq!["find-unsupported"@, m]),
        Err(LookupErrorV::NoResolver) => told(seq!["find-absent"@]),
    }
}

/// Prefixes and paths in turn.
pub open spec fn entry_fields(entries: Seq<SearchPathEntryV>) -> Seq<Seq<char>>
    decreases entries.len(),
{
    if entries.len() == 0 {
        Seq::empty()
    } else {
        entry_fields(entries.drop_last()).push(entries.last().prefix).push(entries.last().path)
    }
}

pub open spec fn nix_path(answer: Result<Seq<SearchPathEntryV>, LookupErrorV>) -> DigestV {
    match answer {
        Ok(v) => told(seq!["nixpath-ok"@] + entry_fields(v)),
        Err(LookupErrorV::NotFound(m)) => told(seq!["nixpath-err"@, m]),
        Err(LookupErrorV::Failed(m)) => told(seq!["nixpath-err"@, m]),
        Err(LookupErrorV::Unsupported(m)) => told(seq!["nixpath-err"@, m]),
        Err(LookupErrorV::NoResolver) => told(seq!["nixpath-absent"@]),
    }
}

pub open spec fn flake_call(answer: Result<FlakeCallV, StoreErrorV>) -> DigestV {
    store_outcome(
        "flake-call"@,
        match answer {
            Ok(call) => Ok(call.lock_file + "\0"@ + call.overrides),
            Err(e) => Err(e),
        },
    )
}

pub open spec fn store_path(answer: Result<StorePathResultV, StoreErrorV>) -> DigestV {
    store_outcome(
        "store-path"@,
        match answer {
            Ok(a) => Ok(a.path + "\0"@ + a.store_path),
            Err(e) => Err(e),
        },
    )
}

/// The rewrites as one text.
pub open spec fn rewrites_text(r: Seq<(Seq<char>, Seq<char>)>) -> Seq<char> {
    text::join(Seq::new(r.len(), |i: int| r[i].0 + "\0"@ + r[i].1), "\0"@)
}

pub open spec fn realise(answer: Result<Seq<(Seq<char>, Seq<char>)>, StoreErrorV>) -> DigestV {
    store_outcome(
        "realise"@,
        match answer {
            Ok(r) => Ok(rewrites_text(r)),
            Err(e) => Err(e),
        },
    )
}

pub open spec fn ensure(answer: Result<(), StoreErrorV>) -> DigestV {
    store_outcome(
        "ensure"@,
        match answer {
            Ok(_) => Ok(""@),
            Err(e) => Err(e),
        },
    )
}

/// The digest of a tree: pinned, or not to be had.
pub open spec fn tree(pinned: bool) -> DigestV {
    told(
        seq![
            "tree"@,
            if pinned {
                "pinned"@
            } else {
                "unavailable"@
            },
        ],
    )
}

/// An unset variable is not an empty one.
pub proof fn env_unset_is_not_empty(value: Seq<char>)
    ensures
        env(None) != env(Some(value)),
{
    let a = seq!["env-unset"@];
    let b = seq!["env-set"@, value];
    if told(a) == told(b) {
        told_injective(a, b);
        assert(a.len() != b.len());
    }
}

/// A pinned tree is not one that cannot be had.
pub proof fn tree_states_differ()
    ensures
        tree(true) != tree(false),
{
    reveal_strlit("pinned");
    reveal_strlit("unavailable");
    let a = seq!["tree"@, "pinned"@];
    let b = seq!["tree"@, "unavailable"@];
    if told(a) == told(b) {
        told_injective(a, b);
        assert(a[1] == b[1]);
    }
}

/// The bytes of some texts, as the fields of a hash.
pub open spec fn utf8s(parts: Seq<Seq<char>>) -> Seq<Seq<u8>> {
    Seq::new(parts.len(), |i: int| text::utf8(parts[i]))
}

/// Adds the bytes of `s` to the fields.
pub fn add_text(fields: &mut Vec<Vec<u8>>, s: &str)
    ensures
        final(fields).deep_view() == old(fields).deep_view().push(text::utf8(s@)),
{
    let b = text::bytes(s);
    let ghost prior = fields@;
    proof {
        model::deep_vec(fields);
        model::deep_push(prior, b);
        assert(b.deep_view() =~= b@);
    }
    fields.push(b);
    proof {
        model::deep_vec(fields);
    }
}

/// The digest over the bytes of the texts.
pub fn tell(parts: &[&str]) -> (d: Digest)
    ensures
        d@ == told(Seq::new(parts@.len(), |i: int| parts@[i]@)),
{
    let mut fields: Vec<Vec<u8>> = Vec::new();
    let ghost all = Seq::new(parts@.len(), |i: int| parts@[i]@);
    let mut i: usize = 0;
    proof {
        model::deep_vec(&fields);
        assert(fields.deep_view() =~= utf8s(all).take(0));
    }
    while i < parts.len()
        invariant
            i <= parts.len(),
            all == Seq::new(parts@.len(), |i: int| parts@[i]@),
            fields.deep_view() == utf8s(all).take(i as int),
        decreases parts.len() - i,
    {
        add_text(&mut fields, parts[i]);
        proof {
            assert(utf8s(all).take(i + 1) =~= utf8s(all).take(i as int).push(
                text::utf8(parts@[i as int]@),
            ));
        }
        i += 1;
    }
    proof {
        assert(utf8s(all).take(i as int) =~= utf8s(all));
        assert(told(all) == DigestV::Read(utf8s(all)));
    }
    Digest::Read(fields)
}

/// The digest over the bytes of the texts.
pub fn tell_all(parts: &Vec<String>) -> (d: Digest)
    ensures
        d@ == told(text::texts(parts@)),
{
    let mut fields: Vec<Vec<u8>> = Vec::new();
    let ghost all = text::texts(parts@);
    let mut i: usize = 0;
    proof {
        model::deep_vec(&fields);
        assert(fields.deep_view() =~= utf8s(all).take(0));
    }
    while i < parts.len()
        invariant
            i <= parts.len(),
            all == text::texts(parts@),
            fields.deep_view() == utf8s(all).take(i as int),
        decreases parts.len() - i,
    {
        add_text(&mut fields, parts[i].as_str());
        proof {
            assert(utf8s(all).take(i + 1) =~= utf8s(all).take(i as int).push(
                text::utf8(parts@[i as int]@),
            ));
        }
        i += 1;
    }
    proof {
        assert(utf8s(all).take(i as int) =~= utf8s(all));
        assert(told(all) == DigestV::Read(utf8s(all)));
    }
    Digest::Read(fields)
}

/// The kind of a failure, and what it says.
pub fn store_failure(error: &StoreError) -> (r: (&'static str, &str))
    ensures
        (r.0@, r.1@) == failure(error@),
{
    match error {
        StoreError::Failed(detail) => ("err", detail.as_str()),
        StoreError::ImportFromDerivation(detail) => ("ifd", detail.as_str()),
        StoreError::Unsupported(detail) => ("unsupported", detail.as_str()),
        StoreError::NoStore => ("absent", ""),
    }
}

/// The digest of what a store effect of this kind came to.
pub fn digest_store_outcome(kind: &str, answer: Result<&str, &StoreError>) -> (d: Digest)
    ensures
        d@ == store_outcome(
            kind@,
            match answer {
                Ok(value) => Ok(value@),
                Err(e) => Err(e@),
            },
        ),
{
    match answer {
        Ok(value) => {
            let d = tell(&[kind, "ok", value]);
            assert(Seq::new(3, |i: int| [kind, "ok", value]@[i]@) =~= seq![
                kind@,
                "ok"@,
                value@,
            ]);
            d
        },
        Err(e) => {
            let (outcome, detail) = store_failure(e);
            let d = tell(&[kind, outcome, detail]);
            assert(Seq::new(3, |i: int| [kind, outcome, detail]@[i]@) =~= seq![
                kind@,
                outcome@,
                detail@,
            ]);
            d
        },
    }
}

/// The digest of a file read as text.
pub fn digest_file(answer: &Result<String, String>) -> (d: Digest)
    ensures
        d@ == file_text(model::outcome(*answer)),
{
    match answer {
        Ok(t) => {
            let t = t.as_str();
            let d = tell(&["file-ok", t]);
            assert(Seq::new(2, |i: int| ["file-ok", t]@[i]@) =~= seq!["file-ok"@, t@]);
            d
        },
        Err(e) => {
            let e = e.as_str();
            let d = tell(&["file-err", e]);
            assert(Seq::new(2, |i: int| ["file-err", e]@[i]@) =~= seq!["file-err"@, e@]);
            d
        },
    }
}

/// The digest of a file read as bytes.
pub fn digest_file_bytes(answer: &Result<Vec<u8>, String>) -> (d: Digest)
    ensures
        d@ == file_bytes(model::outcome(*answer)),
{
    match answer {
        Ok(b) => {
            let mut fields: Vec<Vec<u8>> = Vec::new();
            add_text(&mut fields, "file-bytes-ok");
            let c = b.copied();
            proof {
                model::deep_vec(&fields);
                model::deep_push(fields@, c);
            }
            fields.push(c);
            proof {
                model::deep_vec(&fields);
                assert(fields.deep_view() =~= seq![text::utf8("file-bytes-ok"@), b.deep_view()]);
            }
            Digest::Read(fields)
        },
        Err(e) => {
            let e = e.as_str();
            let d = tell(&["file-bytes-err", e]);
            assert(Seq::new(2, |i: int| ["file-bytes-err", e]@[i]@) =~= seq![
                "file-bytes-err"@,
                e@,
            ]);
            d
        },
    }
}

/// The digest of a listing.
pub fn digest_entries(answer: &Result<Vec<(String, FileType)>, String>) -> (d: Digest)
    ensures
        d@ == entries(model::outcome(*answer)),
{
    match answer {
        Ok(v) => {
            let mut parts: Vec<String> = Vec::new();
            parts.push("dir-ok".to_owned());
            let ghost all = v.deep_view();
            let mut i: usize = 0;
            assert(all.take(0) =~= Seq::<(Seq<char>, FileType)>::empty());
            assert(text::texts(parts@) =~= listing(all.take(0)));
            while i < v.len()
                invariant
                    i <= v.len(),
                    all == v.deep_view(),
                    text::texts(parts@) == listing(all.take(i as int)),
                decreases v.len() - i,
            {
                let ghost prior = parts@;
                parts.push(v[i].0.clone());
                parts.push(v[i].1.as_str().to_owned());
                proof {
                    assert(all.take(i + 1).drop_last() =~= all.take(i as int));
                    assert(all.take(i + 1).last() == v@[i as int].deep_view());
                    assert(text::texts(parts@) =~= text::texts(prior).push(v@[i as int].0@).push(
                        v@[i as int].1.spec_name(),
                    ));
                }
                i += 1;
            }
            assert(all.take(i as int) =~= all);
            tell_all(&parts)
        },
        Err(e) => {
            let e = e.as_str();
            let d = tell(&["dir-err", e]);
            assert(Seq::new(2, |i: int| ["dir-err", e]@[i]@) =~= seq!["dir-err"@, e@]);
            d
        },
    }
}

/// The digest of whether a path exists.
pub fn digest_exists(answer: &Result<bool, String>) -> (d: Digest)
    ensures
        d@ == exists_answer(model::outcome(*answer)),
{
    match answer {
        Ok(b) => {
            let s: &str = if *b {
                "1"
            } else {
                "0"
            };
            let d = tell(&["exists", s]);
            assert(Seq::new(2, |i: int| ["exists", s]@[i]@) =~= seq!["exists"@, s@]);
            d
        },
        Err(e) => {
            let e = e.as_str();
            let d = tell(&["exists-error", e]);
            assert(Seq::new(2, |i: int| ["exists-error", e]@[i]@) =~= seq!["exists-error"@, e@]);
            d
        },
    }
}

/// The digest of a kind, not followed.
pub fn digest_file_type(answer: &Result<Option<FileType>, String>) -> (d: Digest)
    ensures
        d@ == kind(model::outcome(*answer)),
{
    match answer {
        Ok(Some(k)) => {
            let s = k.as_str();
            let d = tell(&["kind-ok", s]);
            assert(Seq::new(2, |i: int| ["kind-ok", s]@[i]@) =~= seq!["kind-ok"@, s@]);
            d
        },
        Ok(None) => {
            let d = tell(&["kind-absent"]);
            assert(Seq::new(1, |i: int| ["kind-absent"]@[i]@) =~= seq!["kind-absent"@]);
            d
        },
        Err(e) => {
            let e = e.as_str();
            let d = tell(&["kind-err", e]);
            assert(Seq::new(2, |i: int| ["kind-err", e]@[i]@) =~= seq!["kind-err"@, e@]);
            d
        },
    }
}

/// The digest of a kind, followed.
pub fn digest_file_type_resolved(answer: &Result<FileType, String>) -> (d: Digest)
    ensures
        d@ == kind_resolved(model::outcome(*answer)),
{
    match answer {
        Ok(k) => {
            let s = k.as_str();
            let d = tell(&["kind-resolved-ok", s]);
            assert(Seq::new(2, |i: int| ["kind-resolved-ok", s]@[i]@) =~= seq!["kind-resolved-ok"@, s@]);
            d
        },
        Err(e) => {
            let e = e.as_str();
            let d = tell(&["kind-resolved-err", e]);
            assert(Seq::new(2, |i: int| ["kind-resolved-err", e]@[i]@) =~= seq!["kind-resolved-err"@, e@]);
            d
        },
    }
}

/// The digest of a variable: unset is not empty.
pub fn digest_env(answer: &Option<String>) -> (d: Digest)
    ensures
        d@ == env(answer.deep_view()),
{
    match answer {
        Some(v) => {
            let s = v.as_str();
            let d = tell(&["env-set", s]);
            assert(Seq::new(2, |i: int| ["env-set", s]@[i]@) =~= seq!["env-set"@, s@]);
            d
        },
        None => {
            let d = tell(&["env-unset"]);
            assert(Seq::new(1, |i: int| ["env-unset"]@[i]@) =~= seq!["env-unset"@]);
            d
        },
    }
}

/// The digest of an import.
pub fn digest_import(answer: &Result<ImportedSource, String>) -> (d: Digest)
    ensures
        d@ == import(model::outcome(*answer)),
{
    match answer {
        Ok(ImportedSource::Nix { path, text: source }) => {
            let root = path.root.wire_name();
            let at = path.accessor_path();
            let t = source.as_str();
            let d = tell(&["import-ok", root, at, t]);
            assert(Seq::new(4, |i: int| ["import-ok", root, at, t]@[i]@) =~= seq![
                "import-ok"@,
                root@,
                at@,
                t@,
            ]);
            d
        },
        Ok(ImportedSource::Derivation(drv)) => {
            let mut parts: Vec<String> = Vec::new();
            parts.push("import-drv".to_owned());
            parts.push(drv.path.clone());
            parts.push(drv.name.clone());
            let ghost head = seq!["import-drv"@, drv.path@, drv.name@];
            let ghost all = drv.outputs@;
            let mut i: usize = 0;
            assert(text::texts(parts@) =~= head + output_fields(all.take(0)));
            while i < drv.outputs.entries.len()
                invariant
                    i <= drv.outputs.entries.len(),
                    all == drv.outputs@,
                    text::texts(parts@) == head + output_fields(all.take(i as int)),
                decreases drv.outputs.entries.len() - i,
            {
                let ghost prior = parts@;
                let e = &drv.outputs.entries[i];
                parts.push(e.0.clone());
                parts.push(e.1.clone());
                proof {
                    assert(all.take(i + 1).drop_last() =~= all.take(i as int));
                    assert(all.take(i + 1).last() == (e.0@, e.1@));
                    assert(text::texts(parts@) =~= text::texts(prior).push(e.0@).push(e.1@));
                    assert(text::texts(parts@) =~= head + output_fields(all.take(i + 1)));
                }
                i += 1;
            }
            assert(all.take(i as int) =~= all);
            tell_all(&parts)
        },
        Err(e) => {
            let e = e.as_str();
            let d = tell(&["import-err", e]);
            assert(Seq::new(2, |i: int| ["import-err", e]@[i]@) =~= seq!["import-err"@, e@]);
            d
        },
    }
}

/// The digest of a search-path lookup.
pub fn digest_find_file(answer: &Result<PathValue, LookupError>) -> (d: Digest)
    ensures
        d@ == find_file(model::outcome(*answer)),
{
    match answer {
        Ok(path) => {
            let root = path.root.wire_name();
            let at = path.accessor_path();
            let d = tell(&["find-ok", root, at]);
            assert(Seq::new(3, |i: int| ["find-ok", root, at]@[i]@) =~= seq!["find-ok"@, root@, at@]);
            d
        },
        Err(LookupError::NotFound(m)) => {
            let m = m.as_str();
            let d = tell(&["find-miss", m]);
            assert(Seq::new(2, |i: int| ["find-miss", m]@[i]@) =~= seq!["find-miss"@, m@]);
            d
        },
        Err(LookupError::Failed(m)) => {
            let m = m.as_str();
            let d = tell(&["find-err", m]);
            assert(Seq::new(2, |i: int| ["find-err", m]@[i]@) =~= seq!["find-err"@, m@]);
            d
        },
        Err(LookupError::Unsupported(m)) => {
            let m = m.as_str();
            let d = tell(&["find-unsupported", m]);
            assert(Seq::new(2, |i: int| ["find-unsupported", m]@[i]@) =~= seq!["find-unsupported"@, m@]);
            d
        },
        Err(LookupError::NoResolver) => {
            let d = tell(&["find-absent"]);
            assert(Seq::new(1, |i: int| ["find-absent"]@[i]@) =~= seq!["find-absent"@]);
            d
        },
    }
}

/// Adds prefixes and paths in turn.
pub fn add_entries(parts: &mut Vec<String>, entries: &Vec<SearchPathEntry>)
    ensures
        text::texts(final(parts)@) == text::texts(old(parts)@) + entry_fields(entries.deep_view()),
{
    let ghost head = text::texts(parts@);
    let ghost all = entries.deep_view();
    let mut i: usize = 0;
    assert(text::texts(parts@) =~= head + entry_fields(all.take(0)));
    while i < entries.len()
        invariant
            i <= entries.len(),
            all == entries.deep_view(),
            text::texts(parts@) == head + entry_fields(all.take(i as int)),
        decreases entries.len() - i,
    {
        let ghost prior = parts@;
        let e = &entries[i];
        parts.push(e.prefix.clone());
        parts.push(e.path.clone());
        proof {
            assert(all.take(i + 1).drop_last() =~= all.take(i as int));
            assert(all.take(i + 1).last() == e@);
            assert(text::texts(parts@) =~= text::texts(prior).push(e.prefix@).push(e.path@));
            assert(text::texts(parts@) =~= head + entry_fields(all.take(i + 1)));
        }
        i += 1;
    }
    assert(all.take(i as int) =~= all);
}

/// The digest of the search path.
pub fn digest_nix_path(answer: &Result<Vec<SearchPathEntry>, LookupError>) -> (d: Digest)
    ensures
        d@ == nix_path(model::outcome(*answer)),
{
    match answer {
        Ok(v) => {
            let mut parts: Vec<String> = Vec::new();
            parts.push("nixpath-ok".to_owned());
            assert(text::texts(parts@) =~= seq!["nixpath-ok"@]);
            add_entries(&mut parts, v);
            tell_all(&parts)
        },
        Err(LookupError::NotFound(m)) => {
            let m = m.as_str();
            let d = tell(&["nixpath-err", m]);
            assert(Seq::new(2, |i: int| ["nixpath-err", m]@[i]@) =~= seq!["nixpath-err"@, m@]);
            d
        },
        Err(LookupError::Failed(m)) => {
            let m = m.as_str();
            let d = tell(&["nixpath-err", m]);
            assert(Seq::new(2, |i: int| ["nixpath-err", m]@[i]@) =~= seq!["nixpath-err"@, m@]);
            d
        },
        Err(LookupError::Unsupported(m)) => {
            let m = m.as_str();
            let d = tell(&["nixpath-err", m]);
            assert(Seq::new(2, |i: int| ["nixpath-err", m]@[i]@) =~= seq!["nixpath-err"@, m@]);
            d
        },
        Err(LookupError::NoResolver) => {
            let d = tell(&["nixpath-absent"]);
            assert(Seq::new(1, |i: int| ["nixpath-absent"]@[i]@) =~= seq!["nixpath-absent"@]);
            d
        },
    }
}

/// The digest of a text written to the store.
pub fn digest_store_text(answer: &Result<String, StoreError>) -> (d: Digest)
    ensures
        d@ == store_outcome("text"@, model::outcome(*answer)),
{
    match answer {
        Ok(s) => digest_store_outcome("text", Ok(s.as_str())),
        Err(e) => digest_store_outcome("text", Err(e)),
    }
}

/// The digest of a copy into the store.
pub fn digest_store_copy(answer: &Result<String, StoreError>) -> (d: Digest)
    ensures
        d@ == store_outcome("store"@, model::outcome(*answer)),
{
    match answer {
        Ok(s) => digest_store_outcome("store", Ok(s.as_str())),
        Err(e) => digest_store_outcome("store", Err(e)),
    }
}

/// The digest of a derivation written.
pub fn digest_write_drv(answer: &Result<String, StoreError>) -> (d: Digest)
    ensures
        d@ == store_outcome("write-drv"@, model::outcome(*answer)),
{
    match answer {
        Ok(s) => digest_store_outcome("write-drv", Ok(s.as_str())),
        Err(e) => digest_store_outcome("write-drv", Err(e)),
    }
}

/// The digest of a path ensured.
pub fn digest_store_ensure(answer: &Result<(), StoreError>) -> (d: Digest)
    ensures
        d@ == ensure(model::outcome(*answer)),
{
    match answer {
        Ok(_) => digest_store_outcome("ensure", Ok("")),
        Err(e) => digest_store_outcome("ensure", Err(e)),
    }
}

/// The digest of a flake locked.
pub fn digest_flake_call(answer: &Result<FlakeCall, StoreError>) -> (d: Digest)
    ensures
        d@ == flake_call(model::outcome(*answer)),
{
    match answer {
        Ok(call) => {
            let mut s = call.lock_file.clone();
            s.append("\0");
            s.append(call.overrides.as_str());
            digest_store_outcome("flake-call", Ok(s.as_str()))
        },
        Err(e) => digest_store_outcome("flake-call", Err(e)),
    }
}

/// The digest of a path used as a store path.
pub fn digest_store_path(answer: &Result<StorePathResult, StoreError>) -> (d: Digest)
    ensures
        d@ == store_path(model::outcome(*answer)),
{
    match answer {
        Ok(a) => {
            let mut s = a.path.clone();
            s.append("\0");
            s.append(a.store_path.as_str());
            digest_store_outcome("store-path", Ok(s.as_str()))
        },
        Err(e) => digest_store_outcome("store-path", Err(e)),
    }
}

/// The digest of a realisation: what it rewrites to what.
pub fn digest_realise(answer: &Result<TextMap<String>, StoreError>) -> (d: Digest)
    ensures
        d@ == realise(model::outcome(*answer)),
{
    match answer {
        Ok(rewrites) => {
            let mut lines: Vec<String> = Vec::new();
            let ghost r = rewrites@;
            let ghost all = Seq::new(r.len(), |i: int| r[i].0 + "\0"@ + r[i].1);
            let mut i: usize = 0;
            assert(text::texts(lines@) =~= all.take(0));
            while i < rewrites.entries.len()
                invariant
                    i <= rewrites.entries.len(),
                    r == rewrites@,
                    all == Seq::new(r.len(), |i: int| r[i].0 + "\0"@ + r[i].1),
                    text::texts(lines@) == all.take(i as int),
                decreases rewrites.entries.len() - i,
            {
                let ghost prior = lines@;
                let e = &rewrites.entries[i];
                let mut s = e.0.clone();
                s.append("\0");
                s.append(e.1.as_str());
                lines.push(s);
                proof {
                    assert(r[i as int] == (e.0@, e.1@));
                    assert(text::texts(lines@) =~= text::texts(prior).push(all[i as int]));
                    assert(all.take(i + 1) =~= all.take(i as int).push(all[i as int]));
                }
                i += 1;
            }
            assert(all.take(i as int) =~= all);
            let s = text::joined(&lines, "\0");
            digest_store_outcome("realise", Ok(s.as_str()))
        },
        Err(e) => digest_store_outcome("realise", Err(e)),
    }
}

/// The digest of a tree.
pub fn digest_tree(pinned: bool) -> (d: Digest)
    ensures
        d@ == tree(pinned),
{
    let s: &str = if pinned {
        "pinned"
    } else {
        "unavailable"
    };
    let d = tell(&["tree", s]);
    assert(Seq::new(2, |i: int| ["tree", s]@[i]@) =~= seq!["tree"@, s@]);
    d
}

/// What writing a derivation came to.
#[derive(Debug, PartialEq, Eq)]
pub enum WriteDrvAnswer {
    /// The path it was written to.
    Written(String),
    /// The kind of failure, and what it says.
    Failed { outcome: String, detail: String },
}

/// The model of [`WriteDrvAnswer`].
#[verifier::ext_equal]
pub enum WriteDrvAnswerV {
    Written(Seq<char>),
    Failed { outcome: Seq<char>, detail: Seq<char> },
}

impl View for WriteDrvAnswer {
    type V = WriteDrvAnswerV;

    open spec fn view(&self) -> WriteDrvAnswerV {
        match self {
            WriteDrvAnswer::Written(a) => WriteDrvAnswerV::Written(a@),
            WriteDrvAnswer::Failed { outcome, detail } => WriteDrvAnswerV::Failed { outcome: outcome@, detail: detail@ },
        }
    }
}

impl DeepView for WriteDrvAnswer {
    type V = WriteDrvAnswerV;

    open spec fn deep_view(&self) -> WriteDrvAnswerV {
        self@
    }
}

impl Clone for WriteDrvAnswer {
    fn clone(&self) -> (r: Self)
        ensures
            r@ == self@,
    {
        self.copied()
    }
}

impl Plain for WriteDrvAnswer {
    fn copied(&self) -> (r: Self) {
        match self {
            WriteDrvAnswer::Written(a) => WriteDrvAnswer::Written(a.copied()),
            WriteDrvAnswer::Failed { outcome, detail } => WriteDrvAnswer::Failed { outcome: outcome.copied(), detail: detail.copied() },
        }
    }

    fn same(&self, other: &Self) -> (r: bool) {
        match (self, other) {
            (WriteDrvAnswer::Written(a), WriteDrvAnswer::Written(b)) => a.same(b),
            (WriteDrvAnswer::Failed { outcome: outcome_a, detail: detail_a }, WriteDrvAnswer::Failed { outcome: outcome_b, detail: detail_b }) => {
                let s0 = outcome_a.same(outcome_b);
                let s1 = detail_a.same(detail_b);
                s0 && s1
            },
            _ => false,
        }
    }
}

impl WriteDrvAnswerV {
    /// The answer that a host's answer is.
    pub open spec fn made(answer: Result<Seq<char>, StoreErrorV>) -> WriteDrvAnswerV {
        match answer {
            Ok(path) => WriteDrvAnswerV::Written(path),
            Err(e) => WriteDrvAnswerV::Failed { outcome: failure(e).0, detail: failure(e).1 },
        }
    }

    /// The answer as one text: a path as it stands; a failure behind a NUL,
    /// its two parts with a NUL between them.
    pub open spec fn shown(self) -> Seq<char> {
        match self {
            WriteDrvAnswerV::Written(path) => path,
            WriteDrvAnswerV::Failed { outcome, detail } => "\0"@ + outcome + "\0"@ + detail,
        }
    }

    /// The answer that a text spells.
    pub open spec fn read(s: Seq<char>) -> Option<WriteDrvAnswerV> {
        if s.len() > 0 && s[0] == '\0' {
            let rest = s.skip(1);
            let i = text::first(rest, '\0');
            if i < rest.len() {
                Some(WriteDrvAnswerV::Failed { outcome: rest.take(i), detail: rest.skip(i + 1) })
            } else {
                None
            }
        } else {
            Some(WriteDrvAnswerV::Written(s))
        }
    }

    /// The answer's text spells this answer and no other: no path begins
    /// with a NUL, and no kind of failure holds one.
    pub open spec fn wf(self) -> bool {
        match self {
            WriteDrvAnswerV::Written(path) => path.len() == 0 || path[0] != '\0',
            WriteDrvAnswerV::Failed { outcome, detail } => !outcome.contains('\0'),
        }
    }
}

/// An answer is read back as it was shown.
pub proof fn write_drv_answer_reads_back(a: WriteDrvAnswerV)
    requires
        a.wf(),
    ensures
        WriteDrvAnswerV::read(a.shown()) == Some(a),
{
    reveal_strlit("\0");
    let s = a.shown();
    if let WriteDrvAnswerV::Failed { outcome, detail } = a {
        let rest = s.skip(1);
        assert(rest =~= outcome + "\0"@ + detail);
        assert forall|j: int| 0 <= j < outcome.len() implies rest[j] != '\0' by {
            assert(outcome[j] == rest[j]);
            assert(outcome.contains(outcome[j]));
        }
        text::first_is(rest, '\0', outcome.len() as int);
        assert(rest.take(outcome.len() as int) =~= outcome);
        assert(rest.skip(outcome.len() as int + 1) =~= detail);
    }
}

/// A failure that a host reports is well formed, whatever it says.
pub proof fn failure_is_well_formed(e: StoreErrorV)
    ensures
        WriteDrvAnswerV::made(Err(e)).wf(),
{
    reveal_strlit("err");
    reveal_strlit("ifd");
    reveal_strlit("unsupported");
    reveal_strlit("absent");
}

impl WriteDrvAnswer {
    pub fn of(answer: &Result<String, StoreError>) -> (r: WriteDrvAnswer)
        ensures
            r@ == WriteDrvAnswerV::made(model::outcome(*answer)),
    {
        match answer {
            Ok(path) => WriteDrvAnswer::Written(path.clone()),
            Err(e) => {
                let (outcome, detail) = store_failure(e);
                WriteDrvAnswer::Failed { outcome: outcome.to_owned(), detail: detail.to_owned() }
            },
        }
    }

    pub fn render(&self) -> (s: String)
        ensures
            s@ == self@.shown(),
    {
        match self {
            WriteDrvAnswer::Written(path) => path.clone(),
            WriteDrvAnswer::Failed { outcome, detail } => {
                let mut s: String = String::new();
                s.append("\0");
                s.append(outcome.as_str());
                s.append("\0");
                s.append(detail.as_str());
                assert(s@ =~= "\0"@ + outcome@ + "\0"@ + detail@);
                s
            },
        }
    }

    pub fn parse(s: &str) -> (r: Option<WriteDrvAnswer>)
        ensures
            r.deep_view() == WriteDrvAnswerV::read(s@),
    {
        let c = text::chars(s);
        if c.len() > 0 && c[0] == '\0' {
            let rest = text::chars(text::spell(&c, 1, c.len()).as_str());
            assert(rest@ =~= s@.skip(1));
            let i = text::before(&rest, '\0');
            if i < rest.len() {
                let outcome = text::spell(&rest, 0, i);
                let detail = text::spell(&rest, i + 1, rest.len());
                assert(outcome@ =~= rest@.take(i as int));
                assert(detail@ =~= rest@.skip(i + 1));
                return Some(WriteDrvAnswer::Failed { outcome, detail });
            }
            return None;
        }
        Some(WriteDrvAnswer::Written(s.to_owned()))
    }
}

/// Different answers to a file read as text have different digests.
pub proof fn file_answers_digest_apart(
    a: Result<Seq<char>, Seq<char>>,
    b: Result<Seq<char>, Seq<char>>,
)
    requires
        file_text(a) == file_text(b),
    ensures
        a == b,
{
    reveal_strlit("file-ok");
    reveal_strlit("file-err");
    let x = match a {
        Ok(t) => seq!["file-ok"@, t],
        Err(e) => seq!["file-err"@, e],
    };
    let y = match b {
        Ok(t) => seq!["file-ok"@, t],
        Err(e) => seq!["file-err"@, e],
    };
    told_injective(x, y);
    assert(x[0] == y[0] && x[1] == y[1]);
}

/// Different answers to a file read as bytes have different digests.
pub proof fn byte_answers_digest_apart(
    a: Result<Seq<u8>, Seq<char>>,
    b: Result<Seq<u8>, Seq<char>>,
)
    requires
        file_bytes(a) == file_bytes(b),
    ensures
        a == b,
{
    reveal_strlit("file-bytes-ok");
    reveal_strlit("file-bytes-err");
    let x = file_bytes(a)->Read_0;
    let y = file_bytes(b)->Read_0;
    assert(x[0] == y[0] && x[1] == y[1]);
    if a is Ok != b is Ok {
        text::utf8_injective("file-bytes-ok"@, "file-bytes-err"@);
    } else if a is Err {
        text::utf8_injective(a->Err_0, b->Err_0);
    }
}

proof fn kind_names_differ(a: FileType, b: FileType)
    requires
        a.spec_name() == b.spec_name(),
    ensures
        a == b,
{
    crate::host::file_type_reads_back(a);
    crate::host::file_type_reads_back(b);
}

proof fn listings_differ(a: Seq<(Seq<char>, FileType)>, b: Seq<(Seq<char>, FileType)>)
    requires
        listing(a) == listing(b),
    ensures
        a == b,
    decreases a.len(),
{
    listing_len(a);
    listing_len(b);
    if a.len() > 0 {
        let x = listing(a);
        let n = x.len();
        assert(x[n - 1] == a.last().1.spec_name());
        assert(x[n - 1] == b.last().1.spec_name());
        assert(x[n - 2] == a.last().0);
        assert(x[n - 2] == b.last().0);
        kind_names_differ(a.last().1, b.last().1);
        assert(x.drop_last().drop_last() =~= listing(a.drop_last()));
        assert(x.drop_last().drop_last() =~= listing(b.drop_last()));
        listings_differ(a.drop_last(), b.drop_last());
        assert(a =~= a.drop_last().push(a.last()));
        assert(b =~= b.drop_last().push(b.last()));
    } else {
        assert(a =~= b);
    }
}

proof fn listing_len(a: Seq<(Seq<char>, FileType)>)
    ensures
        listing(a).len() == 1 + 2 * a.len(),
        listing(a)[0] == "dir-ok"@,
    decreases a.len(),
{
    if a.len() > 0 {
        listing_len(a.drop_last());
    }
}

/// Different listings, and different failures to list, have different digests.
pub proof fn listings_digest_apart(
    a: Result<Seq<(Seq<char>, FileType)>, Seq<char>>,
    b: Result<Seq<(Seq<char>, FileType)>, Seq<char>>,
)
    requires
        entries(a) == entries(b),
    ensures
        a == b,
{
    reveal_strlit("dir-ok");
    reveal_strlit("dir-err");
    let x = match a {
        Ok(v) => listing(v),
        Err(e) => seq!["dir-err"@, e],
    };
    let y = match b {
        Ok(v) => listing(v),
        Err(e) => seq!["dir-err"@, e],
    };
    told_injective(x, y);
    if a is Ok {
        listing_len(a->Ok_0);
    }
    if b is Ok {
        listing_len(b->Ok_0);
    }
    assert(x[0] == y[0]);
    assert("dir-ok"@.len() != "dir-err"@.len());
    if a is Ok {
        listings_differ(a->Ok_0, b->Ok_0);
    } else {
        assert(x[1] == y[1]);
    }
}

/// A path that is there, one that is not and each failure to tell have
/// different digests.
pub proof fn existence_digests_apart(a: Result<bool, Seq<char>>, b: Result<bool, Seq<char>>)
    requires
        exists_answer(a) == exists_answer(b),
    ensures
        a == b,
{
    reveal_strlit("exists");
    reveal_strlit("exists-error");
    reveal_strlit("1");
    reveal_strlit("0");
    let x = match a {
        Ok(v) => seq!["exists"@, if v { "1"@ } else { "0"@ }],
        Err(e) => seq!["exists-error"@, e],
    };
    let y = match b {
        Ok(v) => seq!["exists"@, if v { "1"@ } else { "0"@ }],
        Err(e) => seq!["exists-error"@, e],
    };
    told_injective(x, y);
    assert(x[0] == y[0] && x[1] == y[1]);
    assert("exists"@.len() != "exists-error"@.len());
    assert("1"@[0] != "0"@[0]);
}

/// Different kinds of file, none, and each failure to tell have different
/// digests.
pub proof fn kinds_digest_apart(
    a: Result<Option<FileType>, Seq<char>>,
    b: Result<Option<FileType>, Seq<char>>,
)
    requires
        kind(a) == kind(b),
    ensures
        a == b,
{
    reveal_strlit("kind-ok");
    reveal_strlit("kind-absent");
    reveal_strlit("kind-err");
    let x = match a {
        Ok(Some(k)) => seq!["kind-ok"@, k.spec_name()],
        Ok(None) => seq!["kind-absent"@],
        Err(e) => seq!["kind-err"@, e],
    };
    let y = match b {
        Ok(Some(k)) => seq!["kind-ok"@, k.spec_name()],
        Ok(None) => seq!["kind-absent"@],
        Err(e) => seq!["kind-err"@, e],
    };
    told_injective(x, y);
    assert(x[0] == y[0]);
    assert("kind-ok"@.len() != "kind-err"@.len());
    assert("kind-ok"@.len() != "kind-absent"@.len());
    assert("kind-err"@.len() != "kind-absent"@.len());
    if x.len() > 1 {
        assert(x[1] == y[1]);
        match (a, b) {
            (Ok(Some(k)), Ok(Some(j))) => {
                kind_names_differ(k, j);
            },
            _ => {},
        }
    }
}

/// Different kinds behind links, and each failure to tell, have different
/// digests.
pub proof fn resolved_kinds_digest_apart(
    a: Result<FileType, Seq<char>>,
    b: Result<FileType, Seq<char>>,
)
    requires
        kind_resolved(a) == kind_resolved(b),
    ensures
        a == b,
{
    reveal_strlit("kind-resolved-ok");
    reveal_strlit("kind-resolved-err");
    let x = match a {
        Ok(k) => seq!["kind-resolved-ok"@, k.spec_name()],
        Err(e) => seq!["kind-resolved-err"@, e],
    };
    let y = match b {
        Ok(k) => seq!["kind-resolved-ok"@, k.spec_name()],
        Err(e) => seq!["kind-resolved-err"@, e],
    };
    told_injective(x, y);
    assert(x[0] == y[0] && x[1] == y[1]);
    assert("kind-resolved-ok"@.len() != "kind-resolved-err"@.len());
    if a is Ok && b is Ok {
        kind_names_differ(a->Ok_0, b->Ok_0);
    }
}

/// Different values of a variable, and its being unset, have different digests.
pub proof fn variables_digest_apart(a: Option<Seq<char>>, b: Option<Seq<char>>)
    requires
        env(a) == env(b),
    ensures
        a == b,
{
    if a is Some && b is Some {
        let x = seq!["env-set"@, a->0];
        let y = seq!["env-set"@, b->0];
        told_injective(x, y);
        assert(x[1] == y[1]);
    } else if a is Some {
        env_unset_is_not_empty(a->0);
    } else if b is Some {
        env_unset_is_not_empty(b->0);
    }
}

proof fn outputs_differ(a: Seq<(Seq<char>, Seq<char>)>, b: Seq<(Seq<char>, Seq<char>)>)
    requires
        output_fields(a) == output_fields(b),
    ensures
        a == b,
    decreases a.len(),
{
    output_len(a);
    output_len(b);
    if a.len() > 0 {
        let x = output_fields(a);
        let n = x.len();
        assert(x[n - 1] == a.last().1 && x[n - 1] == b.last().1);
        assert(x[n - 2] == a.last().0 && x[n - 2] == b.last().0);
        assert(x.drop_last().drop_last() =~= output_fields(a.drop_last()));
        assert(x.drop_last().drop_last() =~= output_fields(b.drop_last()));
        outputs_differ(a.drop_last(), b.drop_last());
        assert(a =~= a.drop_last().push(a.last()));
        assert(b =~= b.drop_last().push(b.last()));
    } else {
        assert(a =~= b);
    }
}

proof fn output_len(a: Seq<(Seq<char>, Seq<char>)>)
    ensures
        output_fields(a).len() == 2 * a.len(),
    decreases a.len(),
{
    if a.len() > 0 {
        output_len(a.drop_last());
    }
}

/// Different sources, whether read from a file or made for a derivation, and
/// each failure to import have different digests.
pub proof fn imports_digest_apart(
    a: Result<ImportedSourceV, Seq<char>>,
    b: Result<ImportedSourceV, Seq<char>>,
)
    requires
        import(a) == import(b),
        a matches Ok(ImportedSourceV::Nix { path, text }) ==> path.wf(),
        b matches Ok(ImportedSourceV::Nix { path, text }) ==> path.wf(),
    ensures
        a == b,
{
    reveal_strlit("import-ok");
    reveal_strlit("import-drv");
    reveal_strlit("import-err");
    reveal_strlit("");
    let x = match a {
        Ok(ImportedSourceV::Nix { path, text }) => seq![
            "import-ok"@,
            path.root.wire(),
            path.path,
            text,
        ],
        Ok(ImportedSourceV::Derivation(drv)) => seq!["import-drv"@, drv.path, drv.name]
            + output_fields(drv.outputs),
        Err(e) => seq!["import-err"@, e],
    };
    let y = match b {
        Ok(ImportedSourceV::Nix { path, text }) => seq![
            "import-ok"@,
            path.root.wire(),
            path.path,
            text,
        ],
        Ok(ImportedSourceV::Derivation(drv)) => seq!["import-drv"@, drv.path, drv.name]
            + output_fields(drv.outputs),
        Err(e) => seq!["import-err"@, e],
    };
    told_injective(x, y);
    assert(x[0] == y[0]);
    assert("import-ok"@.len() != "import-drv"@.len());
    assert("import-ok"@.len() != "import-err"@.len());
    assert("import-drv"@[7] != "import-err"@[7]);
    match (a, b) {
        (Ok(ImportedSourceV::Nix { path: p, text: s }), Ok(ImportedSourceV::Nix { path: q, text: t })) => {
            assert(x[1] == y[1] && x[2] == y[2] && x[3] == y[3]);
            crate::value::root_reads_back(p.root);
            crate::value::root_reads_back(q.root);
        },
        (Ok(ImportedSourceV::Derivation(d)), Ok(ImportedSourceV::Derivation(e))) => {
            assert(x[1] == d.path && y[1] == e.path);
            assert(x[2] == d.name && y[2] == e.name);
            assert(x.skip(3) =~= output_fields(d.outputs));
            assert(y.skip(3) =~= output_fields(e.outputs));
            outputs_differ(d.outputs, e.outputs);
        },
        (Err(d), Err(e)) => {
            assert(x[1] == y[1]);
        },
        _ => {},
    }
}

/// Different paths that a lookup finds, and different failures of it, have
/// different digests.
pub proof fn lookups_digest_apart(
    a: Result<PathValueV, LookupErrorV>,
    b: Result<PathValueV, LookupErrorV>,
)
    requires
        find_file(a) == find_file(b),
        a matches Ok(p) ==> p.wf(),
        b matches Ok(p) ==> p.wf(),
    ensures
        a == b,
{
    reveal_strlit("find-ok");
    reveal_strlit("find-miss");
    reveal_strlit("find-err");
    reveal_strlit("find-unsupported");
    reveal_strlit("find-absent");
    let x = match a {
        Ok(path) => seq!["find-ok"@, path.root.wire(), path.path],
        Err(LookupErrorV::NotFound(m)) => seq!["find-miss"@, m],
        Err(LookupErrorV::Failed(m)) => seq!["find-err"@, m],
        Err(LookupErrorV::Unsupported(m)) => seq!["find-unsupported"@, m],
        Err(LookupErrorV::NoResolver) => seq!["find-absent"@],
    };
    let y = match b {
        Ok(path) => seq!["find-ok"@, path.root.wire(), path.path],
        Err(LookupErrorV::NotFound(m)) => seq!["find-miss"@, m],
        Err(LookupErrorV::Failed(m)) => seq!["find-err"@, m],
        Err(LookupErrorV::Unsupported(m)) => seq!["find-unsupported"@, m],
        Err(LookupErrorV::NoResolver) => seq!["find-absent"@],
    };
    told_injective(x, y);
    assert(x[0] == y[0]);
    assert("find-ok"@.len() == 7 && "find-miss"@.len() == 9 && "find-err"@.len() == 8
        && "find-unsupported"@.len() == 16 && "find-absent"@.len() == 11);
    if x.len() > 1 {
        assert(x[1] == y[1]);
    }
    if a is Ok {
        assert(x[2] == y[2]);
        crate::value::root_reads_back(a->Ok_0.root);
        crate::value::root_reads_back(b->Ok_0.root);
    }
}

proof fn entry_fields_differ(a: Seq<SearchPathEntryV>, b: Seq<SearchPathEntryV>)
    requires
        entry_fields(a) == entry_fields(b),
    ensures
        a == b,
    decreases a.len(),
{
    entry_fields_len(a);
    entry_fields_len(b);
    if a.len() > 0 {
        let x = entry_fields(a);
        let n = x.len();
        assert(x[n - 1] == a.last().path && x[n - 1] == b.last().path);
        assert(x[n - 2] == a.last().prefix && x[n - 2] == b.last().prefix);
        assert(x.drop_last().drop_last() =~= entry_fields(a.drop_last()));
        assert(x.drop_last().drop_last() =~= entry_fields(b.drop_last()));
        entry_fields_differ(a.drop_last(), b.drop_last());
        assert(a =~= a.drop_last().push(a.last()));
        assert(b =~= b.drop_last().push(b.last()));
    } else {
        assert(a =~= b);
    }
}

proof fn entry_fields_len(a: Seq<SearchPathEntryV>)
    ensures
        entry_fields(a).len() == 2 * a.len(),
    decreases a.len(),
{
    if a.len() > 0 {
        entry_fields_len(a.drop_last());
    }
}

/// What a failure of a lookup says.
pub open spec fn lookup_says(e: LookupErrorV) -> Option<Seq<char>> {
    match e {
        LookupErrorV::NotFound(m) => Some(m),
        LookupErrorV::Failed(m) => Some(m),
        LookupErrorV::Unsupported(m) => Some(m),
        LookupErrorV::NoResolver => None,
    }
}

/// Different search paths have different digests, and so have failures that
/// say something else.
pub proof fn search_paths_digest_apart(
    a: Result<Seq<SearchPathEntryV>, LookupErrorV>,
    b: Result<Seq<SearchPathEntryV>, LookupErrorV>,
)
    requires
        nix_path(a) == nix_path(b),
    ensures
        a == b || (a matches Err(d) && (b matches Err(e) && lookup_says(d) == lookup_says(e))),
{
    reveal_strlit("nixpath-ok");
    reveal_strlit("nixpath-err");
    reveal_strlit("nixpath-absent");
    let x = match a {
        Ok(v) => seq!["nixpath-ok"@] + entry_fields(v),
        Err(e) => match lookup_says(e) {
            Some(m) => seq!["nixpath-err"@, m],
            None => seq!["nixpath-absent"@],
        },
    };
    let y = match b {
        Ok(v) => seq!["nixpath-ok"@] + entry_fields(v),
        Err(e) => match lookup_says(e) {
            Some(m) => seq!["nixpath-err"@, m],
            None => seq!["nixpath-absent"@],
        },
    };
    assert(nix_path(a) == told(x));
    assert(nix_path(b) == told(y));
    told_injective(x, y);
    assert(x[0] == y[0]);
    assert("nixpath-ok"@.len() == 10 && "nixpath-err"@.len() == 11 && "nixpath-absent"@.len()
        == 14);
    if a is Ok {
        assert(x.skip(1) =~= entry_fields(a->Ok_0));
        assert(y.skip(1) =~= entry_fields(b->Ok_0));
        entry_fields_differ(a->Ok_0, b->Ok_0);
    } else if x.len() > 1 {
        assert(x[1] == y[1]);
    }
}

/// The text has no null character.
pub open spec fn without_null(s: Seq<char>) -> bool {
    !s.contains('\0')
}

proof fn halves_differ(a: Seq<char>, b: Seq<char>, c: Seq<char>, d: Seq<char>)
    requires
        a + "\0"@ + b == c + "\0"@ + d,
        without_null(a),
        without_null(c),
    ensures
        a == c,
        b == d,
{
    reveal_strlit("\0");
    let x = a + "\0"@ + b;
    let y = c + "\0"@ + d;
    assert(x[a.len() as int] == '\0');
    assert(y[c.len() as int] == '\0');
    if a.len() < c.len() {
        assert(y[a.len() as int] == c[a.len() as int]);
        assert(c.contains(c[a.len() as int]));
    } else if c.len() < a.len() {
        assert(x[c.len() as int] == a[c.len() as int]);
        assert(a.contains(a[c.len() as int]));
    }
    assert(x.take(a.len() as int) =~= a);
    assert(y.take(c.len() as int) =~= c);
    assert(x.skip(a.len() as int + 1) =~= b);
    assert(y.skip(c.len() as int + 1) =~= d);
}

/// Different flakes locked have different digests, their lock files being
/// free of null characters, and so have different failures.
pub proof fn flakes_digest_apart(
    a: Result<FlakeCallV, StoreErrorV>,
    b: Result<FlakeCallV, StoreErrorV>,
)
    requires
        flake_call(a) == flake_call(b),
        a matches Ok(c) ==> without_null(c.lock_file),
        b matches Ok(c) ==> without_null(c.lock_file),
    ensures
        a == b,
{
    let x: Result<Seq<char>, StoreErrorV> = match a {
        Ok(c) => Ok(c.lock_file + "\0"@ + c.overrides),
        Err(e) => Err(e),
    };
    let y: Result<Seq<char>, StoreErrorV> = match b {
        Ok(c) => Ok(c.lock_file + "\0"@ + c.overrides),
        Err(e) => Err(e),
    };
    store_outcome_injective("flake-call"@, x, y);
    if a is Ok {
        let c = a->Ok_0;
        let d = b->Ok_0;
        halves_differ(c.lock_file, c.overrides, d.lock_file, d.overrides);
    }
}

/// Different store paths have different digests, the paths being free of null
/// characters, and so have different failures.
pub proof fn store_paths_digest_apart(
    a: Result<StorePathResultV, StoreErrorV>,
    b: Result<StorePathResultV, StoreErrorV>,
)
    requires
        store_path(a) == store_path(b),
        a matches Ok(c) ==> without_null(c.path),
        b matches Ok(c) ==> without_null(c.path),
    ensures
        a == b,
{
    let x: Result<Seq<char>, StoreErrorV> = match a {
        Ok(c) => Ok(c.path + "\0"@ + c.store_path),
        Err(e) => Err(e),
    };
    let y: Result<Seq<char>, StoreErrorV> = match b {
        Ok(c) => Ok(c.path + "\0"@ + c.store_path),
        Err(e) => Err(e),
    };
    store_outcome_injective("store-path"@, x, y);
    if a is Ok {
        let c = a->Ok_0;
        let d = b->Ok_0;
        halves_differ(c.path, c.store_path, d.path, d.store_path);
    }
}

/// A path that could be ensured and each failure to have different digests.
pub proof fn ensured_paths_digest_apart(a: Result<(), StoreErrorV>, b: Result<(), StoreErrorV>)
    requires
        ensure(a) == ensure(b),
    ensures
        a is Ok == b is Ok,
        a matches Err(d) ==> (b matches Err(e) && d == e),
{
    let x: Result<Seq<char>, StoreErrorV> = match a {
        Ok(_) => Ok(""@),
        Err(e) => Err(e),
    };
    let y: Result<Seq<char>, StoreErrorV> = match b {
        Ok(_) => Ok(""@),
        Err(e) => Err(e),
    };
    store_outcome_injective("ensure"@, x, y);
}

/// The rewrites are free of null characters.
pub open spec fn plain_rewrites(r: Seq<(Seq<char>, Seq<char>)>) -> bool {
    forall|i: int|
        0 <= i < r.len() ==> without_null((#[trigger] r[i]).0) && without_null(r[i].1)
}

/// The placeholders and paths of rewrites, in turn.
spec fn rewrite_texts(r: Seq<(Seq<char>, Seq<char>)>) -> Seq<Seq<char>> {
    Seq::new(2 * r.len(), |i: int| if i % 2 == 0 { r[i / 2].0 } else { r[i / 2].1 })
}

proof fn rewrites_are_joined(r: Seq<(Seq<char>, Seq<char>)>)
    ensures
        rewrites_text(r) == text::join(rewrite_texts(r), "\0"@),
    decreases r.len(),
{
    let whole = Seq::new(r.len(), |i: int| r[i].0 + "\0"@ + r[i].1);
    let t = rewrite_texts(r);
    if r.len() == 0 {
        assert(t =~= Seq::<Seq<char>>::empty());
        assert(whole =~= Seq::<Seq<char>>::empty());
    } else {
        let p = r.drop_last();
        rewrites_are_joined(p);
        let n = t.len() as int;
        assert(t.drop_last().drop_last() =~= rewrite_texts(p));
        assert(t.last() == r.last().1);
        assert(t.drop_last().last() == r.last().0);
        assert(whole.drop_last() =~= Seq::new(p.len(), |i: int| p[i].0 + "\0"@ + p[i].1));
        reveal_with_fuel(text::join, 3);
        if r.len() == 1 {
            assert(t.drop_last() =~= seq![r[0].0]);
            assert(text::join(t, "\0"@) == r[0].0 + "\0"@ + r[0].1);
        } else {
            let head = text::join(rewrite_texts(p), "\0"@);
            assert(text::join(t, "\0"@) == head + "\0"@ + r.last().0 + "\0"@ + r.last().1);
            assert(head + "\0"@ + r.last().0 + "\0"@ + r.last().1 =~= head + "\0"@ + (r.last().0
                + "\0"@ + r.last().1));
        }
    }
}

/// Different rewrites have different digests, their texts being free of null
/// characters, and so have different failures.
pub proof fn realisations_digest_apart(
    a: Result<Seq<(Seq<char>, Seq<char>)>, StoreErrorV>,
    b: Result<Seq<(Seq<char>, Seq<char>)>, StoreErrorV>,
)
    requires
        realise(a) == realise(b),
        a matches Ok(r) ==> plain_rewrites(r),
        b matches Ok(r) ==> plain_rewrites(r),
    ensures
        a == b,
{
    let x: Result<Seq<char>, StoreErrorV> = match a {
        Ok(r) => Ok(rewrites_text(r)),
        Err(e) => Err(e),
    };
    let y: Result<Seq<char>, StoreErrorV> = match b {
        Ok(r) => Ok(rewrites_text(r)),
        Err(e) => Err(e),
    };
    store_outcome_injective("realise"@, x, y);
    if a is Ok {
        let r = a->Ok_0;
        let s = b->Ok_0;
        rewrites_are_joined(r);
        rewrites_are_joined(s);
        reveal_strlit("\0");
        assert("\0"@ =~= seq!['\0']);
        let t = rewrite_texts(r);
        let u = rewrite_texts(s);
        if r.len() == 0 {
            assert(t =~= Seq::<Seq<char>>::empty());
            if s.len() > 0 {
                joined_len(u);
            }
            assert(r =~= s);
        } else if s.len() == 0 {
            assert(u =~= Seq::<Seq<char>>::empty());
            joined_len(t);
        } else {
            text::split_of_join(t, '\0');
            text::split_of_join(u, '\0');
            assert(t == u);
            assert(r.len() == s.len());
            assert forall|i: int| 0 <= i < r.len() implies r[i] == s[i] by {
                assert(t[2 * i] == r[i].0 && t[2 * i + 1] == r[i].1);
                assert(u[2 * i] == s[i].0 && u[2 * i + 1] == s[i].1);
            }
            assert(r =~= s);
        }
    }
}

proof fn joined_len(v: Seq<Seq<char>>)
    requires
        v.len() >= 2,
    ensures
        text::join(v, "\0"@).len() > 0,
{
    reveal_strlit("\0");
}

/// What is recorded of a derivation's writing tells its outcome: no path is
/// taken for another, nor a failure for another or for a path.
pub proof fn written_answers_are_told_apart(
    a: Result<Seq<char>, StoreErrorV>,
    b: Result<Seq<char>, StoreErrorV>,
)
    requires
        WriteDrvAnswerV::made(a) == WriteDrvAnswerV::made(b),
    ensures
        a == b,
        a matches Ok(path) ==> WriteDrvAnswerV::made(a) == WriteDrvAnswerV::Written(path),
{
    reveal_strlit("err");
    reveal_strlit("ifd");
    reveal_strlit("unsupported");
    reveal_strlit("absent");
    assert("err"@[0] != "ifd"@[0]);
    assert("absent"@.len() != "unsupported"@.len());
}

/// The fields that each digest is taken over.
pub proof fn what_digests_are_taken_over(t: Seq<char>, b: Seq<u8>, k: FileType)
    ensures
        file_text(Ok(t)) == told(seq!["file-ok"@, t]),
        file_bytes(Ok(b)) == DigestV::Read(seq![text::utf8("file-bytes-ok"@), b]),
        env(Some(t)) == told(seq!["env-set"@, t]),
        env(None) == told(seq!["env-unset"@]),
        exists_answer(Ok(true)) == told(seq!["exists"@, "1"@]),
        exists_answer(Ok(false)) == told(seq!["exists"@, "0"@]),
        kind(Ok(Some(k))) == told(seq!["kind-ok"@, k.spec_name()]),
        kind(Ok(None)) == told(seq!["kind-absent"@]),
        store_outcome("store"@, Ok(t)) == told(seq!["store"@, "ok"@, t]),
        tree(true) == told(seq!["tree"@, "pinned"@]),
{
}

/// A byte is two digits in hexadecimal, the greater first, and its letters are
/// small ones.
pub proof fn how_bytes_are_spelt(b: Seq<u8>, x: u8)
    ensures
        hex(Seq::<u8>::empty()).len() == 0,
        hex(b.push(x)) == hex(b) + seq![hex_digit(x as int / 16), hex_digit(x as int % 16)],
        hex_digit(0) == '0' && hex_digit(9) == '9' && hex_digit(10) == 'a' && hex_digit(11) == 'b'
            && hex_digit(12) == 'c' && hex_digit(13) == 'd' && hex_digit(14) == 'e' && hex_digit(15)
            == 'f',
{
    assert(b.push(x).drop_last() =~= b);
    assert(hex(b.push(x)) =~= hex(b) + seq![hex_digit(x as int / 16), hex_digit(x as int % 16)]);
}

} // verus!
