//! The inputs an evaluation read, and the keys that they make.
use vstd::prelude::*;
use std::rc::Rc;
use crate::change;
use crate::digest;
use crate::digest::{settled_parts, Digest, HashFn, ObjId, Part, PartV, Preimage, PreimageV};
use crate::host::{Host, Sealed};
use crate::immutable;
use crate::immutable::SealedV;
use crate::model::Plain;
use crate::named;
use crate::ordered;
use crate::question::{Question, QuestionV, Recorded, RecordedV, WitnessRow};
use crate::records::{DirSealed, DirSealedV};
use crate::replay;
use crate::replay::{ReplayFailure, ReplayFailureV, SceneV, Settings};
use crate::text;
use crate::validity::{Given, GivenV, RowsV, ValidityV};
use crate::value::{PathValue, PathValueV};

verus! {

/// What identifies an evaluation: its module, evaluator, settings, arguments
/// and question.
#[derive(Clone, Copy, Debug, PartialEq, Eq, PartialOrd, Ord)]
pub struct EvalId {
    pub key: digest::Hash,
}

impl View for EvalId {
    type V = Seq<u8>;

    open spec fn view(&self) -> Seq<u8> {
        self.key@
    }
}

impl DeepView for EvalId {
    type V = Seq<u8>;

    open spec fn deep_view(&self) -> Seq<u8> {
        self@
    }
}

impl Plain for EvalId {
    fn copied(&self) -> (r: Self) {
        *self
    }

    fn same(&self, other: &Self) -> (r: bool) {
        self.key.same(&other.key)
    }
}

/// The tag of evaluation identities.
pub const EVAL_ID_TAG: &'static str = "ixe-eval-identity-v6";

/// The tag of the fingerprints of recorded rows.
pub const READ_ENTRY_TAG: &'static str = "ixe-read-entry-v1";

/// The tag of the digests by which questions that are asked again are counted.
pub const QUESTION_ARGUMENT_TAG: &'static str = "ixe-question-argument-v1";

pub fn bytes_part(b: Vec<u8>) -> (p: Part)
    ensures
        p@ == PartV::Bytes(b@),
{
    assert(b.deep_view() =~= b@);
    Part::Bytes(b)
}

impl EvalId {
    /// What the identity is the hash of.
    pub fn of(
        module: &digest::Hash,
        evaluator: &str,
        settings: &digest::Hash,
        arguments: &digest::Hash,
        question: &digest::Hash,
    ) -> (r: Preimage)
        ensures
            r@ == identity_of(module@, evaluator@, settings@, arguments@, question@),
            r@ == (PreimageV {
                tag: EVAL_ID_TAG@,
                parts: seq![
                    PartV::Bytes(module@),
                    PartV::Bytes(text::utf8(evaluator@)),
                    PartV::Bytes(settings@),
                    PartV::Bytes(arguments@),
                    PartV::Bytes(question@),
                ],
            }),
    {
        let mut parts: Vec<Part> = Vec::new();
        parts.push(bytes_part(module.to_vec()));
        parts.push(bytes_part(text::bytes(evaluator)));
        parts.push(bytes_part(settings.to_vec()));
        parts.push(bytes_part(arguments.to_vec()));
        parts.push(bytes_part(question.to_vec()));
        assert(parts.deep_view() =~= seq![
            PartV::Bytes(module@),
            PartV::Bytes(text::utf8(evaluator@)),
            PartV::Bytes(settings@),
            PartV::Bytes(arguments@),
            PartV::Bytes(question@),
        ]);
        Preimage { tag: EVAL_ID_TAG.to_owned(), parts }
    }

    pub fn as_hash(&self) -> (r: &digest::Hash)
        ensures
            r@ == self@,
    {
        &self.key
    }
}

/// Byte strings as fields of a hash.
pub open spec fn byte_parts(v: Seq<Seq<u8>>) -> Seq<PartV> {
    Seq::new(v.len(), |i: int| PartV::Bytes(v[i]))
}

/// What a row adds to a key: what its question adds, and the digest of its answer.
pub open spec fn row_parts(q: QuestionV, r: RecordedV) -> Seq<PartV> {
    byte_parts(q.key_material()).push(PartV::Digest(r.digest()))
}

/// What the first `n` rows add to a key.
pub open spec fn rows_parts(rows: RowsV, n: int) -> Seq<PartV>
    decreases n,
{
    if n <= 0 {
        Seq::empty()
    } else {
        rows_parts(rows, n - 1) + row_parts(rows[n - 1].0, rows[n - 1].1)
    }
}

/// The key of an evaluation that read these rows.
pub open spec fn key(rows: RowsV, identity: Seq<u8>) -> PreimageV {
    PreimageV {
        tag: digest::EVAL_TAG@,
        parts: seq![PartV::Bytes(identity)] + rows_parts(rows, rows.len() as int),
    }
}

/// The rows with what is recorded of each answer replaced.
pub open spec fn with_recorded(rows: RowsV, out: Seq<RecordedV>) -> RowsV {
    Seq::new(rows.len(), |i: int| (rows[i].0, out[i]))
}

/// Two rows with one question, whose answers have one digest.
pub open spec fn rows_agree(
    a: (QuestionV, RecordedV),
    b: (QuestionV, RecordedV),
    hash: HashFn,
) -> bool {
    a.0 == b.0 && a.1.digest().settled(hash) == b.1.digest().settled(hash)
}

proof fn settled_join(a: Seq<PartV>, b: Seq<PartV>, hash: HashFn)
    ensures
        settled_parts(a + b, hash) == settled_parts(a, hash) + settled_parts(b, hash),
{
    assert(settled_parts(a + b, hash) =~= settled_parts(a, hash) + settled_parts(b, hash));
}

proof fn row_settled(q: QuestionV, r: RecordedV, hash: HashFn)
    ensures
        settled_parts(row_parts(q, r), hash) == q.key_material().push(r.digest().settled(hash)),
{
    assert(byte_parts(q.key_material()).len() == q.key_material().len());
    assert(settled_parts(row_parts(q, r), hash) =~= q.key_material().push(
        r.digest().settled(hash),
    ));
}

proof fn same_digests_same_parts(a: RowsV, b: RowsV, n: int, hash: HashFn)
    requires
        0 <= n <= a.len(),
        n <= b.len(),
        forall|i: int| 0 <= i < n ==> rows_agree(#[trigger] a[i], b[i], hash),
    ensures
        settled_parts(rows_parts(a, n), hash) == settled_parts(rows_parts(b, n), hash),
    decreases n,
{
    if n > 0 {
        same_digests_same_parts(a, b, n - 1, hash);
        assert(rows_agree(a[n - 1], b[n - 1], hash));
        settled_join(rows_parts(a, n - 1), row_parts(a[n - 1].0, a[n - 1].1), hash);
        settled_join(rows_parts(b, n - 1), row_parts(b[n - 1].0, b[n - 1].1), hash);
        row_settled(a[n - 1].0, a[n - 1].1, hash);
        row_settled(b[n - 1].0, b[n - 1].1, hash);
    }
}

proof fn key_settled(rows: RowsV, identity: Seq<u8>, hash: HashFn)
    ensures
        key(rows, identity).settled(hash) == (
            digest::EVAL_TAG@,
            seq![identity] + settled_parts(rows_parts(rows, rows.len() as int), hash),
        ),
{
    let head = seq![PartV::Bytes(identity)];
    settled_join(head, rows_parts(rows, rows.len() as int), hash);
    assert(settled_parts(head, hash) =~= seq![identity]);
}

/// Rows that agree, whether their digests are still to be taken or came as
/// their bytes, make one key.
pub proof fn rows_that_agree_key_the_same(a: RowsV, b: RowsV, identity: Seq<u8>, hash: HashFn)
    requires
        a.len() == b.len(),
        forall|i: int| 0 <= i < a.len() ==> rows_agree(#[trigger] a[i], b[i], hash),
    ensures
        key(a, identity).settled(hash) == key(b, identity).settled(hash),
{
    same_digests_same_parts(a, b, a.len() as int, hash);
    key_settled(a, identity, hash);
    key_settled(b, identity, hash);
}

proof fn parts_len(a: RowsV, b: RowsV, n: int)
    requires
        0 <= n <= a.len(),
        n <= b.len(),
        forall|i: int| 0 <= i < n ==> (#[trigger] a[i]).0 == b[i].0,
    ensures
        rows_parts(a, n).len() == rows_parts(b, n).len(),
    decreases n,
{
    if n > 0 {
        parts_len(a, b, n - 1);
        assert(a[n - 1].0 == b[n - 1].0);
    }
}

proof fn same_parts_same_digests(a: RowsV, b: RowsV, n: int, hash: HashFn)
    requires
        0 <= n <= a.len(),
        n <= b.len(),
        forall|i: int| 0 <= i < n ==> (#[trigger] a[i]).0 == b[i].0,
        settled_parts(rows_parts(a, n), hash) == settled_parts(rows_parts(b, n), hash),
    ensures
        forall|i: int|
            0 <= i < n ==> (#[trigger] a[i]).1.digest().settled(hash) == b[i].1.digest().settled(
                hash,
            ),
    decreases n,
{
    if n > 0 {
        parts_len(a, b, n - 1);
        assert(a[n - 1].0 == b[n - 1].0);
        let x = settled_parts(rows_parts(a, n - 1), hash);
        let y = settled_parts(rows_parts(b, n - 1), hash);
        let p = settled_parts(row_parts(a[n - 1].0, a[n - 1].1), hash);
        let q = settled_parts(row_parts(b[n - 1].0, b[n - 1].1), hash);
        settled_join(rows_parts(a, n - 1), row_parts(a[n - 1].0, a[n - 1].1), hash);
        settled_join(rows_parts(b, n - 1), row_parts(b[n - 1].0, b[n - 1].1), hash);
        row_settled(a[n - 1].0, a[n - 1].1, hash);
        row_settled(b[n - 1].0, b[n - 1].1, hash);
        assert((x + p).take(x.len() as int) =~= x);
        assert((y + q).take(x.len() as int) =~= y);
        assert((x + p).last() == p.last());
        assert((y + q).last() == q.last());
        same_parts_same_digests(a, b, n - 1, hash);
    }
}

/// The same questions with an answer that changed key differently.
pub proof fn a_changed_answer_changes_the_key(
    a: RowsV,
    b: RowsV,
    identity: Seq<u8>,
    i: int,
    hash: HashFn,
)
    requires
        a.len() == b.len(),
        forall|j: int| 0 <= j < a.len() ==> (#[trigger] a[j]).0 == b[j].0,
        0 <= i < a.len(),
        a[i].1.digest().settled(hash) != b[i].1.digest().settled(hash),
    ensures
        key(a, identity).settled(hash) != key(b, identity).settled(hash),
{
    let n = a.len() as int;
    if key(a, identity).settled(hash) == key(b, identity).settled(hash) {
        key_settled(a, identity, hash);
        key_settled(b, identity, hash);
        let x = settled_parts(rows_parts(a, n), hash);
        let y = settled_parts(rows_parts(b, n), hash);
        assert((seq![identity] + x).skip(1) =~= x);
        assert((seq![identity] + y).skip(1) =~= y);
        same_parts_same_digests(a, b, n, hash);
    }
}

/// Another identity keys differently, whatever was read.
pub proof fn another_identity_changes_the_key(
    a: RowsV,
    b: RowsV,
    x: Seq<u8>,
    y: Seq<u8>,
    hash: HashFn,
)
    requires
        x != y,
    ensures
        key(a, x).settled(hash) != key(b, y).settled(hash),
{
    key_settled(a, x, hash);
    key_settled(b, y, hash);
    assert(key(a, x).settled(hash).1[0] == x);
    assert(key(b, y).settled(hash).1[0] == y);
}

pub fn material_parts(parts: &mut Vec<Part>, question: &Question)
    ensures
        final(parts).deep_view() == old(parts).deep_view() + byte_parts(question@.key_material()),
{
    let material = question.key_material();
    let ghost all = question@.key_material();
    let ghost start = parts.deep_view();
    let mut i: usize = 0;
    assert(parts.deep_view() =~= start + byte_parts(all).take(0));
    while i < material.len()
        invariant
            i <= material.len(),
            all == material.deep_view(),
            parts.deep_view() == start + byte_parts(all).take(i as int),
        decreases material.len() - i,
    {
        let b = material[i].copied();
        assert(b.deep_view() =~= b@);
        assert(all[i as int] == b@);
        let ghost prior = parts.deep_view();
        parts.push(bytes_part(b));
        proof {
            assert(parts.deep_view() =~= prior.push(PartV::Bytes(all[i as int])));
            assert(byte_parts(all).take(i + 1) =~= byte_parts(all).take(i as int).push(
                PartV::Bytes(all[i as int]),
            ));
            assert(parts.deep_view() =~= start + byte_parts(all).take(i + 1));
        }
        i += 1;
    }
    assert(byte_parts(all).take(i as int) =~= byte_parts(all));
}

/// What makes a recorded row one with another: its question and its answer.
pub open spec fn fingerprint(q: QuestionV, r: RecordedV) -> PreimageV {
    PreimageV { tag: READ_ENTRY_TAG@, parts: row_parts(q, r) }
}

/// What makes a recorded row one with another.
pub fn read_entry_fingerprint(question: &Question, recorded: &Recorded) -> (r: Preimage)
    ensures
        r@ == fingerprint(question@, recorded@),
{
    let mut parts: Vec<Part> = Vec::new();
    assert(parts.deep_view() =~= Seq::<PartV>::empty());
    material_parts(&mut parts, question);
    let d = recorded.digest();
    let ghost prior = parts.deep_view();
    parts.push(Part::Digest(d));
    assert(parts.deep_view() =~= row_parts(question@, recorded@)) by {
        assert(prior =~= byte_parts(question@.key_material()));
    }
    Preimage { tag: READ_ENTRY_TAG.to_owned(), parts }
}

/// What a question is counted by: the question alone, whatever the answer.
pub fn question_argument_digest(question: &Question) -> (r: Preimage)
    ensures
        r@ == argument_of(question@),
        r@ == (PreimageV {
            tag: QUESTION_ARGUMENT_TAG@,
            parts: byte_parts(question@.key_material()),
        }),
{
    let mut parts: Vec<Part> = Vec::new();
    assert(parts.deep_view() =~= Seq::<PartV>::empty());
    material_parts(&mut parts, question);
    assert(parts.deep_view() =~= byte_parts(question@.key_material()));
    Preimage { tag: QUESTION_ARGUMENT_TAG.to_owned(), parts }
}

/// The rows after folding: every read of a tree that cannot change makes one
/// row for that tree, where the first of them was.
pub open spec fn folded(rows: RowsV, sealed: SealedV, dir: Option<Seq<char>>, n: int) -> RowsV
    decreases n,
{
    if n <= 0 {
        Seq::empty()
    } else {
        let prior = folded(rows, sealed, dir, n - 1);
        match rows[n - 1].0.tree(sealed, dir) {
            None => prior.push(rows[n - 1]),
            Some(t) => if has_tree(prior, t) {
                prior
            } else {
                prior.push((QuestionV::Tree(t), RecordedV::Digest(digest::tree(true))))
            },
        }
    }
}

/// A row for that tree, pinned, is among the rows.
pub open spec fn has_tree(rows: RowsV, t: PathValueV) -> bool {
    rows.contains((QuestionV::Tree(t), RecordedV::Digest(digest::tree(true))))
}

/// Folded rows, and how many the folding took away.
#[derive(Debug, PartialEq, Eq)]
pub struct Folded {
    pub rows: Vec<WitnessRow>,
    pub rows_folded: u64,
}

fn row_is_tree(row: &WitnessRow, tree: &PathValue) -> (r: bool)
    ensures
        r == (row.deep_view() == (
            QuestionV::Tree(tree@),
            RecordedV::Digest(digest::tree(true)),
        )),
{
    match (&row.0, &row.1) {
        (Question::Tree(p), Recorded::Digest(d)) => {
            let a = (**p).same(tree);
            let b = d.same(&digest::digest_tree(true));
            a && b
        },
        _ => false,
    }
}

fn lists_tree(rows: &Vec<WitnessRow>, tree: &PathValue) -> (r: bool)
    ensures
        r == has_tree(rows.deep_view(), tree@),
{
    let ghost all = rows.deep_view();
    let ghost want = (QuestionV::Tree(tree@), RecordedV::Digest(digest::tree(true)));
    let mut i: usize = 0;
    while i < rows.len()
        invariant
            i <= rows.len(),
            all == rows.deep_view(),
            want == (QuestionV::Tree(tree@), RecordedV::Digest(digest::tree(true))),
            forall|j: int| 0 <= j < i ==> #[trigger] all[j] != want,
        decreases rows.len() - i,
    {
        assert(all[i as int] == rows@[i as int].deep_view());
        if row_is_tree(&rows[i], tree) {
            assert(all.contains(want));
            return true;
        }
        i += 1;
    }
    false
}

/// Folds the rows, given what is sealed.
pub fn fold(rows: &Vec<WitnessRow>, sealed: &Sealed, store_dir: &Option<String>) -> (r: Folded)
    ensures
        r.rows.deep_view() == folded(
            rows.deep_view(),
            sealed@,
            store_dir.deep_view(),
            rows@.len() as int,
        ),
        r.rows@.len() + r.rows_folded == rows@.len(),
{
    let ghost all = rows.deep_view();
    let ghost dir = store_dir.deep_view();
    let mut out: Vec<WitnessRow> = Vec::new();
    let mut taken: u64 = 0;
    let mut i: usize = 0;
    assert(out.deep_view() =~= folded(all, sealed@, dir, 0));
    while i < rows.len()
        invariant
            i <= rows.len(),
            all == rows.deep_view(),
            dir == store_dir.deep_view(),
            out.deep_view() == folded(all, sealed@, dir, i as int),
            out@.len() + taken == i,
        decreases rows.len() - i,
    {
        assert(all[i as int] == rows@[i as int].deep_view());
        let ghost prior = out.deep_view();
        match rows[i].0.tree(sealed, store_dir) {
            None => {
                let row = (rows[i].0.copied(), rows[i].1.copied());
                out.push(row);
                assert(out.deep_view() =~= prior.push(all[i as int]));
            },
            Some(tree) => {
                if lists_tree(&out, &tree) {
                    taken = taken + 1;
                } else {
                    let ghost t = tree@;
                    let row = (
                        Question::Tree(Rc::new(tree)),
                        Recorded::Digest(digest::digest_tree(true)),
                    );
                    out.push(row);
                    assert(out.deep_view() =~= prior.push(
                        (QuestionV::Tree(t), RecordedV::Digest(digest::tree(true))),
                    ));
                }
            },
        }
        i += 1;
    }
    Folded { rows: out, rows_folded: taken }
}

/// The rows an evaluation recorded, and the derivations it wrote.
#[derive(Debug, PartialEq, Eq)]
pub struct ReadSet {
    pub entries: Vec<WitnessRow>,
    /// The texts of the derivations, each by its name, in the order of the names.
    pub aterms: Vec<(ObjId, Vec<u8>)>,
    pub aterms_reused: u64,
    pub rows_deduped: u64,
}

impl ReadSet {
    /// The texts of the derivations stand in the order of their names.
    pub open spec fn wf(&self) -> bool {
        named::in_order(self.aterms.deep_view())
    }

    /// A read set of these rows alone.
    pub fn of_rows(entries: Vec<WitnessRow>) -> (r: ReadSet)
        ensures
            r.entries == entries,
            r.aterms@.len() == 0,
            r.aterms_reused == 0,
            r.rows_deduped == 0,
            r.wf(),
    {
        ReadSet { entries, aterms: Vec::new(), aterms_reused: 0, rows_deduped: 0 }
    }

    pub fn len(&self) -> (n: usize)
        ensures
            n == self.entries@.len(),
    {
        self.entries.len()
    }

    pub fn is_empty(&self) -> (r: bool)
        ensures
            r == (self.entries@.len() == 0),
    {
        self.entries.len() == 0
    }

    /// The questions, in the order in which they were asked.
    pub fn questions(&self) -> (r: Vec<Question>)
        ensures
            r.deep_view() == Seq::new(
                self.entries@.len(),
                |i: int| self.entries.deep_view()[i].0,
            ),
    {
        let ghost want = Seq::new(
            self.entries@.len(),
            |i: int| self.entries.deep_view()[i].0,
        );
        let mut r: Vec<Question> = Vec::new();
        let mut i: usize = 0;
        while i < self.entries.len()
            invariant
                i <= self.entries.len(),
                r.len() == i,
                want == Seq::new(self.entries@.len(), |i: int| self.entries.deep_view()[i].0),
                forall|j: int| 0 <= j < i ==> (#[trigger] r@[j])@ == want[j],
            decreases self.entries.len() - i,
        {
            r.push(self.entries[i].0.copied());
            assert(want[i as int] == self.entries@[i as int].0@);
            i += 1;
        }
        assert(r.deep_view() =~= want);
        r
    }

    pub fn entries(&self) -> (r: &Vec<WitnessRow>)
        ensures
            *r == self.entries,
    {
        &self.entries
    }

    /// The key of an evaluation that read these rows.
    pub fn key(&self, identity: &EvalId) -> (r: Preimage)
        ensures
            r@ == key(self.entries.deep_view(), identity@),
    {
        ReadSet::key_of(&self.entries, identity)
    }

    /// The key of an evaluation that read the rows.
    pub fn key_of(rows: &Vec<WitnessRow>, identity: &EvalId) -> (r: Preimage)
        ensures
            r@ == key(rows.deep_view(), identity@),
    {
        let ghost all = rows.deep_view();
        let ghost head = seq![PartV::Bytes(identity@)];
        let mut parts: Vec<Part> = Vec::new();
        parts.push(bytes_part(identity.key.to_vec()));
        assert(parts.deep_view() =~= head + rows_parts(all, 0));
        let mut i: usize = 0;
        while i < rows.len()
            invariant
                i <= rows.len(),
                all == rows.deep_view(),
                parts.deep_view() == head + rows_parts(all, i as int),
            decreases rows.len() - i,
        {
            assert(all[i as int] == rows@[i as int].deep_view());
            let ghost prior = parts.deep_view();
            ReadSet::hash_row(&mut parts, &rows[i].0, &rows[i].1);
            assert(parts.deep_view() =~= head + rows_parts(all, i + 1));
            i += 1;
        }
        Preimage { tag: digest::EVAL_TAG.to_owned(), parts }
    }

    /// Adds what a row adds to a key.
    fn hash_row(parts: &mut Vec<Part>, question: &Question, recorded: &Recorded)
        ensures
            final(parts).deep_view() == old(parts).deep_view() + row_parts(question@, recorded@),
    {
        let ghost start = parts.deep_view();
        material_parts(parts, question);
        let d = recorded.digest();
        let ghost prior = parts.deep_view();
        parts.push(Part::Digest(d));
        assert(parts.deep_view() =~= start + row_parts(question@, recorded@)) by {
            assert(parts.deep_view() =~= prior.push(PartV::Digest(recorded@.digest())));
        }
    }

    /// Folds the reads of trees that cannot change, each into one row.
    pub fn fold_trees<H: Host>(
        &self,
        host: &H,
        settings: &Settings,
        memo: &mut Option<DirSealed>,
    ) -> (r: Folded)
        ensures
            exists|sealed: SealedV| #[trigger]
                replay::sealed_for(
                    host,
                    self.entries.deep_view(),
                    settings.store_dir.deep_view(),
                    replay::memo_of(*old(memo)),
                    sealed,
                    replay::memo_of(*final(memo)),
                ) && r.rows.deep_view() == folded(
                    self.entries.deep_view(),
                    sealed,
                    settings.store_dir.deep_view(),
                    self.entries@.len() as int,
                ),
            r.rows@.len() + r.rows_folded == self.entries@.len(),
            replay::memo_wf(*old(memo)) ==> replay::memo_wf(*final(memo)),
    {
        let sealed = replay::sealed_objects(&self.entries, host, &settings.store_dir, memo);
        fold(&self.entries, &sealed, &settings.store_dir)
    }

    /// Replays the rows: the same questions with what is recorded of each
    /// answer now; `None` where the settings forbid asking.
    pub fn replay<H: Host>(
        rows: &Vec<WitnessRow>,
        host: &H,
        settings: &Settings,
        given: &Given,
    ) -> (r: Result<Option<ReadSet>, ReplayFailure>)
        ensures
            set_replayed(host, rows.deep_view(), given@, *settings, None, None, r),
    {
        let mut memo: Option<DirSealed> = None;
        let r = ReadSet::replay_with(rows, host, settings, given, &mut memo);
        assert(replay::memo_of(memo) is None) by {
            none_stays(host, rows.deep_view(), given@, *settings, replay::memo_of(memo), r);
        }
        r
    }

    /// Replays the rows, with a memo of sealed objects.
    pub fn replay_with<H: Host>(
        rows: &Vec<WitnessRow>,
        host: &H,
        settings: &Settings,
        given: &Given,
        memo: &mut Option<DirSealed>,
    ) -> (r: Result<Option<ReadSet>, ReplayFailure>)
        ensures
            set_replayed(
                host,
                rows.deep_view(),
                given@,
                *settings,
                replay::memo_of(*old(memo)),
                replay::memo_of(*final(memo)),
                r,
            ),
            replay::memo_wf(*old(memo)) ==> replay::memo_wf(*final(memo)),
    {
        let ghost before = replay::memo_of(*memo);
        let replayed = replay::replay_rows(rows, host, settings, given, memo);
        let ghost raw = replay::outcome_of(replayed);
        assert(replay::replayed(
            host,
            rows.deep_view(),
            given@,
            *settings,
            before,
            replay::memo_of(*memo),
            raw,
        ));
        match replayed {
            Err(f) => Err(f),
            Ok(None) => Ok(None),
            Ok(Some(out)) => {
                let entries = with_answers(rows, out);
                Ok(Some(ReadSet::of_rows(entries)))
            },
        }
    }

    /// The key that the rows make now; `None` where the settings forbid asking.
    pub fn replay_key_with<H: Host>(
        rows: &Vec<WitnessRow>,
        host: &H,
        settings: &Settings,
        given: &Given,
        memo: &mut Option<DirSealed>,
        identity: &EvalId,
    ) -> (r: Result<Option<Preimage>, ReplayFailure>)
        ensures
            key_replayed(
                host,
                rows.deep_view(),
                given@,
                *settings,
                replay::memo_of(*old(memo)),
                replay::memo_of(*final(memo)),
                identity@,
                r,
            ),
            replay::memo_wf(*old(memo)) ==> replay::memo_wf(*final(memo)),
    {
        let ghost before = replay::memo_of(*memo);
        let replayed = replay::replay_rows(rows, host, settings, given, memo);
        let ghost raw = replay::outcome_of(replayed);
        assert(replay::replayed(
            host,
            rows.deep_view(),
            given@,
            *settings,
            before,
            replay::memo_of(*memo),
            raw,
        ));
        match replayed {
            Err(f) => Err(f),
            Ok(None) => Ok(None),
            Ok(Some(out)) => {
                let entries = with_answers(rows, out);
                Ok(Some(ReadSet::key_of(&entries, identity)))
            },
        }
    }
}

fn with_answers(rows: &Vec<WitnessRow>, out: Vec<Recorded>) -> (entries: Vec<WitnessRow>)
    requires
        out.len() == rows.len(),
    ensures
        entries.deep_view() == with_recorded(rows.deep_view(), out.deep_view()),
{
    let ghost want = with_recorded(rows.deep_view(), out.deep_view());
    let mut entries: Vec<WitnessRow> = Vec::new();
    let mut i: usize = 0;
    while i < rows.len()
        invariant
            i <= rows.len() == out.len(),
            entries.len() == i,
            want == with_recorded(rows.deep_view(), out.deep_view()),
            forall|j: int| 0 <= j < i ==> (#[trigger] entries@[j]).deep_view() == want[j],
        decreases rows.len() - i,
    {
        entries.push((rows[i].0.copied(), out[i].copied()));
        assert(want[i as int] == (rows@[i as int].0@, out@[i as int]@));
        i += 1;
    }
    assert(entries.deep_view() =~= want);
    entries
}

/// `r` is the read set that replaying the rows comes to.
pub open spec fn set_replayed<H: Host>(
    h: &H,
    rows: RowsV,
    given: GivenV,
    settings: Settings,
    memo: Option<DirSealedV>,
    after: Option<DirSealedV>,
    r: Result<Option<ReadSet>, ReplayFailure>,
) -> bool {
    exists|raw: Result<Option<Seq<RecordedV>>, ReplayFailureV>| #[trigger]
        replay::replayed(h, rows, given, settings, memo, after, raw) && (match (raw, r) {
            (Ok(Some(out)), Ok(Some(set))) => set.entries.deep_view() == with_recorded(rows, out)
                && set.aterms@.len() == 0 && set.aterms_reused == 0 && set.rows_deduped == 0,
            (Ok(None), Ok(None)) => true,
            (Err(f), Err(g)) => f == g@,
            _ => false,
        })
}

/// `r` is the key that replaying the rows comes to.
pub open spec fn key_replayed<H: Host>(
    h: &H,
    rows: RowsV,
    given: GivenV,
    settings: Settings,
    memo: Option<DirSealedV>,
    after: Option<DirSealedV>,
    identity: Seq<u8>,
    r: Result<Option<Preimage>, ReplayFailure>,
) -> bool {
    exists|raw: Result<Option<Seq<RecordedV>>, ReplayFailureV>| #[trigger]
        replay::replayed(h, rows, given, settings, memo, after, raw) && (match (raw, r) {
            (Ok(Some(out)), Ok(Some(k))) => k@ == key(with_recorded(rows, out), identity),
            (Ok(None), Ok(None)) => true,
            (Err(f), Err(g)) => f == g@,
            _ => false,
        })
}

proof fn none_stays<H: Host>(
    h: &H,
    rows: RowsV,
    given: GivenV,
    settings: Settings,
    after: Option<DirSealedV>,
    r: Result<Option<ReadSet>, ReplayFailure>,
)
    requires
        set_replayed(h, rows, given, settings, None, after, r),
    ensures
        after is None,
{
}

proof fn object_has_no_slash(object: Seq<char>)
    requires
        immutable::object_name(object),
    ensures
        forall|i: int| 0 <= i < object.len() ==> object[i] != '/',
{
    assert forall|i: int| 0 <= i < object.len() implies object[i] != '/' by {
        if i < 32 {
            assert(immutable::hash_char(object[i]));
        } else if i > 32 {
            assert(immutable::name_char(object[i]));
        }
    }
}

/// The row of a tree lies in that tree.
pub proof fn a_tree_lies_in_itself(
    q: QuestionV,
    sealed: SealedV,
    dir: Option<Seq<char>>,
    t: PathValueV,
)
    requires
        q.tree(sealed, dir) == Some(t),
    ensures
        QuestionV::Tree(t).replays(sealed, dir),
        QuestionV::Tree(t).tree(sealed, dir) == Some(t),
{
    reveal_strlit("/");
    let p = q.read_path()->0;
    if p.root is Ambient {
        let d = dir->0;
        let object = immutable::object_of(dir, p.path)->0;
        let path = d + "/"@ + object;
        assert(path.take(d.len() as int) =~= d);
        assert(path[d.len() as int] == '/');
        assert(path.skip(d.len() as int + 1) =~= object);
        object_has_no_slash(object);
        text::first_is(object, '/', object.len() as int);
        assert(object.take(object.len() as int) =~= object);
        assert(immutable::object_of(dir, path) == Some(object));
        let leaving = ordered::find(sealed, object)->0;
        let root = d + "/"@ + object + "/"@;
        assert forall|i: int| 0 <= i < leaving.len() implies !crate::links::below(
            path,
            root + #[trigger] leaving[i],
        ) by {
            assert((root + leaving[i]).len() > path.len());
        }
        assert(immutable::clear(path, root, leaving));
    }
}

/// Each row is one that folding leaves, or the one row of its tree.
pub open spec fn well_folded(rows: RowsV, sealed: SealedV, dir: Option<Seq<char>>) -> bool {
    &&& forall|i: int|
        0 <= i < rows.len() ==> ((#[trigger] rows[i]).0.tree(sealed, dir) matches Some(t)
            ==> rows[i] == (QuestionV::Tree(t), RecordedV::Digest(digest::tree(true))))
    &&& forall|i: int, j: int|
        0 <= i < j < rows.len() && rows[j].0.tree(sealed, dir) is Some ==> #[trigger] rows[i]
            != #[trigger] rows[j]
}

/// Folding leaves no two rows of one tree.
pub proof fn folding_folds(rows: RowsV, sealed: SealedV, dir: Option<Seq<char>>, n: int)
    requires
        0 <= n <= rows.len(),
    ensures
        well_folded(folded(rows, sealed, dir, n), sealed, dir),
        folded(rows, sealed, dir, n).len() <= n,
    decreases n,
{
    if n > 0 {
        folding_folds(rows, sealed, dir, n - 1);
        let prior = folded(rows, sealed, dir, n - 1);
        let now = folded(rows, sealed, dir, n);
        match rows[n - 1].0.tree(sealed, dir) {
            None => {},
            Some(t) => {
                a_tree_lies_in_itself(rows[n - 1].0, sealed, dir, t);
                if !has_tree(prior, t) {
                    assert forall|i: int, j: int|
                        0 <= i < j < now.len() && now[j].0.tree(sealed, dir) is Some implies #[trigger] now[i]
                        != #[trigger] now[j] by {
                        assert(now[i] == prior[i]);
                        if j == prior.len() {
                            assert(prior.contains(prior[i]));
                        } else {
                            assert(now[j] == prior[j]);
                        }
                    }
                }
            },
        }
    }
}

proof fn refold(rows: RowsV, sealed: SealedV, dir: Option<Seq<char>>, k: int)
    requires
        well_folded(rows, sealed, dir),
        0 <= k <= rows.len(),
    ensures
        folded(rows, sealed, dir, k) == rows.take(k),
    decreases k,
{
    if k == 0 {
        assert(rows.take(0) =~= folded(rows, sealed, dir, 0));
    } else {
        refold(rows, sealed, dir, k - 1);
        let prior = rows.take(k - 1);
        assert(rows.take(k) =~= prior.push(rows[k - 1]));
        if let Some(t) = rows[k - 1].0.tree(sealed, dir) {
            let want = (QuestionV::Tree(t), RecordedV::Digest(digest::tree(true)));
            assert(rows[k - 1] == want);
            if has_tree(prior, t) {
                let i = prior.index_of(want);
                assert(rows[i] == rows[k - 1]);
            }
        }
    }
}

/// Folding twice folds nothing more.
pub proof fn folding_is_idempotent(rows: RowsV, sealed: SealedV, dir: Option<Seq<char>>)
    ensures
        ({
            let once = folded(rows, sealed, dir, rows.len() as int);
            folded(once, sealed, dir, once.len() as int) == once
        }),
{
    let once = folded(rows, sealed, dir, rows.len() as int);
    folding_folds(rows, sealed, dir, rows.len() as int);
    refold(once, sealed, dir, once.len() as int);
    assert(once.take(once.len() as int) =~= once);
}

/// Rows that lie in no tree that cannot change are left as they are.
pub proof fn nothing_folds_without_trees(rows: RowsV, sealed: SealedV, dir: Option<Seq<char>>)
    requires
        forall|i: int| 0 <= i < rows.len() ==> (#[trigger] rows[i]).0.tree(sealed, dir) is None,
    ensures
        folded(rows, sealed, dir, rows.len() as int) == rows,
{
    refold(rows, sealed, dir, rows.len() as int);
    assert(rows.take(rows.len() as int) =~= rows);
}

/// What rows are replayed in, given what is sealed.
pub open spec fn scene(rows: RowsV, given: GivenV, settings: Settings, sealed: SealedV) -> SceneV {
    SceneV {
        rows,
        given,
        dir: settings.store_dir.deep_view(),
        ca: settings.ca_derivations,
        sealed,
    }
}

/// Replaying rows in the world that they were recorded in makes the key that
/// they were recorded under.
pub proof fn replaying_an_unchanged_world_makes_the_key<H: Host>(
    h: &H,
    rows: RowsV,
    given: GivenV,
    settings: Settings,
    memo: Option<DirSealedV>,
    after: Option<DirSealedV>,
    identity: Seq<u8>,
    r: Result<Option<Preimage>, ReplayFailure>,
    hash: HashFn,
)
    requires
        replay::steady(h),
        !replay::forbidden(rows, settings),
        key_replayed(h, rows, given, settings, memo, after, identity, r),
        forall|sealed: SealedV| #[trigger]
            replay::sealed_for(h, rows, settings.store_dir.deep_view(), memo, sealed, after)
                ==> replay::told_rows(h, scene(rows, given, settings, sealed), hash),
    ensures
        r matches Ok(Some(k)) && k@.settled(hash) == key(rows, identity).settled(hash),
{
    let raw = choose|raw: Result<Option<Seq<RecordedV>>, ReplayFailureV>| #[trigger]
        replay::replayed(h, rows, given, settings, memo, after, raw) && (match (raw, r) {
            (Ok(Some(out)), Ok(Some(k))) => k@ == key(with_recorded(rows, out), identity),
            (Ok(None), Ok(None)) => true,
            (Err(f), Err(g)) => f == g@,
            _ => false,
        });
    let (sealed, s) = choose|sealed: SealedV, s: ValidityV|
        {
            &&& #[trigger] replay::sealed_for(
                h,
                rows,
                settings.store_dir.deep_view(),
                memo,
                sealed,
                after,
            )
            &&& #[trigger] replay::begins_with(
                h,
                replay::lines_of(rows, given.objects, rows.len() as int),
                s,
            )
            &&& replay::replayed_in(h, scene(rows, given, settings, sealed), s, raw)
        };
    replay::an_unchanged_world_replays(h, scene(rows, given, settings, sealed), s, raw, hash);
    let now = with_recorded(rows, raw->Ok_0->0);
    assert forall|i: int| 0 <= i < now.len() implies rows_agree(#[trigger] now[i], rows[i], hash) by {
        assert(now[i].1 == (raw->Ok_0->0)[i]);
    }
    rows_that_agree_key_the_same(now, rows, identity, hash);
}

/// Replaying rows of which one, of whatever kind, is answered differently does
/// not make the key that they were recorded under.
pub proof fn replaying_a_changed_world_makes_another_key<H: Host>(
    h: &H,
    rows: RowsV,
    given: GivenV,
    settings: Settings,
    memo: Option<DirSealedV>,
    after: Option<DirSealedV>,
    identity: Seq<u8>,
    r: Result<Option<Preimage>, ReplayFailure>,
    i: int,
    hash: HashFn,
)
    requires
        key_replayed(h, rows, given, settings, memo, after, identity, r),
        0 <= i < rows.len(),
        forall|sealed: SealedV| #[trigger]
            replay::sealed_for(h, rows, settings.store_dir.deep_view(), memo, sealed, after)
                ==> change::changed_row(
                h,
                scene(rows, given, settings, sealed),
                rows[i].0,
                rows[i].1,
                hash,
            ),
    ensures
        r matches Ok(Some(k)) ==> k@.settled(hash) != key(rows, identity).settled(hash),
{
    if r matches Ok(Some(k)) {
        let raw = choose|raw: Result<Option<Seq<RecordedV>>, ReplayFailureV>| #[trigger]
            replay::replayed(h, rows, given, settings, memo, after, raw) && (match (raw, r) {
                (Ok(Some(out)), Ok(Some(k))) => k@ == key(with_recorded(rows, out), identity),
                (Ok(None), Ok(None)) => true,
                (Err(f), Err(g)) => f == g@,
                _ => false,
            });
        let out = raw->Ok_0->0;
        let (sealed, s) = choose|sealed: SealedV, s: ValidityV|
            {
                &&& #[trigger] replay::sealed_for(
                    h,
                    rows,
                    settings.store_dir.deep_view(),
                    memo,
                    sealed,
                    after,
                )
                &&& #[trigger] replay::begins_with(
                    h,
                    replay::lines_of(rows, given.objects, rows.len() as int),
                    s,
                )
                &&& replay::replayed_in(h, scene(rows, given, settings, sealed), s, raw)
            };
        change::a_beginning_is_as_said(
            h,
            replay::lines_of(rows, given.objects, rows.len() as int),
            s,
        );
        change::a_changed_row_is_noticed(h, scene(rows, given, settings, sealed), s, out, i, hash);
        let now = with_recorded(rows, out);
        assert forall|j: int| 0 <= j < rows.len() implies (#[trigger] now[j]).0 == rows[j].0 by {}
        assert(now[i].1 == out[i]);
        a_changed_answer_changes_the_key(now, rows, identity, i, hash);
    }
}

proof fn row_parts_differ(q: QuestionV, r: RecordedV, p: QuestionV, s: RecordedV)
    requires
        row_parts(q, r) == row_parts(p, s),
    ensures
        q.key_material() == p.key_material(),
        r.digest() == s.digest(),
{
    let x = row_parts(q, r);
    let y = row_parts(p, s);
    let m = q.key_material();
    let n = p.key_material();
    assert(x.last() == PartV::Digest(r.digest()));
    assert(y.last() == PartV::Digest(s.digest()));
    assert(x.len() == m.len() + 1 && y.len() == n.len() + 1);
    assert forall|i: int| 0 <= i < m.len() implies m[i] == n[i] by {
        assert(x[i] == PartV::Bytes(m[i]));
        assert(y[i] == PartV::Bytes(n[i]));
    }
    assert(m =~= n);
}

/// Two rows are taken for one only where they have the same question and the
/// same answer: nothing that a question's key names is left out.
pub proof fn fingerprints_tell_rows_apart(q: QuestionV, r: RecordedV, p: QuestionV, s: RecordedV)
    requires
        fingerprint(q, r) == fingerprint(p, s),
    ensures
        q.key_material() == p.key_material(),
        r.digest() == s.digest(),
        q.wf() && p.wf() && !(q is WriteDrv) ==> q == p,
{
    row_parts_differ(q, r, p, s);
    if q.wf() && p.wf() && !(q is WriteDrv) {
        crate::codec::material_names_the_question(q, p);
    }
}

/// The fields are none, or end with the digest of an answer.
spec fn ends_with_an_answer(x: Seq<PartV>) -> bool {
    x.len() == 0 || x.last() is Digest
}

proof fn rows_end_with_an_answer(rows: RowsV, n: int)
    requires
        0 <= n <= rows.len(),
    ensures
        ends_with_an_answer(rows_parts(rows, n)),
        n > 0 ==> rows_parts(rows, n).len() > 0,
{
    if n > 0 {
        let x = rows_parts(rows, n);
        assert(x.last() == row_parts(rows[n - 1].0, rows[n - 1].1).last());
    }
}

proof fn last_rows_differ(
    x: Seq<PartV>,
    q: QuestionV,
    r: RecordedV,
    y: Seq<PartV>,
    p: QuestionV,
    s: RecordedV,
)
    requires
        ends_with_an_answer(x),
        ends_with_an_answer(y),
        x + row_parts(q, r) == y + row_parts(p, s),
    ensures
        x == y,
        row_parts(q, r) == row_parts(p, s),
{
    let a = row_parts(q, r);
    let b = row_parts(p, s);
    let whole = x + a;
    assert(a.len() > 0 && b.len() > 0);
    assert(whole.len() == (y + b).len());
    if x.len() < y.len() {
        let i = y.len() - 1;
        assert(whole[i] == (y + b)[i]);
        assert(whole[i] == y[i]);
        assert(whole[i] == a[i - x.len()]);
        assert(i - x.len() < a.len() - 1);
        assert(a[i - x.len()] == byte_parts(q.key_material())[i - x.len()]);
    } else if y.len() < x.len() {
        let i = x.len() - 1;
        assert(whole[i] == x[i]);
        assert(whole[i] == (y + b)[i]);
        assert(whole[i] == b[i - y.len()]);
        assert(i - y.len() < b.len() - 1);
        assert(b[i - y.len()] == byte_parts(p.key_material())[i - y.len()]);
    }
    assert(whole.take(x.len() as int) =~= x);
    assert((y + b).take(x.len() as int) =~= y);
    assert(whole.skip(x.len() as int) =~= a);
    assert((y + b).skip(x.len() as int) =~= b);
}

proof fn rows_parts_differ(a: RowsV, m: int, b: RowsV, n: int)
    requires
        0 <= m <= a.len(),
        0 <= n <= b.len(),
        rows_parts(a, m) == rows_parts(b, n),
    ensures
        m == n,
        forall|i: int|
            0 <= i < m ==> (#[trigger] a[i]).0.key_material() == b[i].0.key_material()
                && a[i].1.digest() == b[i].1.digest(),
    decreases m,
{
    rows_end_with_an_answer(a, m);
    rows_end_with_an_answer(b, n);
    if m > 0 && n > 0 {
        rows_end_with_an_answer(a, m - 1);
        rows_end_with_an_answer(b, n - 1);
        let (q, r) = a[m - 1];
        let (p, s) = b[n - 1];
        last_rows_differ(rows_parts(a, m - 1), q, r, rows_parts(b, n - 1), p, s);
        row_parts_differ(q, r, p, s);
        rows_parts_differ(a, m - 1, b, n - 1);
    }
}

/// A key is that of one evaluation and of one history of reads: evaluations
/// with one key are the same, and asked the same questions, in the same
/// order, with the same answers.
pub proof fn a_key_names_what_was_read(a: RowsV, x: Seq<u8>, b: RowsV, y: Seq<u8>)
    requires
        key(a, x) == key(b, y),
    ensures
        x == y,
        a.len() == b.len(),
        forall|i: int|
            0 <= i < a.len() ==> (#[trigger] a[i]).0.key_material() == b[i].0.key_material()
                && a[i].1.digest() == b[i].1.digest(),
        forall|i: int|
            0 <= i < a.len() && (#[trigger] a[i]).0.wf() && b[i].0.wf() && !(a[i].0 is WriteDrv)
                ==> a[i].0 == b[i].0,
{
    let p = key(a, x).parts;
    let q = key(b, y).parts;
    assert(p[0] == PartV::Bytes(x) && q[0] == PartV::Bytes(y));
    assert(p.skip(1) =~= rows_parts(a, a.len() as int));
    assert(q.skip(1) =~= rows_parts(b, b.len() as int));
    rows_parts_differ(a, a.len() as int, b, b.len() as int);
    assert forall|i: int|
        0 <= i < a.len() && (#[trigger] a[i]).0.wf() && b[i].0.wf() && !(a[i].0 is WriteDrv) implies a[i].0
        == b[i].0 by {
        crate::codec::material_names_the_question(a[i].0, b[i].0);
    }
}

/// Folding leaves each row that lies in no tree, and one row for each tree, in
/// the place of the first that lies in it, all in their order: the row at `k`
/// stands for that at `at[k]`.
pub proof fn what_folding_leaves(rows: RowsV, sealed: SealedV, dir: Option<Seq<char>>, n: int) -> (at:
    Seq<int>)
    requires
        0 <= n <= rows.len(),
    ensures
        at.len() == folded(rows, sealed, dir, n).len(),
        forall|k: int|
            0 <= k < at.len() ==> 0 <= #[trigger] at[k] < n && (match rows[at[k]].0.tree(
                sealed,
                dir,
            ) {
                None => folded(rows, sealed, dir, n)[k] == rows[at[k]],
                Some(t) => folded(rows, sealed, dir, n)[k] == (
                    QuestionV::Tree(t),
                    RecordedV::Digest(digest::tree(true)),
                ) && forall|j: int|
                    0 <= j < at[k] ==> #[trigger] rows[j].0.tree(sealed, dir) != Some(t),
            }),
        forall|j: int, k: int| 0 <= j < k < at.len() ==> #[trigger] at[j] < #[trigger] at[k],
        forall|i: int|
            0 <= i < n && (#[trigger] rows[i]).0.tree(sealed, dir) is None ==> at.contains(i),
        forall|i: int|
            0 <= i < n ==> ((#[trigger] rows[i]).0.tree(sealed, dir) matches Some(t)
                ==> has_tree(folded(rows, sealed, dir, n), t)),
    decreases n,
{
    if n <= 0 {
        Seq::empty()
    } else {
        let before = what_folding_leaves(rows, sealed, dir, n - 1);
        let prior = folded(rows, sealed, dir, n - 1);
        let now = folded(rows, sealed, dir, n);
        let grown = match rows[n - 1].0.tree(sealed, dir) {
            None => true,
            Some(t) => !has_tree(prior, t),
        };
        if grown {
            let at = before.push(n - 1);
            assert forall|i: int|
                0 <= i < n && (#[trigger] rows[i]).0.tree(sealed, dir) is None implies at.contains(
                i,
            ) by {
                if i < n - 1 {
                    let k = before.index_of(i);
                    assert(at[k] == i);
                } else {
                    assert(at[before.len() as int] == i);
                }
            }
            assert forall|i: int| 0 <= i < n implies ((#[trigger] rows[i]).0.tree(
                sealed,
                dir,
            ) matches Some(t) ==> has_tree(now, t)) by {
                if rows[i].0.tree(sealed, dir) is Some {
                    let t = rows[i].0.tree(sealed, dir)->0;
                    let want = (QuestionV::Tree(t), RecordedV::Digest(digest::tree(true)));
                    if i < n - 1 {
                        assert(has_tree(prior, t));
                        let k = prior.index_of(want);
                        assert(now[k] == want);
                    } else {
                        assert(now[prior.len() as int] == want);
                    }
                }
            }
            assert forall|k: int| 0 <= k < at.len() implies 0 <= #[trigger] at[k] < n && (
            match rows[at[k]].0.tree(sealed, dir) {
                None => now[k] == rows[at[k]],
                Some(t) => now[k] == (QuestionV::Tree(t), RecordedV::Digest(digest::tree(true)))
                    && forall|j: int|
                    0 <= j < at[k] ==> #[trigger] rows[j].0.tree(sealed, dir) != Some(t),
            }) by {
                if k < before.len() {
                    assert(at[k] == before[k]);
                    assert(now[k] == prior[k]);
                }
            }
            at
        } else {
            before
        }
    }
}

/// What the identity of an evaluation is the hash of.
pub open spec fn identity_of(
    module: Seq<u8>,
    evaluator: Seq<char>,
    settings: Seq<u8>,
    arguments: Seq<u8>,
    question: Seq<u8>,
) -> PreimageV {
    PreimageV {
        tag: EVAL_ID_TAG@,
        parts: seq![
            PartV::Bytes(module),
            PartV::Bytes(text::utf8(evaluator)),
            PartV::Bytes(settings),
            PartV::Bytes(arguments),
            PartV::Bytes(question),
        ],
    }
}

/// Evaluations that differ in anything, be it the module, the evaluator, the
/// settings, the arguments or what is asked, have different identities.
pub proof fn identities_tell_evaluations_apart(
    a: (Seq<u8>, Seq<char>, Seq<u8>, Seq<u8>, Seq<u8>),
    b: (Seq<u8>, Seq<char>, Seq<u8>, Seq<u8>, Seq<u8>),
)
    requires
        identity_of(a.0, a.1, a.2, a.3, a.4) == identity_of(b.0, b.1, b.2, b.3, b.4),
    ensures
        a == b,
{
    let x = identity_of(a.0, a.1, a.2, a.3, a.4).parts;
    let y = identity_of(b.0, b.1, b.2, b.3, b.4).parts;
    assert(x[0] == y[0] && x[1] == y[1] && x[2] == y[2] && x[3] == y[3] && x[4] == y[4]);
    text::utf8_injective(a.1, b.1);
}

/// What a question is counted by.
pub open spec fn argument_of(q: QuestionV) -> PreimageV {
    PreimageV { tag: QUESTION_ARGUMENT_TAG@, parts: byte_parts(q.key_material()) }
}

/// Questions are counted together only where they are the same.
pub proof fn questions_are_counted_apart(p: QuestionV, q: QuestionV)
    requires
        argument_of(p) == argument_of(q),
    ensures
        p.key_material() == q.key_material(),
        p.wf() && q.wf() && !(p is WriteDrv) ==> p == q,
{
    let x = argument_of(p).parts;
    let y = argument_of(q).parts;
    let m = p.key_material();
    let n = q.key_material();
    assert(x.len() == m.len() && y.len() == n.len());
    assert forall|i: int| 0 <= i < m.len() implies m[i] == n[i] by {
        assert(x[i] == PartV::Bytes(m[i]));
        assert(y[i] == PartV::Bytes(n[i]));
    }
    assert(m =~= n);
    if p.wf() && q.wf() && !(p is WriteDrv) {
        crate::codec::material_names_the_question(p, q);
    }
}

/// The tags keep what is hashed for one purpose apart from what is hashed for
/// another: no key is an identity or a fingerprint.
pub proof fn what_is_hashed_is_kept_apart(
    rows: RowsV,
    identity: Seq<u8>,
    q: QuestionV,
    r: RecordedV,
    module: Seq<u8>,
    evaluator: Seq<char>,
)
    ensures
        key(rows, identity).tag != fingerprint(q, r).tag,
        key(rows, identity).tag != identity_of(module, evaluator, module, module, module).tag,
        fingerprint(q, r).tag != identity_of(module, evaluator, module, module, module).tag,
        argument_of(q).tag != fingerprint(q, r).tag,
{
    reveal_strlit("ixe-eval-result-v3");
    reveal_strlit("ixe-eval-identity-v6");
    reveal_strlit("ixe-read-entry-v1");
    reveal_strlit("ixe-question-argument-v1");
    assert("ixe-eval-result-v3"@.len() == 18);
    assert("ixe-eval-identity-v6"@.len() == 20);
    assert("ixe-read-entry-v1"@.len() == 17);
    assert("ixe-question-argument-v1"@.len() == 24);
}

} // verus!
