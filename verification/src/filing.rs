//! How witnesses are put into their directory and moved in it, so that an
//! interruption leaves no witness beside another's file.
use vstd::prelude::*;
use crate::codec::{CanonV, CanonValue};
use crate::digest;
use crate::model::Plain;
use crate::question::WitnessRow;
use crate::readset::EvalId;
use crate::validity::RowsV;
use crate::witness;
use crate::witness::DirWitness;

verus! {

/// What a file holds.
pub enum Content {
    Value(CanonValue),
    Text(String),
}

/// The model of [`Content`].
#[verifier::ext_equal]
pub enum ContentV {
    Value(CanonV),
    Text(Seq<char>),
}

impl View for Content {
    type V = ContentV;

    open spec fn view(&self) -> ContentV {
        match self {
            Content::Value(v) => ContentV::Value(v@),
            Content::Text(t) => ContentV::Text(t@),
        }
    }
}

/// A step on the files of the directory; a file that is written comes into
/// place whole.
pub enum FileOp {
    Remove(String),
    Write(String, Content),
    Rename(String, String),
}

/// The model of [`FileOp`].
#[verifier::ext_equal]
pub enum FileOpV {
    Remove(Seq<char>),
    Write(Seq<char>, ContentV),
    Rename(Seq<char>, Seq<char>),
}

impl View for FileOp {
    type V = FileOpV;

    open spec fn view(&self) -> FileOpV {
        match self {
            FileOp::Remove(n) => FileOpV::Remove(n@),
            FileOp::Write(n, c) => FileOpV::Write(n@, c@),
            FileOp::Rename(a, b) => FileOpV::Rename(a@, b@),
        }
    }
}

/// The files of the directory, by name.
pub type Files = Map<Seq<char>, ContentV>;

/// The files after a step; a file that is not there is neither removed nor renamed.
pub open spec fn applied(files: Files, op: FileOpV) -> Files {
    match op {
        FileOpV::Remove(n) => files.remove(n),
        FileOpV::Write(n, c) => files.insert(n, c),
        FileOpV::Rename(a, b) => if files.contains_key(a) {
            files.remove(a).insert(b, files[a])
        } else {
            files
        },
    }
}

/// A witness's file and the file beside it.
pub struct PairNames {
    pub witness: Seq<char>,
    pub sidecar: Seq<char>,
}

/// A witness is there only with a file beside it that names what its rows wrote.
pub open spec fn paired(files: Files, p: PairNames) -> bool {
    files.contains_key(p.witness) ==> files.contains_key(p.sidecar) && fits(
        files[p.witness],
        files[p.sidecar],
    )
}

/// The file beside a witness names the derivations that its rows wrote.
pub open spec fn fits(w: ContentV, s: ContentV) -> bool {
    match (w, s) {
        (ContentV::Value(v), ContentV::Text(t)) => match witness::witness_read(v) {
            Some(rows) => named(rows, t),
            None => true,
        },
        _ => false,
    }
}

pub open spec fn named(rows: RowsV, t: Seq<char>) -> bool {
    witness::metadata_read(t) matches Some(m) && m.1 == witness::refs(rows, rows.len() as int)
}

/// The names of an identity's files.
pub open spec fn names(root: Seq<char>, identity: Seq<u8>) -> PairNames {
    PairNames {
        witness: witness::witness_path(root, identity),
        sidecar: witness::sidecar_path(root, identity),
    }
}

/// The steps that put a witness: the old one goes first, and the new one comes last.
pub open spec fn putting(p: PairNames, rows: RowsV, shape: Seq<u8>) -> Seq<FileOpV> {
    seq![
        FileOpV::Remove(p.witness),
        FileOpV::Write(
            p.sidecar,
            ContentV::Text(
                witness::metadata_written(shape, witness::refs(rows, rows.len() as int)),
            ),
        ),
        FileOpV::Write(p.witness, ContentV::Value(witness::witness_written(rows))),
    ]
}

/// The files after the first `n` steps.
pub open spec fn after(files: Files, ops: Seq<FileOpV>, n: int) -> Files
    decreases n,
{
    if n <= 0 {
        files
    } else {
        applied(after(files, ops, n - 1), ops[n - 1])
    }
}

/// Wherever putting a witness is interrupted, no witness is left beside
/// another's file; after the last step the witness is there.
pub proof fn an_interrupted_put_leaves_pairs(
    files: Files,
    p: PairNames,
    rows: RowsV,
    shape: Seq<u8>,
    n: int,
)
    requires
        p.witness != p.sidecar,
        shape.len() == 32,
        forall|i: int| 0 <= i < rows.len() ==> witness::row_keeps(#[trigger] rows[i]),
        paired(files, p),
        0 <= n <= 3,
    ensures
        paired(after(files, putting(p, rows, shape), n), p),
        n == 3 ==> after(files, putting(p, rows, shape), n)[p.witness] == ContentV::Value(
            witness::witness_written(rows),
        ),
{
    let ops = putting(p, rows, shape);
    reveal_with_fuel(after, 4);
    witness::witness_round_trips(rows);
    witness::sidecar_reads_back(rows, shape);
}

/// The steps that put a witness of that shape.
pub fn put_steps(
    dir: &DirWitness,
    identity: &EvalId,
    rows: &Vec<WitnessRow>,
    shape: &digest::Hash,
) -> (r: Vec<FileOp>)
    ensures
        r@.len() == 3,
        forall|i: int|
            0 <= i < 3 ==> (#[trigger] r@[i])@ == putting(
                names(dir.root@, identity@),
                rows.deep_view(),
                shape@,
            )[i],
{
    let sidecar = witness::witness_sidecar(rows, shape);
    let value = witness::witness_value(rows);
    let mut r: Vec<FileOp> = Vec::new();
    assert(rows.deep_view().len() == rows@.len());
    r.push(FileOp::Remove(dir.path(identity)));
    r.push(FileOp::Write(dir.refs_path(identity), Content::Text(sidecar)));
    r.push(FileOp::Write(dir.path(identity), Content::Value(value)));
    r
}

/// The steps that remove a witness: it goes before the file beside it.
pub fn remove_steps(dir: &DirWitness, identity: &EvalId) -> (r: Vec<FileOp>)
    ensures
        r@.len() == 2,
        r@[0]@ == FileOpV::Remove(witness::witness_path(dir.root@, identity@)),
        r@[1]@ == FileOpV::Remove(witness::sidecar_path(dir.root@, identity@)),
{
    let mut r: Vec<FileOp> = Vec::new();
    r.push(FileOp::Remove(dir.path(identity)));
    r.push(FileOp::Remove(dir.refs_path(identity)));
    r
}

/// The steps that remove the witnesses of the first `n` identities, each
/// before the file beside it.
pub open spec fn removing(root: Seq<char>, identities: Seq<Seq<u8>>, n: int) -> Seq<FileOpV>
    decreases n,
{
    if n <= 0 {
        Seq::empty()
    } else {
        removing(root, identities, n - 1) + seq![
            FileOpV::Remove(names(root, identities[n - 1]).witness),
            FileOpV::Remove(names(root, identities[n - 1]).sidecar),
        ]
    }
}

/// What the steps are, in order.
pub open spec fn ops_of(steps: Seq<FileOp>) -> Seq<FileOpV> {
    Seq::new(steps.len(), |i: int| steps[i]@)
}

/// The steps that remove all the witnesses of an evaluation, given the
/// identities of its slots.
pub fn forget_steps(dir: &DirWitness, slots: &Vec<EvalId>) -> (r: Vec<FileOp>)
    ensures
        ops_of(r@) == removing(dir.root@, slots.deep_view(), slots@.len() as int),
{
    let ghost ids = slots.deep_view();
    let mut r: Vec<FileOp> = Vec::new();
    let mut i: usize = 0;
    assert(ops_of(r@) =~= removing(dir.root@, ids, 0));
    while i < slots.len()
        invariant
            i <= slots.len(),
            ids == slots.deep_view(),
            ops_of(r@) == removing(dir.root@, ids, i as int),
        decreases slots.len() - i,
    {
        assert(ids[i as int] == slots@[i as int].deep_view());
        let mut more = remove_steps(dir, &slots[i]);
        let ghost prior = r@;
        let ghost two = more@;
        r.append(&mut more);
        assert(ops_of(r@) =~= ops_of(prior) + seq![two[0]@, two[1]@]);
        i += 1;
    }
    r
}

proof fn removed_after(files: Files, ops: Seq<FileOpV>, n: int, name: Seq<char>)
    requires
        0 <= n <= ops.len(),
        forall|i: int| 0 <= i < ops.len() ==> (#[trigger] ops[i]) is Remove,
    ensures
        (exists|i: int| 0 <= i < n && #[trigger] ops[i] == FileOpV::Remove(name)) ==> !after(
            files,
            ops,
            n,
        ).contains_key(name),
        !files.contains_key(name) ==> !after(files, ops, n).contains_key(name),
    decreases n,
{
    if n > 0 {
        removed_after(files, ops, n - 1, name);
        assert(ops[n - 1] is Remove);
    }
}

proof fn removing_at(root: Seq<char>, identities: Seq<Seq<u8>>, n: int, i: int)
    requires
        0 <= n,
    ensures
        removing(root, identities, n).len() == 2 * n,
        forall|j: int|
            0 <= j < 2 * n ==> (#[trigger] removing(root, identities, n)[j]) is Remove,
        0 <= i < n ==> removing(root, identities, n)[2 * i] == FileOpV::Remove(
            names(root, identities[i]).witness,
        ) && removing(root, identities, n)[2 * i + 1] == FileOpV::Remove(
            names(root, identities[i]).sidecar,
        ),
    decreases n,
{
    if n > 0 {
        removing_at(root, identities, n - 1, i);
        let prior = removing(root, identities, n - 1);
        let now = removing(root, identities, n);
        assert forall|j: int| 0 <= j < 2 * n implies (#[trigger] now[j]) is Remove by {
            if j < prior.len() {
                assert(now[j] == prior[j]);
            }
        }
    }
}

/// Once the steps are done, no witness of the identities is left, nor a file
/// beside one.
pub proof fn forgotten_witnesses_are_gone(
    files: Files,
    root: Seq<char>,
    identities: Seq<Seq<u8>>,
    i: int,
)
    requires
        0 <= i < identities.len(),
    ensures
        ({
            let ops = removing(root, identities, identities.len() as int);
            let left = after(files, ops, ops.len() as int);
            &&& !left.contains_key(names(root, identities[i]).witness)
            &&& !left.contains_key(names(root, identities[i]).sidecar)
        }),
{
    let n = identities.len() as int;
    let ops = removing(root, identities, n);
    removing_at(root, identities, n, i);
    let p = names(root, identities[i]);
    assert(ops[2 * i] == FileOpV::Remove(p.witness));
    assert(ops[2 * i + 1] == FileOpV::Remove(p.sidecar));
    removed_after(files, ops, ops.len() as int, p.witness);
    removed_after(files, ops, ops.len() as int, p.sidecar);
}

/// How a step on the files went.
#[derive(Clone, Copy, Debug, PartialEq, Eq, Structural)]
pub enum Outcome {
    Done,
    /// The file was not there.
    Absent,
    Failed,
}

impl View for Outcome {
    type V = Outcome;

    open spec fn view(&self) -> Outcome {
        *self
    }
}

impl DeepView for Outcome {
    type V = Outcome;

    open spec fn deep_view(&self) -> Outcome {
        *self
    }
}

impl Plain for Outcome {
    fn copied(&self) -> (r: Self) {
        *self
    }

    fn same(&self, other: &Self) -> (r: bool) {
        *self == *other
    }
}

/// How far a witness has been moved.
#[derive(Clone, Copy, Debug, PartialEq, Eq, Structural)]
pub enum MoveStage {
    /// The witness at the target goes.
    RemoveWitness,
    /// The file beside it goes.
    RemoveRefs,
    /// The witness is set aside.
    TakeWitness,
    /// The file beside it comes to the target.
    TakeRefs,
    /// The witness comes to the target.
    PlaceWitness,
    /// The witness had no file beside it: it is not kept.
    Discard,
    /// A step failed: what was set aside is not kept.
    Abandon,
    Finished,
    Failed,
}

impl View for MoveStage {
    type V = MoveStage;

    open spec fn view(&self) -> MoveStage {
        *self
    }
}

impl DeepView for MoveStage {
    type V = MoveStage;

    open spec fn deep_view(&self) -> MoveStage {
        *self
    }
}

impl Plain for MoveStage {
    fn copied(&self) -> (r: Self) {
        *self
    }

    fn same(&self, other: &Self) -> (r: bool) {
        *self == *other
    }
}

/// The stage after a step.
pub open spec fn next_stage(stage: MoveStage, outcome: Outcome) -> MoveStage {
    match (stage, outcome) {
        (MoveStage::RemoveWitness, Outcome::Failed) => MoveStage::Failed,
        (MoveStage::RemoveWitness, _) => MoveStage::RemoveRefs,
        (MoveStage::RemoveRefs, Outcome::Failed) => MoveStage::Failed,
        (MoveStage::RemoveRefs, _) => MoveStage::TakeWitness,
        (MoveStage::TakeWitness, Outcome::Done) => MoveStage::TakeRefs,
        (MoveStage::TakeWitness, Outcome::Absent) => MoveStage::Finished,
        (MoveStage::TakeWitness, Outcome::Failed) => MoveStage::Failed,
        (MoveStage::TakeRefs, Outcome::Done) => MoveStage::PlaceWitness,
        (MoveStage::TakeRefs, Outcome::Absent) => MoveStage::Discard,
        (MoveStage::TakeRefs, Outcome::Failed) => MoveStage::Abandon,
        (MoveStage::PlaceWitness, Outcome::Done) => MoveStage::Finished,
        (MoveStage::PlaceWitness, _) => MoveStage::Abandon,
        (MoveStage::Discard, Outcome::Failed) => MoveStage::Failed,
        (MoveStage::Discard, _) => MoveStage::Finished,
        (MoveStage::Abandon, _) => MoveStage::Failed,
        (MoveStage::Finished, _) => MoveStage::Finished,
        (MoveStage::Failed, _) => MoveStage::Failed,
    }
}

/// The step of a stage.
pub open spec fn stage_op(
    stage: MoveStage,
    from: PairNames,
    to: PairNames,
    temporary: Seq<char>,
) -> Option<FileOpV> {
    match stage {
        MoveStage::RemoveWitness => Some(FileOpV::Remove(to.witness)),
        MoveStage::RemoveRefs => Some(FileOpV::Remove(to.sidecar)),
        MoveStage::TakeWitness => Some(FileOpV::Rename(from.witness, temporary)),
        MoveStage::TakeRefs => Some(FileOpV::Rename(from.sidecar, to.sidecar)),
        MoveStage::PlaceWitness => Some(FileOpV::Rename(temporary, to.witness)),
        MoveStage::Discard => Some(FileOpV::Remove(temporary)),
        MoveStage::Abandon => Some(FileOpV::Remove(temporary)),
        MoveStage::Finished => None,
        MoveStage::Failed => None,
    }
}

impl MoveStage {
    /// The stage after a step.
    pub fn next(self, outcome: Outcome) -> (r: MoveStage)
        ensures
            r == next_stage(self, outcome),
    {
        match (self, outcome) {
            (MoveStage::RemoveWitness, Outcome::Failed) => MoveStage::Failed,
            (MoveStage::RemoveWitness, _) => MoveStage::RemoveRefs,
            (MoveStage::RemoveRefs, Outcome::Failed) => MoveStage::Failed,
            (MoveStage::RemoveRefs, _) => MoveStage::TakeWitness,
            (MoveStage::TakeWitness, Outcome::Done) => MoveStage::TakeRefs,
            (MoveStage::TakeWitness, Outcome::Absent) => MoveStage::Finished,
            (MoveStage::TakeWitness, Outcome::Failed) => MoveStage::Failed,
            (MoveStage::TakeRefs, Outcome::Done) => MoveStage::PlaceWitness,
            (MoveStage::TakeRefs, Outcome::Absent) => MoveStage::Discard,
            (MoveStage::TakeRefs, Outcome::Failed) => MoveStage::Abandon,
            (MoveStage::PlaceWitness, Outcome::Done) => MoveStage::Finished,
            (MoveStage::PlaceWitness, _) => MoveStage::Abandon,
            (MoveStage::Discard, Outcome::Failed) => MoveStage::Failed,
            (MoveStage::Discard, _) => MoveStage::Finished,
            (MoveStage::Abandon, _) => MoveStage::Failed,
            (MoveStage::Finished, _) => MoveStage::Finished,
            (MoveStage::Failed, _) => MoveStage::Failed,
        }
    }

    /// The step of the stage, between the files of two identities.
    pub fn step(self, dir: &DirWitness, from: &EvalId, to: &EvalId, temporary: &str) -> (r: Option<
        FileOp,
    >)
        ensures
            (match r {
                Some(op) => Some(op@),
                None => None,
            }) == stage_op(
                self,
                names(dir.root@, from@),
                names(dir.root@, to@),
                temporary@,
            ),
    {
        match self {
            MoveStage::RemoveWitness => Some(FileOp::Remove(dir.path(to))),
            MoveStage::RemoveRefs => Some(FileOp::Remove(dir.refs_path(to))),
            MoveStage::TakeWitness => Some(
                FileOp::Rename(dir.path(from), temporary.to_owned()),
            ),
            MoveStage::TakeRefs => Some(FileOp::Rename(dir.refs_path(from), dir.refs_path(to))),
            MoveStage::PlaceWitness => Some(FileOp::Rename(temporary.to_owned(), dir.path(to))),
            MoveStage::Discard => Some(FileOp::Remove(temporary.to_owned())),
            MoveStage::Abandon => Some(FileOp::Remove(temporary.to_owned())),
            MoveStage::Finished => None,
            MoveStage::Failed => None,
        }
    }
}

/// How a step goes where nothing fails.
pub open spec fn goes(files: Files, op: FileOpV) -> Outcome {
    match op {
        FileOpV::Remove(n) => if files.contains_key(n) {
            Outcome::Done
        } else {
            Outcome::Absent
        },
        FileOpV::Write(_, _) => Outcome::Done,
        FileOpV::Rename(a, _) => if files.contains_key(a) {
            Outcome::Done
        } else {
            Outcome::Absent
        },
    }
}

/// The stage and the files after `n` steps of a move, where nothing fails.
pub open spec fn moving(
    files: Files,
    from: PairNames,
    to: PairNames,
    temporary: Seq<char>,
    n: int,
) -> (MoveStage, Files)
    decreases n,
{
    if n <= 0 {
        (MoveStage::RemoveWitness, files)
    } else {
        let (stage, now) = moving(files, from, to, temporary, n - 1);
        match stage_op(stage, from, to, temporary) {
            None => (stage, now),
            Some(op) => (next_stage(stage, goes(now, op)), applied(now, op)),
        }
    }
}

/// Five names, no two alike.
pub open spec fn apart(from: PairNames, to: PairNames, temporary: Seq<char>) -> bool {
    &&& from.witness != from.sidecar
    &&& from.witness != to.witness
    &&& from.witness != to.sidecar
    &&& from.sidecar != to.witness
    &&& from.sidecar != to.sidecar
    &&& to.witness != to.sidecar
    &&& temporary != from.witness
    &&& temporary != from.sidecar
    &&& temporary != to.witness
    &&& temporary != to.sidecar
}

/// What the files are at a stage of a move that has not failed.
spec fn at_stage(
    stage: MoveStage,
    now: Files,
    files: Files,
    from: PairNames,
    to: PairNames,
    temporary: Seq<char>,
) -> bool {
    let cleared = files.remove(to.witness).remove(to.sidecar);
    let taken = cleared.remove(from.witness).insert(temporary, files[from.witness]);
    let beside = taken.remove(from.sidecar).insert(to.sidecar, files[from.sidecar]);
    match stage {
        MoveStage::RemoveWitness => now == files,
        MoveStage::RemoveRefs => now == files.remove(to.witness),
        MoveStage::TakeWitness => now == cleared,
        MoveStage::TakeRefs => now == taken && files.contains_key(from.witness),
        MoveStage::PlaceWitness => now == beside && files.contains_key(from.witness),
        MoveStage::Finished => (now == cleared && !files.contains_key(from.witness)) || (now
            == beside.remove(temporary).insert(to.witness, files[from.witness])
            && files.contains_key(from.witness)),
        _ => false,
    }
}

proof fn stays_at_stage(
    stage: MoveStage,
    now: Files,
    files: Files,
    from: PairNames,
    to: PairNames,
    temporary: Seq<char>,
)
    requires
        apart(from, to, temporary),
        paired(files, from),
        at_stage(stage, now, files, from, to, temporary),
        stage_op(stage, from, to, temporary) is Some,
    ensures
        ({
            let op = stage_op(stage, from, to, temporary)->0;
            at_stage(next_stage(stage, goes(now, op)), applied(now, op), files, from, to, temporary)
        }),
{
}

proof fn moves_stay(
    files: Files,
    from: PairNames,
    to: PairNames,
    temporary: Seq<char>,
    n: int,
)
    requires
        apart(from, to, temporary),
        paired(files, from),
    ensures
        ({
            let (stage, now) = moving(files, from, to, temporary, n);
            at_stage(stage, now, files, from, to, temporary)
        }),
    decreases n,
{
    if n > 0 {
        moves_stay(files, from, to, temporary, n - 1);
        let (stage, now) = moving(files, from, to, temporary, n - 1);
        if stage_op(stage, from, to, temporary) is Some {
            stays_at_stage(stage, now, files, from, to, temporary);
        }
    }
}

/// Files of other names than these are as they were.
pub open spec fn untouched(
    before: Files,
    after: Files,
    from: PairNames,
    to: PairNames,
    temporary: Seq<char>,
) -> bool {
    forall|k: Seq<char>|
        k != from.witness && k != from.sidecar && k != to.witness && k != to.sidecar && k
            != temporary ==> (#[trigger] after.contains_key(k) == before.contains_key(k)) && (
        before.contains_key(k) ==> after[k] == before[k])
}

/// Wherever a move is interrupted, neither identity has a witness beside
/// another's file, and files of other names are as they were.
pub proof fn an_interrupted_move_leaves_pairs(
    files: Files,
    from: PairNames,
    to: PairNames,
    temporary: Seq<char>,
    n: int,
)
    requires
        apart(from, to, temporary),
        paired(files, from),
        paired(files, to),
    ensures
        paired(moving(files, from, to, temporary, n).1, from),
        paired(moving(files, from, to, temporary, n).1, to),
        untouched(files, moving(files, from, to, temporary, n).1, from, to, temporary),
{
    moves_stay(files, from, to, temporary, n);
}

proof fn moves_finish(files: Files, from: PairNames, to: PairNames, temporary: Seq<char>)
    requires
        apart(from, to, temporary),
        paired(files, from),
    ensures
        moving(files, from, to, temporary, 5).0 is Finished,
{
    reveal_with_fuel(moving, 6);
    moves_stay(files, from, to, temporary, 1);
    moves_stay(files, from, to, temporary, 2);
    moves_stay(files, from, to, temporary, 3);
    moves_stay(files, from, to, temporary, 4);
    moves_stay(files, from, to, temporary, 5);
}

/// A whole move brings a witness and the file beside it to the target, and
/// leaves none at the source.
pub proof fn a_move_brings_the_pair(
    files: Files,
    from: PairNames,
    to: PairNames,
    temporary: Seq<char>,
)
    requires
        apart(from, to, temporary),
        paired(files, from),
    ensures
        ({
            let done = moving(files, from, to, temporary, 5).1;
            &&& !done.contains_key(from.witness)
            &&& done.contains_key(to.witness) == files.contains_key(from.witness)
            &&& files.contains_key(from.witness) ==> done[to.witness] == files[from.witness]
                && done[to.sidecar] == files[from.sidecar]
        }),
{
    moves_finish(files, from, to, temporary);
    moves_stay(files, from, to, temporary, 5);
}

} // verus!
