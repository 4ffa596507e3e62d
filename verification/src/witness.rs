//! Witnesses: the rows of an evaluation, as they are kept for the next one.
use vstd::prelude::*;
use crate::codec;
use crate::codec::{CanonV, CanonValue};
use crate::digest;
use crate::digest::{Digest, DigestV, HashFn, Part, PartV, Preimage, PreimageV, WriteDrvAnswer, WriteDrvAnswerV};
use crate::model;
use crate::model::Plain;
use crate::ordered;
use crate::ordered::TextSet;
use crate::question::{Question, QuestionV, Recorded, RecordedV, WitnessRow};
use crate::readset;
use crate::readset::EvalId;
use crate::table;
use crate::text;
use crate::validity::RowsV;

verus! {

/// The format of witnesses; one in another format is refused.
pub const WITNESS_FORMAT: &'static str = "ixe-witness-v8";

/// How many witnesses are kept of an evaluation.
pub const WITNESS_HISTORY: usize = 4;

/// The first line of the file beside a witness.
pub const WITNESS_META: &'static str = "ixe-witness-meta-v1";

/// What the name of the file beside a witness ends with.
pub const REFS_SUFFIX: &'static str = ".refs";

/// The tag of the names of the older witnesses.
pub const SLOT_TAG: &'static str = "ixe-witness-slot-v1";

/// The tag of the shapes of witnesses.
pub const SHAPE_TAG: &'static str = "ixe-witness-shape-v1";

/// The tag of the rows of a shape.
pub const SHAPE_ROW_TAG: &'static str = "ixe-witness-shape-row-v1";

/// What a witness is filed under.
#[derive(Debug, PartialEq, Eq)]
pub enum Slot {
    /// The newest is filed under the identity.
    Itself(EvalId),
    /// An older one is filed under a hash.
    Hashed(Preimage),
}

/// The model of [`Slot`].
#[verifier::ext_equal]
pub enum SlotV {
    Itself(Seq<u8>),
    Hashed(PreimageV),
}

impl View for Slot {
    type V = SlotV;

    open spec fn view(&self) -> SlotV {
        match self {
            Slot::Itself(a) => SlotV::Itself(a@),
            Slot::Hashed(a) => SlotV::Hashed(a@),
        }
    }
}

impl DeepView for Slot {
    type V = SlotV;

    open spec fn deep_view(&self) -> SlotV {
        self@
    }
}

impl Clone for Slot {
    fn clone(&self) -> (r: Self)
        ensures
            r@ == self@,
    {
        self.copied()
    }
}

impl Plain for Slot {
    fn copied(&self) -> (r: Self) {
        match self {
            Slot::Itself(a) => Slot::Itself(a.copied()),
            Slot::Hashed(a) => Slot::Hashed(a.copied()),
        }
    }

    fn same(&self, other: &Self) -> (r: bool) {
        match (self, other) {
            (Slot::Itself(a), Slot::Itself(b)) => a.same(b),
            (Slot::Hashed(a), Slot::Hashed(b)) => a.same(b),
            _ => false,
        }
    }
}

/// What the witness of a slot is filed under.
pub open spec fn filed(identity: Seq<u8>, slot: u64) -> SlotV {
    if slot == 0 {
        SlotV::Itself(identity)
    } else {
        SlotV::Hashed(
            PreimageV {
                tag: SLOT_TAG@,
                parts: seq![
                    PartV::Bytes(identity),
                    PartV::Bytes(vstd::bytes::spec_u64_to_le_bytes(slot)),
                ],
            },
        )
    }
}

/// No two slots of an evaluation are filed under one name, nor slots of two
/// evaluations.
pub proof fn slots_are_apart(a: Seq<u8>, b: Seq<u8>, i: u64, j: u64)
    requires
        a != b || i != j,
    ensures
        filed(a, i) != filed(b, j),
{
    vstd::bytes::lemma_auto_spec_u64_to_from_le_bytes();
    if i != 0 && j != 0 && filed(a, i) == filed(b, j) {
        let p = filed(a, i)->Hashed_0.parts;
        let q = filed(b, j)->Hashed_0.parts;
        assert(p[0] == q[0] && p[1] == q[1]);
        assert(vstd::bytes::spec_u64_to_le_bytes(i) == vstd::bytes::spec_u64_to_le_bytes(j));
    }
}

/// What the witness of a slot is filed under.
pub fn witness_slot(identity: &EvalId, slot: u64) -> (r: Slot)
    ensures
        r@ == filed(identity@, slot),
{
    if slot == 0 {
        return Slot::Itself(*identity);
    }
    let mut parts: Vec<Part> = Vec::new();
    parts.push(readset::bytes_part(identity.as_hash().to_vec()));
    parts.push(readset::bytes_part(vstd::bytes::u64_to_le_bytes(slot)));
    assert(parts.deep_view() =~= seq![
        PartV::Bytes(identity@),
        PartV::Bytes(vstd::bytes::spec_u64_to_le_bytes(slot)),
    ]);
    Slot::Hashed(Preimage { tag: SLOT_TAG.to_owned(), parts })
}

/// What the answer to a derivation's writing adds to a row of a shape.
pub open spec fn write_parts(q: QuestionV) -> Seq<PartV> {
    match q {
        QuestionV::WriteDrv { name, answer, aterm } => match answer {
            WriteDrvAnswerV::Written(path) => readset::byte_parts(
                digest::utf8s(seq!["written"@, path]),
            ),
            WriteDrvAnswerV::Failed { outcome, detail } => readset::byte_parts(
                digest::utf8s(seq!["failed"@, outcome, detail]),
            ),
        },
        _ => Seq::empty(),
    }
}

/// What is recorded of an answer, in a row of a shape.
pub open spec fn record_parts(r: RecordedV) -> Seq<PartV> {
    match r {
        RecordedV::Answer(t) => seq![
            PartV::Bytes(text::utf8("answer"@)),
            PartV::Bytes(text::utf8(t)),
        ],
        RecordedV::Digest(d) => seq![PartV::Bytes(text::utf8("digest"@)), PartV::Digest(d)],
    }
}

/// A row of a shape: the question, what a derivation's writing answered, and
/// what is recorded.
pub open spec fn shape_row(q: QuestionV, r: RecordedV) -> PreimageV {
    PreimageV {
        tag: SHAPE_ROW_TAG@,
        parts: readset::byte_parts(q.key_material()) + write_parts(q) + record_parts(r),
    }
}

/// The rows of a witness's shape.
pub open spec fn shape_rows_of(rows: RowsV) -> Seq<PreimageV> {
    Seq::new(rows.len(), |i: int| shape_row(rows[i].0, rows[i].1))
}

/// The shape over the hashes of its rows.
pub open spec fn shape(hashes: Seq<Seq<u8>>) -> PreimageV {
    PreimageV { tag: SHAPE_TAG@, parts: readset::byte_parts(hashes) }
}

proof fn told_apart(a: Seq<Seq<char>>, b: Seq<Seq<char>>)
    requires
        readset::byte_parts(digest::utf8s(a)) == readset::byte_parts(digest::utf8s(b)),
    ensures
        a == b,
{
    let x = digest::utf8s(a);
    let y = digest::utf8s(b);
    assert(readset::byte_parts(x).len() == readset::byte_parts(y).len());
    assert forall|i: int| 0 <= i < x.len() implies x[i] == y[i] by {
        assert(readset::byte_parts(x)[i] == readset::byte_parts(y)[i]);
    }
    assert(x =~= y);
    digest::told_injective(a, b);
}

proof fn material_apart(a: Seq<Seq<u8>>, b: Seq<Seq<u8>>)
    requires
        readset::byte_parts(a) == readset::byte_parts(b),
    ensures
        a == b,
{
    assert(readset::byte_parts(a).len() == a.len());
    assert(readset::byte_parts(b).len() == b.len());
    assert forall|i: int| 0 <= i < a.len() implies a[i] == b[i] by {
        assert(readset::byte_parts(a)[i] == PartV::Bytes(a[i]));
        assert(readset::byte_parts(b)[i] == PartV::Bytes(b[i]));
    }
    assert(a =~= b);
}

/// The head of a row of a shape tells the question, with what a derivation's
/// writing answered.
proof fn heads_apart(a: QuestionV, b: QuestionV)
    requires
        a.wf(),
        b.wf(),
        readset::byte_parts(a.key_material()) + write_parts(a) == readset::byte_parts(
            b.key_material(),
        ) + write_parts(b),
    ensures
        a == b,
{
    let x = readset::byte_parts(a.key_material());
    let y = readset::byte_parts(b.key_material());
    assert((x + write_parts(a))[0] == PartV::Bytes(seq![a.tag()]));
    assert((y + write_parts(b))[0] == PartV::Bytes(seq![b.tag()]));
    assert(seq![a.tag()][0] == seq![b.tag()][0]);
    codec::tags_are_distinct(a, b);
    if a is WriteDrv {
        assert(b is WriteDrv);
        assert(x.len() == 3 && y.len() == 3);
        assert((x + write_parts(a)).take(3) =~= x);
        assert((y + write_parts(b)).take(3) =~= y);
        assert((x + write_parts(a)).skip(3) =~= write_parts(a));
        assert((y + write_parts(b)).skip(3) =~= write_parts(b));
        material_apart(a.key_material(), b.key_material());
        codec::material_names_the_question(a, b);
        let p = match a->answer {
            WriteDrvAnswerV::Written(path) => seq!["written"@, path],
            WriteDrvAnswerV::Failed { outcome, detail } => seq!["failed"@, outcome, detail],
        };
        let q = match b->answer {
            WriteDrvAnswerV::Written(path) => seq!["written"@, path],
            WriteDrvAnswerV::Failed { outcome, detail } => seq!["failed"@, outcome, detail],
        };
        told_apart(p, q);
        assert(p.len() == q.len());
        assert(p[1] == q[1]);
        if p.len() == 3 {
            assert(p[2] == q[2]);
        }
    } else {
        assert(!(b is WriteDrv));
        assert(x + write_parts(a) =~= x);
        assert(y + write_parts(b) =~= y);
        material_apart(a.key_material(), b.key_material());
        codec::material_names_the_question(a, b);
    }
}

/// A row of a shape tells the row: no two rows that can be written down have one.
pub proof fn shape_rows_tell_rows_apart(a: QuestionV, r: RecordedV, b: QuestionV, s: RecordedV)
    requires
        a.wf(),
        b.wf(),
        shape_row(a, r) == shape_row(b, s),
    ensures
        a == b,
        r == s,
{
    let x = readset::byte_parts(a.key_material()) + write_parts(a);
    let y = readset::byte_parts(b.key_material()) + write_parts(b);
    let p = x + record_parts(r);
    let q = y + record_parts(s);
    assert(p == q);
    assert(p.take(p.len() - 2) =~= x);
    assert(q.take(q.len() - 2) =~= y);
    assert(p.last() == record_parts(r)[1]);
    assert(q.last() == record_parts(s)[1]);
    heads_apart(a, b);
    if let RecordedV::Answer(t) = r {
        if let RecordedV::Answer(u) = s {
            text::utf8_injective(t, u);
        }
    }
}

fn push_text(parts: &mut Vec<Part>, s: &str)
    ensures
        final(parts).deep_view() == old(parts).deep_view().push(PartV::Bytes(text::utf8(s@))),
{
    let ghost prior = parts.deep_view();
    parts.push(readset::bytes_part(text::bytes(s)));
    assert(parts.deep_view() =~= prior.push(PartV::Bytes(text::utf8(s@))));
}

fn shape_row_of(row: &WitnessRow) -> (r: Preimage)
    ensures
        r@ == shape_row(row.0@, row.1@),
{
    let mut parts: Vec<Part> = Vec::new();
    assert(parts.deep_view() =~= Seq::<PartV>::empty());
    readset::material_parts(&mut parts, &row.0);
    let ghost head = readset::byte_parts(row.0@.key_material());
    assert(parts.deep_view() =~= head);
    if let Question::WriteDrv { name, answer, aterm } = &row.0 {
        match answer {
            WriteDrvAnswer::Written(path) => {
                push_text(&mut parts, "written");
                push_text(&mut parts, path.as_str());
            },
            WriteDrvAnswer::Failed { outcome, detail } => {
                push_text(&mut parts, "failed");
                push_text(&mut parts, outcome.as_str());
                push_text(&mut parts, detail.as_str());
            },
        }
    }
    assert(parts.deep_view() =~= head + write_parts(row.0@));
    let ghost middle = parts.deep_view();
    match &row.1 {
        Recorded::Answer(t) => {
            push_text(&mut parts, "answer");
            push_text(&mut parts, t.as_str());
        },
        Recorded::Digest(d) => {
            push_text(&mut parts, "digest");
            let ghost prior = parts.deep_view();
            parts.push(Part::Digest(d.copied()));
            assert(parts.deep_view() =~= prior.push(PartV::Digest(d@)));
        },
    }
    assert(parts.deep_view() =~= middle + record_parts(row.1@));
    Preimage { tag: SHAPE_ROW_TAG.to_owned(), parts }
}

/// The rows of a witness's shape; the shape is over their hashes.
pub fn shape_rows(rows: &Vec<WitnessRow>) -> (r: Vec<Preimage>)
    ensures
        r.deep_view() == shape_rows_of(rows.deep_view()),
{
    let ghost all = shape_rows_of(rows.deep_view());
    let mut r: Vec<Preimage> = Vec::new();
    let mut i: usize = 0;
    while i < rows.len()
        invariant
            i <= rows.len(),
            all == shape_rows_of(rows.deep_view()),
            r.len() == i,
            forall|j: int| 0 <= j < i ==> (#[trigger] r@[j])@ == all[j],
        decreases rows.len() - i,
    {
        assert(rows.deep_view()[i as int] == rows@[i as int].deep_view());
        r.push(shape_row_of(&rows[i]));
        i += 1;
    }
    assert(r.deep_view() =~= all);
    r
}

/// The shape over the hashes of its rows.
pub fn witness_shape(hashes: &Vec<digest::Hash>) -> (r: Preimage)
    ensures
        r@ == shape(hashes.deep_view()),
{
    let ghost all = readset::byte_parts(hashes.deep_view());
    let mut parts: Vec<Part> = Vec::new();
    let mut i: usize = 0;
    while i < hashes.len()
        invariant
            i <= hashes.len(),
            all == readset::byte_parts(hashes.deep_view()),
            parts.len() == i,
            forall|j: int| 0 <= j < i ==> (#[trigger] parts@[j])@ == all[j],
        decreases hashes.len() - i,
    {
        assert(hashes.deep_view()[i as int] == hashes@[i as int]@);
        parts.push(readset::bytes_part(hashes[i].to_vec()));
        i += 1;
    }
    assert(parts.deep_view() =~= all);
    Preimage { tag: SHAPE_TAG.to_owned(), parts }
}

/// A line without the return before its end.
pub open spec fn bare_line(s: Seq<char>) -> Seq<char> {
    if s.len() > 0 && s.last() == '\r' {
        s.drop_last()
    } else {
        s
    }
}

/// The lines of a text: what ends in a line feed, and what follows the last one.
pub open spec fn lines(t: Seq<char>) -> Seq<Seq<char>> {
    let p = text::split(t, '\n');
    let whole = Seq::new((p.len() - 1) as nat, |i: int| bare_line(p[i]));
    if p.last().len() == 0 {
        whole
    } else {
        whole.push(p.last())
    }
}

/// A character of a hash in lower case.
pub open spec fn hash_char(c: char) -> bool {
    ('0' <= c <= '9') || ('a' <= c <= 'f')
}

/// A hash in lower case.
pub open spec fn hash_text(s: Seq<char>) -> bool {
    s.len() == 64 && forall|i: int| 0 <= i < s.len() ==> hash_char(#[trigger] s[i])
}

/// The shape and the object names in the file beside a witness.
pub open spec fn metadata_read(t: Seq<char>) -> Option<(Seq<char>, Seq<Seq<char>>)> {
    let l = lines(t);
    if l.len() >= 2 && l[0] == WITNESS_META@ && (forall|i: int|
        1 <= i < l.len() ==> hash_text(#[trigger] l[i])) {
        Some((l[1], l.skip(2)))
    } else {
        None
    }
}

/// Lines, each with its end.
pub open spec fn lined(v: Seq<Seq<char>>) -> Seq<char>
    decreases v.len(),
{
    if v.len() == 0 {
        Seq::empty()
    } else {
        lined(v.drop_last()) + v.last() + "\n"@
    }
}

/// What the file beside a witness holds.
pub open spec fn metadata_written(shape: Seq<u8>, refs: Seq<Seq<char>>) -> Seq<char> {
    lined(seq![WITNESS_META@, digest::hex(shape)] + refs)
}

proof fn lined_is_joined(v: Seq<Seq<char>>)
    ensures
        lined(v) == text::join(v.push(Seq::empty()), "\n"@),
    decreases v.len(),
{
    let e = Seq::<char>::empty();
    let w = v.push(e);
    assert(w.drop_last() =~= v);
    if v.len() == 0 {
        assert(w[0] == e);
    } else {
        lined_is_joined(v.drop_last());
        let u = v.drop_last().push(e);
        assert(u.drop_last() =~= v.drop_last());
        assert(text::join(w, "\n"@) == text::join(v, "\n"@) + "\n"@ + e);
        assert(text::join(w, "\n"@) =~= text::join(v, "\n"@) + "\n"@);
        if v.len() == 1 {
            assert(v.drop_last() =~= Seq::<Seq<char>>::empty());
            assert(lined(v.drop_last()) == e);
            assert(lined(v) =~= v[0] + "\n"@);
        } else {
            assert(text::join(u, "\n"@) == text::join(v.drop_last(), "\n"@) + "\n"@ + e);
            assert(text::join(u, "\n"@) =~= text::join(v.drop_last(), "\n"@) + "\n"@);
        }
    }
}

/// A text without a line feed or a return.
pub open spec fn one_line(s: Seq<char>) -> bool {
    forall|i: int| 0 <= i < s.len() ==> #[trigger] s[i] != '\n' && s[i] != '\r'
}

proof fn lines_of_lined(v: Seq<Seq<char>>)
    requires
        forall|i: int| 0 <= i < v.len() ==> one_line(#[trigger] v[i]),
    ensures
        lines(lined(v)) == v,
{
    let w = v.push(Seq::<char>::empty());
    lined_is_joined(v);
    reveal_strlit("\n");
    assert("\n"@ =~= seq!['\n']);
    assert forall|i: int, j: int|
        0 <= i < w.len() && 0 <= j < w[i].len() implies #[trigger] w[i][j] != '\n' by {
        if i < v.len() {
            assert(one_line(v[i]));
        }
    }
    text::split_of_join(w, '\n');
    let p = text::split(lined(v), '\n');
    assert(p == w);
    assert forall|i: int| 0 <= i < v.len() implies bare_line(#[trigger] v[i]) == v[i] by {
        assert(one_line(v[i]));
    }
    assert(lines(lined(v)) =~= v);
}

proof fn hex_is_hash_text(b: Seq<u8>)
    ensures
        digest::hex(b).len() == 2 * b.len(),
        forall|i: int| 0 <= i < digest::hex(b).len() ==> hash_char(#[trigger] digest::hex(b)[i]),
    decreases b.len(),
{
    if b.len() > 0 {
        hex_is_hash_text(b.drop_last());
        let h = digest::hex(b.drop_last());
        assert forall|i: int| 0 <= i < digest::hex(b).len() implies hash_char(
            #[trigger] digest::hex(b)[i],
        ) by {
            if i < h.len() {
                assert(digest::hex(b)[i] == h[i]);
            }
        }
    }
}

/// The file beside a witness is read back as it was written.
pub proof fn metadata_reads_back(shape: Seq<u8>, refs: Seq<Seq<char>>)
    requires
        shape.len() == 32,
        forall|i: int| 0 <= i < refs.len() ==> hash_text(#[trigger] refs[i]),
    ensures
        metadata_read(metadata_written(shape, refs)) == Some((digest::hex(shape), refs)),
{
    let v = seq![WITNESS_META@, digest::hex(shape)] + refs;
    hex_is_hash_text(shape);
    reveal_strlit("ixe-witness-meta-v1");
    assert forall|i: int| 1 <= i < v.len() implies hash_text(#[trigger] v[i]) by {
        if i >= 2 {
            assert(v[i] == refs[i - 2]);
        }
    }
    assert forall|i: int| 0 <= i < v.len() implies one_line(#[trigger] v[i]) by {
        if i >= 1 {
            assert(hash_text(v[i]));
            assert forall|j: int| 0 <= j < v[i].len() implies #[trigger] v[i][j] != '\n' && v[i][j]
                != '\r' by {
                assert(hash_char(v[i][j]));
            }
        }
    }
    lines_of_lined(v);
    assert(v.skip(2) =~= refs);
}

/// The names of the derivations that the first `n` rows wrote, in order.
pub open spec fn refs(rows: RowsV, n: int) -> Seq<Seq<char>>
    decreases n,
{
    if n <= 0 {
        Seq::empty()
    } else {
        match rows[n - 1].0 {
            QuestionV::WriteDrv { name, answer, aterm } => ordered::included(
                refs(rows, n - 1),
                digest::hex(aterm),
            ),
            _ => refs(rows, n - 1),
        }
    }
}

/// The names of the derivations that the rows wrote, each once and in order.
pub fn refs_of(rows: &Vec<WitnessRow>) -> (r: TextSet)
    ensures
        r@ == refs(rows.deep_view(), rows@.len() as int),
{
    let mut r = TextSet::new();
    let mut i: usize = 0;
    while i < rows.len()
        invariant
            i <= rows.len(),
            r@ == refs(rows.deep_view(), i as int),
        decreases rows.len() - i,
    {
        assert(rows.deep_view()[i as int] == rows@[i as int].deep_view());
        if let Question::WriteDrv { name, answer, aterm } = &rows[i].0 {
            r.insert(aterm.hash.to_hex());
        }
        i += 1;
    }
    r
}

fn lines_in(t: &str) -> (r: Vec<String>)
    ensures
        text::texts(r@) == lines(t@),
{
    let p = text::pieces(t, '\n');
    let ghost all = text::split(t@, '\n');
    proof {
        text::split_nonempty(t@, '\n');
        assert(text::texts(p@).len() == p@.len());
    }
    let ghost want = Seq::new((all.len() - 1) as nat, |i: int| bare_line(all[i]));
    let last = p.len() - 1;
    let mut r: Vec<String> = Vec::new();
    let mut i: usize = 0;
    while i < last
        invariant
            i <= last,
            last == p.len() - 1,
            all == text::texts(p@),
            want == Seq::new((all.len() - 1) as nat, |i: int| bare_line(all[i])),
            r.len() == i,
            forall|j: int| 0 <= j < i ==> (#[trigger] r@[j])@ == want[j],
        decreases last - i,
    {
        assert(all[i as int] == p@[i as int]@);
        let c = text::chars(p[i].as_str());
        if c.len() > 0 && c[c.len() - 1] == '\r' {
            let s = text::spell(&c, 0, c.len() - 1);
            assert(s@ =~= all[i as int].drop_last());
            r.push(s);
        } else {
            r.push(p[i].clone());
        }
        i += 1;
    }
    assert(text::texts(r@) =~= want);
    assert(all[last as int] == p@[last as int]@);
    let c = text::chars(p[last].as_str());
    if c.len() > 0 {
        let ghost prior = r@;
        r.push(p[last].clone());
        assert(text::texts(r@) =~= text::texts(prior).push(all[last as int]));
    }
    r
}

fn is_hash_text(s: &str) -> (r: bool)
    ensures
        r == hash_text(s@),
{
    let c = text::chars(s);
    if c.len() != 64 {
        return false;
    }
    let mut i: usize = 0;
    while i < c.len()
        invariant
            i <= c.len(),
            c@ == s@,
            forall|j: int| 0 <= j < i ==> hash_char(#[trigger] s@[j]),
        decreases c.len() - i,
    {
        let x = c[i];
        if !(('0' <= x && x <= '9') || ('a' <= x && x <= 'f')) {
            assert(!hash_char(s@[i as int]));
            return false;
        }
        i += 1;
    }
    true
}

/// The shape and the object names in the file beside a witness.
pub fn witness_metadata(t: &str) -> (r: Option<(String, Vec<String>)>)
    ensures
        match r {
            Some((shape, names)) => metadata_read(t@) == Some((shape@, text::texts(names@))),
            None => metadata_read(t@) is None,
        },
{
    let l = lines_in(t);
    let ghost all = lines(t@);
    assert(all.len() == l@.len());
    if l.len() < 2 {
        return None;
    }
    assert(all[0] == l@[0]@);
    if !text::same(l[0].as_str(), WITNESS_META) {
        return None;
    }
    let mut names: Vec<String> = Vec::new();
    let mut i: usize = 1;
    while i < l.len()
        invariant
            1 <= i <= l.len(),
            2 <= l.len(),
            all == text::texts(l@),
            all == lines(t@),
            forall|j: int| 1 <= j < i ==> hash_text(#[trigger] all[j]),
            names.len() == (if i < 2 {
                0
            } else {
                i - 2
            }),
            forall|j: int| 0 <= j < names.len() ==> (#[trigger] names@[j])@ == all[j + 2],
        decreases l.len() - i,
    {
        assert(all[i as int] == l@[i as int]@);
        if !is_hash_text(l[i].as_str()) {
            return None;
        }
        if i >= 2 {
            names.push(l[i].clone());
        }
        i += 1;
    }
    assert(text::texts(names@) =~= all.skip(2));
    assert(all[1] == l@[1]@);
    Some((l[1].clone(), names))
}

/// The object names in the file beside a witness.
pub fn witness_refs(t: &str) -> (r: Option<Vec<String>>)
    ensures
        match r {
            Some(names) => metadata_read(t@) matches Some(m) && m.1 == text::texts(names@),
            None => metadata_read(t@) is None,
        },
{
    match witness_metadata(t) {
        Some((_, names)) => Some(names),
        None => None,
    }
}

/// What the file beside a witness of that shape holds.
pub fn witness_sidecar(rows: &Vec<WitnessRow>, shape: &digest::Hash) -> (r: String)
    ensures
        r@ == metadata_written(shape@, refs(rows.deep_view(), rows@.len() as int)),
{
    let names = refs_of(rows);
    let ghost all = names@;
    let ghost head = seq![WITNESS_META@, digest::hex(shape@)];
    let mut s = WITNESS_META.to_owned();
    s.append("\n");
    s.append(shape.to_hex().as_str());
    s.append("\n");
    proof {
        assert(head.drop_last() =~= seq![WITNESS_META@]);
        assert(head.drop_last().drop_last() =~= Seq::<Seq<char>>::empty());
        assert(seq![WITNESS_META@].drop_last() =~= Seq::<Seq<char>>::empty());
        assert(lined(Seq::<Seq<char>>::empty()) =~= Seq::<char>::empty());
        assert(lined(seq![WITNESS_META@]) =~= WITNESS_META@ + "\n"@);
        assert(s@ =~= lined(head));
        assert(head + all.take(0) =~= head);
    }
    let mut i: usize = 0;
    while i < names.items.len()
        invariant
            i <= names.items.len(),
            all == names@,
            s@ == lined(head + all.take(i as int)),
        decreases names.items.len() - i,
    {
        proof {
            model::deep_texts(&names.items);
            let v = head + all.take(i + 1);
            assert(v.drop_last() =~= head + all.take(i as int));
            assert(v.last() == all[i as int]);
            assert(all[i as int] == names.items@[i as int]@);
        }
        s.append(names.items[i].as_str());
        s.append("\n");
        i += 1;
    }
    proof {
        model::deep_texts(&names.items);
        assert(all.take(i as int) =~= all);
    }
    s
}

/// The file beside a witness is of that shape.
pub fn has_shape(sidecar: &Option<String>, shape: &digest::Hash) -> (r: bool)
    ensures
        r == (sidecar matches Some(t) && metadata_read(t@) matches Some(m) && m.0 == digest::hex(
            shape@,
        )),
{
    match sidecar {
        Some(t) => match witness_metadata(t.as_str()) {
            Some((old, _)) => text::same(old.as_str(), shape.to_hex().as_str()),
            None => false,
        },
        None => false,
    }
}

/// What a witness is written as.
pub open spec fn witness_written(rows: RowsV) -> CanonV {
    CanonV::Table(
        seq![
            (CanonV::Str("format"@), CanonV::Str(WITNESS_FORMAT@)),
            (
                CanonV::Str("rows"@),
                CanonV::Array(Seq::new(rows.len(), |i: int| codec::row_written(rows[i]))),
            ),
        ],
    )
}

/// The rows that are written so.
pub open spec fn rows_read(items: Seq<CanonV>) -> Option<RowsV> {
    if forall|i: int| 0 <= i < items.len() ==> codec::row_read(#[trigger] items[i]) is Some {
        Some(Seq::new(items.len(), |i: int| codec::row_read(items[i])->0))
    } else {
        None
    }
}

/// The table says that it is a witness in this format.
pub open spec fn formatted(t: Seq<(CanonV, CanonV)>) -> bool {
    exists|i: int|
        0 <= i < t.len() && #[trigger] t[i] == (
            CanonV::Str("format"@),
            CanonV::Str(WITNESS_FORMAT@),
        )
}

/// The rows of a witness in the entries of a table.
pub open spec fn table_rows(t: Seq<(CanonV, CanonV)>) -> Option<RowsV> {
    if formatted(t) {
        match table::list_field(t, "rows"@) {
            Some(items) => rows_read(items),
            None => None,
        }
    } else {
        None
    }
}

/// The rows of the witness that is written so.
pub open spec fn witness_read(v: CanonV) -> Option<RowsV> {
    match v {
        CanonV::Table(t) => table_rows(t),
        _ => None,
    }
}

/// A row that is read back as it was written.
pub open spec fn row_keeps(row: (QuestionV, RecordedV)) -> bool {
    &&& row.0.wf()
    &&& match row.1 {
        RecordedV::Digest(d) => d matches DigestV::Known(h) && h.len() == 32,
        RecordedV::Answer(t) => row.0.named_object(t) is Some,
    }
}

/// A witness is read back as it was written: rows whose digests are known, or
/// whose answers their questions can be replayed from.
pub proof fn witness_round_trips(rows: RowsV)
    requires
        forall|i: int| 0 <= i < rows.len() ==> row_keeps(#[trigger] rows[i]),
    ensures
        witness_read(witness_written(rows)) == Some(rows),
{
    let items = Seq::new(rows.len(), |i: int| codec::row_written(rows[i]));
    let t = witness_written(rows)->Table_0;
    assert(t[0] == (CanonV::Str("format"@), CanonV::Str(WITNESS_FORMAT@)));
    assert(formatted(t));
    let rest = t.drop_first();
    assert(rest[0] == t[1]);
    assert(table::list_field(rest, "rows"@) == Some(items));
    assert(table::list_field(t, "rows"@) == Some(items));
    assert forall|i: int| 0 <= i < items.len() implies codec::row_read(#[trigger] items[i]) == Some(
        rows[i],
    ) by {
        assert(row_keeps(rows[i]));
        codec::row_round_trips(rows[i].0, rows[i].1);
    }
    assert(rows_read(items)->0 =~= rows);
}

/// Rows with their digests taken.
pub open spec fn rows_settled(rows: RowsV, hash: HashFn) -> RowsV {
    Seq::new(rows.len(), |i: int| codec::row_settled(rows[i], hash))
}

/// A row that is read back once its digest is taken.
pub open spec fn row_lasts(row: (QuestionV, RecordedV), hash: HashFn) -> bool {
    &&& row.0.wf()
    &&& match row.1 {
        RecordedV::Digest(d) => d.settled(hash).len() == 32,
        RecordedV::Answer(t) => row.0.named_object(t) is Some,
    }
}

/// A witness that is written with its digests taken is read back as the rows
/// with theirs taken, and these make the key that the rows make.
pub proof fn a_written_witness_keys_the_same(rows: RowsV, identity: Seq<u8>, hash: HashFn)
    requires
        forall|i: int| 0 <= i < rows.len() ==> row_lasts(#[trigger] rows[i], hash),
    ensures
        witness_read(witness_written(rows).settled(hash)) == Some(rows_settled(rows, hash)),
        readset::key(rows_settled(rows, hash), identity).settled(hash) == readset::key(
            rows,
            identity,
        ).settled(hash),
{
    reveal_with_fuel(CanonV::settled, 3);
    let done = rows_settled(rows, hash);
    let items = Seq::new(rows.len(), |i: int| codec::row_written(rows[i]));
    let now = CanonV::Array(items).settled(hash)->Array_0;
    assert forall|i: int| 0 <= i < items.len() implies now[i] == codec::row_written(done[i]) by {
        codec::a_row_is_settled(rows[i], hash);
    }
    assert(now =~= Seq::new(done.len(), |i: int| codec::row_written(done[i])));
    let t = witness_written(rows).settled(hash)->Table_0;
    assert(t[0] == (CanonV::Str("format"@), CanonV::Str(WITNESS_FORMAT@)));
    assert(t[1] == (CanonV::Str("rows"@), CanonV::Array(now)));
    assert(t =~= witness_written(done)->Table_0);
    assert forall|i: int| 0 <= i < done.len() implies row_keeps(#[trigger] done[i]) by {
        assert(row_lasts(rows[i], hash));
    }
    witness_round_trips(done);
    assert forall|i: int| 0 <= i < done.len() implies readset::rows_agree(
        #[trigger] done[i],
        rows[i],
        hash,
    ) by {}
    readset::rows_that_agree_key_the_same(done, rows, identity, hash);
}

/// Taking the digests of rows leaves what their shape is hashed from.
pub proof fn taking_digests_keeps_the_shape(rows: RowsV, hash: HashFn, i: int)
    requires
        0 <= i < rows.len(),
    ensures
        shape_rows_of(rows_settled(rows, hash))[i].settled(hash) == shape_rows_of(rows)[i].settled(
            hash,
        ),
{
    let done = rows_settled(rows, hash);
    let a = shape_row(done[i].0, done[i].1);
    let b = shape_row(rows[i].0, rows[i].1);
    assert(a.parts.len() == b.parts.len());
    assert(digest::settled_parts(a.parts, hash) =~= digest::settled_parts(b.parts, hash));
}

/// What a witness is written as.
pub fn witness_value(rows: &Vec<WitnessRow>) -> (r: CanonValue)
    ensures
        r@ == witness_written(rows.deep_view()),
{
    let ghost w = rows.deep_view();
    let ghost all = Seq::new(w.len(), |i: int| codec::row_written(w[i]));
    let mut items: Vec<CanonValue> = Vec::new();
    let mut i: usize = 0;
    while i < rows.len()
        invariant
            i <= rows.len(),
            w == rows.deep_view(),
            all == Seq::new(w.len(), |i: int| codec::row_written(w[i])),
            items.len() == i,
            forall|j: int| 0 <= j < i ==> (#[trigger] items@[j])@ == all[j],
        decreases rows.len() - i,
    {
        assert(w[i as int] == rows@[i as int].deep_view());
        items.push(codec::row_value(&rows[i]));
        i += 1;
    }
    assert(model::deep(items@) =~= all);
    let mut names: Vec<&'static str> = Vec::new();
    names.push("format");
    names.push("rows");
    let mut values: Vec<CanonValue> = Vec::new();
    values.push(CanonValue::Str(WITNESS_FORMAT.to_owned()));
    values.push(codec::array_of(items));
    let r = table::table(names, values);
    proof {
        if let CanonV::Table(t) = r@ {
            assert(t =~= witness_written(w)->Table_0);
        }
    }
    r
}

fn is_formatted(t: &Vec<(CanonValue, CanonValue)>) -> (r: bool)
    ensures
        r == formatted(table::pairs(t@)),
{
    let ghost all = table::pairs(t@);
    let mut i: usize = 0;
    while i < t.len()
        invariant
            i <= t.len(),
            all == table::pairs(t@),
            forall|j: int|
                0 <= j < i ==> #[trigger] all[j] != (
                    CanonV::Str("format"@),
                    CanonV::Str(WITNESS_FORMAT@),
                ),
        decreases t.len() - i,
    {
        assert(all[i as int] == (t@[i as int].0@, t@[i as int].1@));
        if let CanonValue::Str(k) = &t[i].0 {
            if let CanonValue::Str(v) = &t[i].1 {
                let named = text::same(k.as_str(), "format");
                let known = text::same(v.as_str(), WITNESS_FORMAT);
                if named && known {
                    return true;
                }
            }
        }
        i += 1;
    }
    false
}

/// The rows of the witness that is written so, if one is.
pub fn witness_rows(value: &CanonValue) -> (r: Option<Vec<WitnessRow>>)
    ensures
        r.deep_view() == witness_read(value@),
{
    let Some(t) = table::entries(value) else {
        return None;
    };
    if !is_formatted(t) {
        return None;
    }
    let Some(items) = table::list_of(t, "rows") else {
        return None;
    };
    let ghost all = model::deep(items@);
    let mut rows: Vec<WitnessRow> = Vec::new();
    let mut i: usize = 0;
    while i < items.len()
        invariant
            i <= items.len(),
            all == model::deep(items@),
            witness_read(value@) == rows_read(all),
            rows.len() == i,
            forall|j: int|
                0 <= j < i ==> codec::row_read(#[trigger] all[j]) == Some(rows@[j].deep_view()),
        decreases items.len() - i,
    {
        assert(all[i as int] == items@[i as int]@);
        let Some(row) = codec::row_from(&items[i]) else {
            assert(codec::row_read(all[i as int]) is None);
            return None;
        };
        assert(codec::row_read(all[i as int]) == Some(row.deep_view()));
        rows.push(row);
        i += 1;
    }
    assert(rows_read(all)->0 =~= rows.deep_view());
    Some(rows)
}

/// What was found of a witness's file.
pub enum WitnessFile {
    Absent,
    /// It could not be read.
    Failed(String),
    /// Its bytes are no value.
    Garbled,
    Value(CanonValue),
}

/// What came of looking for a witness.
pub enum WitnessLookup {
    Missing,
    Found(Vec<WitnessRow>),
    Refused(String),
}

impl WitnessFile {
    /// The rows that it holds.
    pub open spec fn held(self) -> Option<RowsV> {
        match self {
            WitnessFile::Value(v) => witness_read(v@),
            _ => None,
        }
    }

    /// The rows that it holds.
    pub fn rows(&self) -> (r: Option<Vec<WitnessRow>>)
        ensures
            r.deep_view() == self.held(),
    {
        match self {
            WitnessFile::Value(v) => witness_rows(v),
            _ => None,
        }
    }
}

/// Rows and the file beside them belong together: its shape is theirs, and its
/// names are those of the derivations that they wrote.
pub open spec fn belong(rows: RowsV, shape: Seq<u8>, sidecar: Option<Seq<char>>) -> bool {
    sidecar matches Some(t) && metadata_read(t) == Some(
        (digest::hex(shape), refs(rows, rows.len() as int)),
    )
}

/// What is said of a witness that could not be read.
pub open spec fn unreadable(identity: Seq<u8>, source: Seq<char>) -> Seq<char> {
    "evaluation witness "@ + digest::hex(identity) + " could not be read: "@ + source
}

/// What is said of a witness that is not what it should be.
pub open spec fn malformed(identity: Seq<u8>) -> Seq<char> {
    "evaluation witness "@ + digest::hex(identity) + " is malformed or has an unsupported format"@
}

/// What a witness's file comes to: nothing, its rows, or why it is refused.
pub open spec fn judged(
    identity: Seq<u8>,
    file: WitnessFile,
    shape: Option<Seq<u8>>,
    sidecar: Option<Seq<char>>,
) -> Result<Option<(RowsV, Seq<u8>)>, Seq<char>> {
    match file {
        WitnessFile::Absent => Ok(None),
        WitnessFile::Failed(source) => Err(unreadable(identity, source@)),
        _ => match (file.held(), shape) {
            (Some(rows), Some(s)) => if belong(rows, s, sidecar) {
                Ok(Some((rows, s)))
            } else {
                Err(malformed(identity))
            },
            _ => Err(malformed(identity)),
        },
    }
}

/// The directory in which witnesses are kept, by the names of its files.
pub struct DirWitness {
    pub root: String,
}

/// A shape of rows that were looked up.
pub type Shaped = (Vec<WitnessRow>, digest::Hash);

impl DirWitness {
    pub fn open(root: String) -> (r: DirWitness)
        ensures
            r.root@ == root@,
    {
        DirWitness { root }
    }

    /// The name of a witness's file.
    pub fn path(&self, identity: &EvalId) -> (r: String)
        ensures
            r@ == witness_path(self.root@, identity@),
    {
        let mut s = self.root.clone();
        s.append("/");
        s.append(identity.as_hash().to_hex().as_str());
        s
    }

    /// The name of the file beside a witness.
    pub fn refs_path(&self, identity: &EvalId) -> (r: String)
        ensures
            r@ == sidecar_path(self.root@, identity@),
    {
        let mut s = self.path(identity);
        s.append(REFS_SUFFIX);
        s
    }

    /// What a witness's file comes to, with the shape of the rows that it
    /// holds and the file beside it.
    pub fn get_with_shape(
        identity: &EvalId,
        file: &WitnessFile,
        shape: &Option<digest::Hash>,
        sidecar: &Option<String>,
    ) -> (r: Result<Option<Shaped>, String>)
        ensures
            model::outcome(r) == judged(
                identity@,
                *file,
                shape.deep_view(),
                sidecar.deep_view(),
            ),
    {
        let id = identity.as_hash().to_hex();
        let mut said = "evaluation witness ".to_owned();
        said.append(id.as_str());
        match file {
            WitnessFile::Absent => {
                return Ok(None);
            },
            WitnessFile::Failed(source) => {
                said.append(" could not be read: ");
                said.append(source.as_str());
                assert(said@ =~= unreadable(identity@, source@));
                return Err(said);
            },
            _ => {},
        }
        if let Some(rows) = file.rows() {
            if let Some(shape) = shape {
                if let Some(t) = sidecar {
                    if let Some((old, names)) = witness_metadata(t.as_str()) {
                        let want = refs_of(&rows);
                        proof {
                            model::deep_texts(&want.items);
                            model::deep_texts(&names);
                            assert(rows.deep_view().len() == rows@.len());
                        }
                        let same_shape = text::same(old.as_str(), shape.to_hex().as_str());
                        let same_names = names.same(&want.items);
                        if same_shape && same_names {
                            return Ok(Some((rows, *shape)));
                        }
                    }
                }
            }
        }
        said.append(" is malformed or has an unsupported format");
        assert(said@ =~= malformed(identity@));
        Err(said)
    }

    /// What came of looking for a witness.
    pub fn get(
        identity: &EvalId,
        file: &WitnessFile,
        shape: &Option<digest::Hash>,
        sidecar: &Option<String>,
    ) -> (r: WitnessLookup)
        ensures
            match judged(identity@, *file, shape.deep_view(), sidecar.deep_view()) {
                Ok(None) => r is Missing,
                Ok(Some((rows, _))) => r matches WitnessLookup::Found(v) && v.deep_view() == rows,
                Err(reason) => r matches WitnessLookup::Refused(s) && s@ == reason,
            },
    {
        match DirWitness::get_with_shape(identity, file, shape, sidecar) {
            Ok(None) => WitnessLookup::Missing,
            Ok(Some((rows, _))) => WitnessLookup::Found(rows),
            Err(reason) => WitnessLookup::Refused(reason),
        }
    }
}

/// The name of a witness's file.
pub open spec fn witness_path(root: Seq<char>, identity: Seq<u8>) -> Seq<char> {
    root + "/"@ + digest::hex(identity)
}

/// The name of the file beside a witness.
pub open spec fn sidecar_path(root: Seq<char>, identity: Seq<u8>) -> Seq<char> {
    witness_path(root, identity) + REFS_SUFFIX@
}

proof fn refs_are_hash_texts(rows: RowsV, n: int)
    requires
        0 <= n <= rows.len(),
        forall|i: int| 0 <= i < rows.len() ==> row_keeps(#[trigger] rows[i]),
    ensures
        forall|i: int| 0 <= i < refs(rows, n).len() ==> hash_text(#[trigger] refs(rows, n)[i]),
    decreases n,
{
    if n > 0 {
        refs_are_hash_texts(rows, n - 1);
        assert(row_keeps(rows[n - 1]));
        if let QuestionV::WriteDrv { name, answer, aterm } = rows[n - 1].0 {
            hex_is_hash_text(aterm);
            included_only(refs(rows, n - 1), digest::hex(aterm));
        }
    }
}

proof fn included_only(s: Seq<Seq<char>>, t: Seq<char>)
    requires
        hash_text(t),
        forall|i: int| 0 <= i < s.len() ==> hash_text(#[trigger] s[i]),
    ensures
        forall|i: int|
            0 <= i < ordered::included(s, t).len() ==> hash_text(
                #[trigger] ordered::included(s, t)[i],
            ),
    decreases s.len(),
{
    let r = ordered::included(s, t);
    if s.len() > 0 && s[0] != t && !text::lt(t, s[0]) {
        let rest = s.drop_first();
        assert forall|i: int| 0 <= i < rest.len() implies hash_text(#[trigger] rest[i]) by {
            assert(rest[i] == s[i + 1]);
        }
        included_only(rest, t);
        assert forall|i: int| 0 <= i < r.len() implies hash_text(#[trigger] r[i]) by {
            if i > 0 {
                assert(r[i] == ordered::included(rest, t)[i - 1]);
            }
        }
    } else if s.len() > 0 && s[0] != t {
        assert forall|i: int| 0 <= i < r.len() implies hash_text(#[trigger] r[i]) by {
            if i > 0 {
                assert(r[i] == s[i - 1]);
            }
        }
    }
}

/// The file beside a witness is read back with the names of what its rows wrote.
pub proof fn sidecar_reads_back(rows: RowsV, shape: Seq<u8>)
    requires
        shape.len() == 32,
        forall|i: int| 0 <= i < rows.len() ==> row_keeps(#[trigger] rows[i]),
    ensures
        metadata_read(metadata_written(shape, refs(rows, rows.len() as int))) == Some(
            (digest::hex(shape), refs(rows, rows.len() as int)),
        ),
{
    refs_are_hash_texts(rows, rows.len() as int);
    metadata_reads_back(shape, refs(rows, rows.len() as int));
}

/// A witness that was put, with the file beside it, is found as it was put.
pub proof fn a_put_witness_is_found(identity: Seq<u8>, rows: RowsV, shape: Seq<u8>, v: CanonValue)
    requires
        shape.len() == 32,
        forall|i: int| 0 <= i < rows.len() ==> row_keeps(#[trigger] rows[i]),
        v@ == witness_written(rows),
    ensures
        judged(
            identity,
            WitnessFile::Value(v),
            Some(shape),
            Some(metadata_written(shape, refs(rows, rows.len() as int))),
        ) == Ok::<Option<(RowsV, Seq<u8>)>, Seq<char>>(Some((rows, shape))),
{
    witness_round_trips(rows);
    sidecar_reads_back(rows, shape);
}

/// A shape names the hashes of all its rows, in their order.
pub proof fn shapes_tell_rows_apart(a: Seq<Seq<u8>>, b: Seq<Seq<u8>>)
    requires
        shape(a) == shape(b),
    ensures
        a == b,
{
    let x = shape(a).parts;
    let y = shape(b).parts;
    assert(x.len() == a.len() && y.len() == b.len());
    assert forall|i: int| 0 <= i < a.len() implies a[i] == b[i] by {
        assert(x[i] == PartV::Bytes(a[i]));
        assert(y[i] == PartV::Bytes(b[i]));
    }
    assert(a =~= b);
}

/// What is named beside a witness is each derivation that its rows wrote, and
/// nothing else, in order.
pub proof fn what_is_named_beside_a_witness(rows: RowsV, n: int, name: Seq<char>)
    requires
        0 <= n <= rows.len(),
    ensures
        refs(rows, n).contains(name) == (exists|i: int|
            0 <= i < n && ((#[trigger] rows[i]).0 matches QuestionV::WriteDrv {
                name: _,
                answer: _,
                aterm,
            } && digest::hex(aterm) == name)),
        text::sorted(refs(rows, n)),
    decreases n,
{
    if n > 0 {
        what_is_named_beside_a_witness(rows, n - 1, name);
        if let QuestionV::WriteDrv { name: _, answer: _, aterm } = rows[n - 1].0 {
            ordered::add_sorted(refs(rows, n - 1), digest::hex(aterm));
            included_has(refs(rows, n - 1), digest::hex(aterm), name);
        }
    }
}

proof fn included_has(s: Seq<Seq<char>>, t: Seq<char>, x: Seq<char>)
    requires
        text::sorted(s),
    ensures
        ordered::included(s, t).contains(x) == (s.contains(x) || x == t),
{
    ordered::add_sorted(s, t);
}

/// A witness is found only where its file holds its rows and the file beside
/// it names their shape and exactly the derivations that they wrote; there is
/// none only where there is no file; all else is refused.
pub proof fn when_a_witness_is_found(
    identity: Seq<u8>,
    file: WitnessFile,
    shape: Option<Seq<u8>>,
    sidecar: Option<Seq<char>>,
)
    ensures
        judged(identity, file, shape, sidecar) matches Ok(None) <==> file is Absent,
        judged(identity, file, shape, sidecar) matches Ok(Some((rows, s))) ==> {
            &&& file matches WitnessFile::Value(v) && witness_read(v@) == Some(rows)
            &&& shape == Some(s)
            &&& sidecar matches Some(t) && (metadata_read(t) matches Some(m) && m.0 == digest::hex(
                s,
            ) && m.1 == refs(rows, rows.len() as int))
        },
        file is Failed || file is Garbled || (!(file is Absent) && sidecar is None)
            ==> judged(identity, file, shape, sidecar) is Err,
{
}

proof fn suffix_is_something()
    ensures
        REFS_SUFFIX@.len() > 0,
{
    reveal_strlit(".refs");
}

/// No two witnesses have one file, and none has that which stands beside
/// another.
pub proof fn files_are_apart(root: Seq<char>, a: Seq<u8>, b: Seq<u8>)
    ensures
        witness_path(root, a) == witness_path(root, b) ==> a == b,
        sidecar_path(root, a) == sidecar_path(root, b) ==> a == b,
        a.len() == b.len() ==> witness_path(root, a) != sidecar_path(root, b),
{
    let x = root + "/"@;
    let p = witness_path(root, a);
    let q = witness_path(root, b);
    reveal_strlit("/");
    assert(p.skip(x.len() as int) =~= digest::hex(a));
    assert(q.skip(x.len() as int) =~= digest::hex(b));
    if p == q {
        digest::hex_injective(a, b);
    }
    let s = sidecar_path(root, a);
    let t = sidecar_path(root, b);
    if s == t {
        assert(p.len() == q.len());
        assert(s.take(p.len() as int) =~= p);
        assert(t.take(q.len() as int) =~= q);
        digest::hex_injective(a, b);
    }
    if a.len() == b.len() {
        hex_is_hash_text(a);
        hex_is_hash_text(b);
        suffix_is_something();
        assert(p.len() == q.len());
        assert(t.len() == q.len() + REFS_SUFFIX@.len());
    }
}

/// What is read beside a witness begins with the line that says what it is, and
/// all its other lines, of which there is one at least, are hashes: that of the
/// shape, and then the names.
pub proof fn what_is_read_beside_a_witness(t: Seq<char>, shape: Seq<char>, names: Seq<Seq<char>>)
    requires
        metadata_read(t) == Some((shape, names)),
    ensures
        lines(t).len() == names.len() + 2,
        lines(t)[0] == "ixe-witness-meta-v1"@,
        lines(t)[1] == shape,
        forall|i: int| 0 <= i < names.len() ==> #[trigger] names[i] == lines(t)[i + 2],
        shape.len() == 64,
        forall|i: int| 0 <= i < names.len() ==> (#[trigger] names[i]).len() == 64,
{
    let l = lines(t);
    assert(hash_text(l[1]));
    assert forall|i: int| 0 <= i < names.len() implies (#[trigger] names[i]).len() == 64 by {
        assert(hash_text(l[i + 2]));
    }
}

/// A witness is read only from a table that says that it is one.
pub proof fn what_is_read_as_a_witness(v: CanonV, rows: RowsV)
    requires
        witness_read(v) == Some(rows),
    ensures
        v matches CanonV::Table(t) && (exists|i: int|
            0 <= i < t.len() && #[trigger] t[i] == (
                CanonV::Str("format"@),
                CanonV::Str(WITNESS_FORMAT@),
            )) && (table::list_field(t, "rows"@) matches Some(items) && items.len() == rows.len()
            && forall|i: int|
            0 <= i < items.len() ==> codec::row_read(#[trigger] items[i]) == Some(rows[i])),
{
    let t = v->Table_0;
    let items = table::list_field(t, "rows"@)->0;
    assert forall|i: int| 0 <= i < items.len() implies codec::row_read(#[trigger] items[i]) == Some(
        rows[i],
    ) by {
        assert(codec::row_read(items[i]) is Some);
    }
}

} // verus!
