//! Witnesses kept in memory, within a limit of entries and of bytes.
use vstd::prelude::*;
use vstd::layout;
use std::rc::Rc;
use crate::digest;
use crate::digest::{WriteDrvAnswer, WriteDrvAnswerV};
use crate::model::Plain;
use crate::ordered::TextMap;
use crate::question::{Question, QuestionV, Recorded, RecordedV, WitnessRow};
use crate::readset::EvalId;
use crate::task::{
    AcceptedPath,
    AcceptedPathV,
    FetchRequest,
    FetchTreeRequest,
    FilteredCopy,
    SearchPathEntry,
    SearchPathEntryV,
    TreeAttr,
    TreeAttrV,
};
use crate::text;
use crate::validity::RowsV;
use crate::value::{ContextElem, ContextElemV, PathValue, PathValueV, Root, RootV};

verus! {

/// `Rc::clone`: another handle on the same rows.
#[verifier::external_body]
pub(crate) fn share(rows: &Rc<Vec<WitnessRow>>) -> (r: Rc<Vec<WitnessRow>>)
    ensures
        r == *rows,
{
    Rc::clone(rows)
}

/// `Rc::ptr_eq`: whether two handles are on one allocation, which holds the
/// same rows for both. On two allocations it says nothing of the rows.
#[verifier::external_body]
fn same_allocation(a: &Rc<Vec<WitnessRow>>, b: &Rc<Vec<WitnessRow>>) -> (r: bool)
    ensures
        r ==> *a == *b,
{
    Rc::ptr_eq(a, b)
}

/// `String::capacity`, in bytes: room for the text, and no more than the
/// `isize::MAX` bytes that an allocation can have. How much more than the text
/// takes is the allocator's to say.
#[verifier::external_body]
fn string_capacity(s: &String) -> (n: usize)
    ensures
        text::utf8(s@).len() <= n <= isize::MAX,
{
    s.capacity()
}

/// `Vec::capacity`: room for the elements, and no more than the `isize::MAX`
/// bytes that an allocation can have. How many more than the elements is the
/// allocator's to say.
#[verifier::external_body]
fn vec_capacity<T>(v: &Vec<T>) -> (n: usize)
    ensures
        v@.len() <= n,
        n * layout::size_of::<T>() <= isize::MAX,
{
    v.capacity()
}

/// A number of bytes, as far as it can be counted.
pub open spec fn capped(n: nat) -> u64 {
    if n > u64::MAX {
        u64::MAX
    } else {
        n as u64
    }
}

/// All of the numbers together.
pub open spec fn total(values: Seq<u64>) -> nat
    decreases values.len(),
{
    if values.len() == 0 {
        0
    } else {
        total(values.drop_last()) + values.last() as nat
    }
}

pub fn count(value: usize) -> (r: u64)
    ensures
        r == value,
{
    value as u64
}

/// The sum of the numbers, as far as it can be counted.
pub fn sum(values: &[u64]) -> (r: u64)
    ensures
        r == capped(total(values@)),
{
    let mut r: u64 = 0;
    let mut i: usize = 0;
    while i < values.len()
        invariant
            i <= values.len(),
            r == capped(total(values@.take(i as int))),
        decreases values.len() - i,
    {
        proof {
            assert(values@.take(i + 1).drop_last() =~= values@.take(i as int));
            assert(values@.take(i + 1).last() == values@[i as int]);
        }
        r = r.saturating_add(values[i]);
        i += 1;
    }
    assert(values@.take(i as int) =~= values@);
    r
}

/// A product, as far as it can be counted.
fn product(a: usize, b: usize) -> (r: u64)
    ensures
        r == capped((a * b) as nat),
{
    proof {
        let c = a as int;
        let n = b as int;
        assert(0 <= c * n <= 0xffff_ffff_ffff_ffff * 0xffff_ffff_ffff_ffff) by (nonlinear_arith)
            requires
                0 <= c <= 0xffff_ffff_ffff_ffff,
                0 <= n <= 0xffff_ffff_ffff_ffff,
        ;
    }
    let wide = a as u128 * b as u128;
    if wide > u64::MAX as u128 {
        u64::MAX
    } else {
        wide as u64
    }
}

/// What room for that many elements takes.
pub fn allocation<T>(capacity: usize) -> (r: u64)
    ensures
        r == capped((capacity * layout::size_of::<T>()) as nat),
{
    product(capacity, core::mem::size_of::<T>())
}

/// What a shared allocation of that payload takes, with its counts and length.
pub open spec fn rc_size(payload: nat) -> nat {
    payload + 3 * layout::size_of::<usize>()
}

/// What a shared allocation of that payload takes.
pub fn rc_bytes(payload: u64) -> (r: u64)
    ensures
        r == capped(rc_size(payload as nat)),
{
    let head = allocation::<usize>(3);
    payload.saturating_add(head)
}

/// The room of a text or a list: how many elements it has room for, and what
/// each takes.
#[derive(Clone, Copy, Debug, PartialEq, Eq, Structural)]
pub struct Place {
    pub unit: usize,
    pub room: usize,
}

/// What a text or a list needs room for: its elements, and what each takes.
#[verifier::ext_equal]
pub struct Need {
    pub unit: nat,
    pub least: nat,
}

/// The room that was drawn for what is needed: enough for it, and no more than
/// an allocation can have.
pub open spec fn place_fits(p: Place, n: Need) -> bool {
    &&& p.unit == n.unit
    &&& n.least <= p.room
    &&& p.room * p.unit <= isize::MAX
}

/// A room was drawn for each need.
pub open spec fn fits(places: Seq<Place>, needs: Seq<Need>) -> bool {
    &&& places.len() == needs.len()
    &&& forall|i: int| 0 <= i < places.len() ==> place_fits(#[trigger] places[i], needs[i])
}

/// What the rooms take together.
pub open spec fn room_sum(places: Seq<Place>) -> nat
    decreases places.len(),
{
    if places.len() == 0 {
        0
    } else {
        (room_sum(places.drop_last()) + places.last().room * places.last().unit) as nat
    }
}

/// What is held whatever was drawn, and the rooms that were drawn.
#[derive(Debug, PartialEq, Eq)]
pub struct Room {
    pub held: u64,
    pub places: Vec<Place>,
}

/// What the room is charged.
pub fn charge(room: &Room) -> (r: u64)
    ensures
        r == capped((room.held + room_sum(room.places@)) as nat),
{
    let ghost all = room.places@;
    let mut r: u64 = room.held;
    let mut i: usize = 0;
    assert(room_sum(all.take(0)) == 0);
    while i < room.places.len()
        invariant
            i <= room.places.len(),
            all == room.places@,
            r == capped((room.held + room_sum(all.take(i as int))) as nat),
        decreases room.places.len() - i,
    {
        proof {
            assert(all.take(i + 1).drop_last() =~= all.take(i as int));
            assert(all.take(i + 1).last() == all[i as int]);
        }
        let one = product(room.places[i].room, room.places[i].unit);
        r = r.saturating_add(one);
        i += 1;
    }
    assert(all.take(i as int) =~= all);
    r
}

proof fn room_sum_joins(a: Seq<Place>, b: Seq<Place>)
    ensures
        room_sum(a + b) == room_sum(a) + room_sum(b),
    decreases b.len(),
{
    if b.len() == 0 {
        assert(a + b =~= a);
    } else {
        assert((a + b).drop_last() =~= a + b.drop_last());
        room_sum_joins(a, b.drop_last());
    }
}

proof fn fits_joins(a: Seq<Place>, x: Seq<Need>, b: Seq<Place>, y: Seq<Need>)
    requires
        fits(a, x),
        fits(b, y),
    ensures
        fits(a + b, x + y),
{
    assert forall|i: int| 0 <= i < (a + b).len() implies place_fits(
        #[trigger] (a + b)[i],
        (x + y)[i],
    ) by {
        if i < a.len() {
            assert(place_fits(a[i], x[i]));
        } else {
            assert(place_fits(b[i - a.len()], y[i - x.len()]));
        }
    }
}

fn text_len(value: &String) -> (r: u64)
    ensures
        r == text::utf8(value@).len(),
{
    let b = text::bytes(value.as_str());
    count(b.len())
}

/// What a text needs room for: its bytes.
pub open spec fn text_need(s: Seq<char>) -> Need {
    Need { unit: 1, least: text::utf8(s).len() }
}

/// What a list needs room for.
pub open spec fn list_need<T>(len: nat) -> Need {
    Need { unit: layout::size_of::<T>(), least: len }
}

/// The room of a text.
fn string_place(value: &String) -> (r: Place)
    ensures
        place_fits(r, text_need(value@)),
{
    Place { unit: 1, room: string_capacity(value) }
}

/// The room of a list.
fn list_place<T>(v: &Vec<T>) -> (r: Place)
    ensures
        place_fits(r, list_need::<T>(v@.len())),
{
    Place { unit: core::mem::size_of::<T>(), room: vec_capacity(v) }
}

/// What a text needs where there is one.
pub open spec fn optional_needs(value: Option<Seq<char>>) -> Seq<Need> {
    match value {
        Some(s) => seq![text_need(s)],
        None => Seq::empty(),
    }
}

fn optional_string_places(value: &Option<String>) -> (r: Vec<Place>)
    ensures
        fits(r@, optional_needs(value.deep_view())),
{
    let mut r: Vec<Place> = Vec::new();
    if let Some(s) = value {
        r.push(string_place(s));
    }
    r
}

/// What a path takes: itself, its text and its root's, each shared.
pub open spec fn path_size(p: PathValueV) -> nat {
    rc_size(layout::size_of::<PathValue>()) + rc_size(text::utf8(p.path).len()) + (match p.root {
        RootV::Ambient => 0,
        RootV::Mounted(root) => rc_size(text::utf8(root).len()),
    })
}

pub fn path_bytes(path: &PathValue) -> (r: u64)
    ensures
        r == capped(path_size(path@)),
{
    let itself = rc_bytes(count(core::mem::size_of::<PathValue>()));
    let name = rc_bytes(text_len(&path.path));
    let root = match &path.root {
        Root::Ambient => 0,
        Root::Mounted(root) => rc_bytes(text_len(root)),
    };
    itself.saturating_add(name).saturating_add(root)
}

/// What an attribute's value needs.
pub open spec fn attr_needs(a: TreeAttrV) -> Seq<Need> {
    match a {
        TreeAttrV::Str(value) => seq![text_need(value)],
        _ => Seq::empty(),
    }
}

/// What the first `n` attributes need.
pub open spec fn attrs_needs(attrs: Seq<(Seq<char>, TreeAttrV)>, n: int) -> Seq<Need>
    decreases n,
{
    if n <= 0 {
        Seq::empty()
    } else {
        attrs_needs(attrs, n - 1) + (seq![text_need(attrs[n - 1].0)] + attr_needs(attrs[n - 1].1))
    }
}

/// What attributes take beside their texts.
pub open spec fn attrs_held(attrs: Seq<(Seq<char>, TreeAttrV)>) -> nat {
    (attrs.len() * layout::size_of::<(String, TreeAttr)>()) as nat
}

fn tree_attrs_room(attrs: &TextMap<TreeAttr>) -> (r: Room)
    ensures
        r.held == capped(attrs_held(attrs@)),
        fits(r.places@, attrs_needs(attrs@, attrs@.len() as int)),
{
    let ghost all = attrs@;
    let mut places: Vec<Place> = Vec::new();
    let mut i: usize = 0;
    while i < attrs.entries.len()
        invariant
            i <= attrs.entries.len(),
            all == attrs@,
            all.len() == attrs.entries@.len(),
            fits(places@, attrs_needs(all, i as int)),
        decreases attrs.entries.len() - i,
    {
        assert(all[i as int] == attrs.entries@[i as int].deep_view());
        let mut more: Vec<Place> = Vec::new();
        more.push(string_place(&attrs.entries[i].0));
        if let TreeAttr::Str(value) = &attrs.entries[i].1 {
            more.push(string_place(value));
        }
        proof {
            let y = seq![text_need(all[i as int].0)] + attr_needs(all[i as int].1);
            assert(fits(more@, y));
            fits_joins(places@, attrs_needs(all, i as int), more@, y);
        }
        places.append(&mut more);
        i += 1;
    }
    Room { held: allocation::<(String, TreeAttr)>(attrs.entries.len()), places }
}

/// What the first `n` search path entries need.
pub open spec fn entries_needs(entries: Seq<SearchPathEntryV>, n: int) -> Seq<Need>
    decreases n,
{
    if n <= 0 {
        Seq::empty()
    } else {
        entries_needs(entries, n - 1) + seq![
            text_need(entries[n - 1].prefix),
            text_need(entries[n - 1].path),
        ]
    }
}

fn entries_places(entries: &Vec<SearchPathEntry>) -> (r: Vec<Place>)
    ensures
        fits(r@, entries_needs(entries.deep_view(), entries@.len() as int)),
{
    let ghost all = entries.deep_view();
    let mut r: Vec<Place> = Vec::new();
    let mut i: usize = 0;
    while i < entries.len()
        invariant
            i <= entries.len(),
            all == entries.deep_view(),
            fits(r@, entries_needs(all, i as int)),
        decreases entries.len() - i,
    {
        assert(all[i as int] == entries@[i as int]@);
        let mut more: Vec<Place> = Vec::new();
        more.push(string_place(&entries[i].prefix));
        more.push(string_place(&entries[i].path));
        proof {
            let y = seq![text_need(all[i as int].prefix), text_need(all[i as int].path)];
            assert(fits(more@, y));
            fits_joins(r@, entries_needs(all, i as int), more@, y);
        }
        r.append(&mut more);
        i += 1;
    }
    r
}

/// What texts need.
pub open spec fn texts_needs(v: Seq<Seq<char>>) -> Seq<Need> {
    Seq::new(v.len(), |i: int| text_need(v[i]))
}

fn texts_places(v: &Vec<String>) -> (r: Vec<Place>)
    ensures
        fits(r@, texts_needs(v.deep_view())),
{
    let mut r: Vec<Place> = Vec::new();
    let mut i: usize = 0;
    while i < v.len()
        invariant
            i <= v.len(),
            r@.len() == i,
            forall|j: int|
                0 <= j < i ==> place_fits(#[trigger] r@[j], text_need(v.deep_view()[j])),
        decreases v.len() - i,
    {
        assert(v.deep_view()[i as int] == v@[i as int]@);
        r.push(string_place(&v[i]));
        i += 1;
    }
    assert(v.deep_view().len() == v@.len());
    r
}

/// What the paths of accepted entries need.
pub open spec fn accepted_needs(v: Seq<AcceptedPathV>) -> Seq<Need> {
    Seq::new(v.len(), |i: int| text_need(v[i].path))
}

fn accepted_places(v: &Vec<AcceptedPath>) -> (r: Vec<Place>)
    ensures
        fits(r@, accepted_needs(v.deep_view())),
{
    let mut r: Vec<Place> = Vec::new();
    let mut i: usize = 0;
    while i < v.len()
        invariant
            i <= v.len(),
            r@.len() == i,
            forall|j: int|
                0 <= j < i ==> place_fits(#[trigger] r@[j], text_need(v.deep_view()[j].path)),
        decreases v.len() - i,
    {
        assert(v.deep_view()[i as int] == v@[i as int]@);
        r.push(string_place(&v[i].path));
        i += 1;
    }
    assert(v.deep_view().len() == v@.len());
    r
}

/// What an element of a context takes beside its place.
pub open spec fn elem_size(e: ContextElemV) -> nat {
    match e {
        ContextElemV::Opaque(path) => rc_size(text::utf8(path).len()),
        ContextElemV::DrvDeep(path) => rc_size(text::utf8(path).len()),
        ContextElemV::Built { drv, output } => rc_size(text::utf8(drv).len()) + rc_size(
            text::utf8(output).len(),
        ),
    }
}

/// What the first `n` elements take beside their places.
pub open spec fn elems_size(c: Seq<ContextElemV>, n: int) -> nat
    decreases n,
{
    if n <= 0 {
        0
    } else {
        elems_size(c, n - 1) + elem_size(c[n - 1])
    }
}

fn elems_bytes(c: &Vec<ContextElem>) -> (r: u64)
    ensures
        r == capped(elems_size(c.deep_view(), c@.len() as int)),
{
    let mut r: u64 = 0;
    let mut i: usize = 0;
    while i < c.len()
        invariant
            i <= c.len(),
            r == capped(elems_size(c.deep_view(), i as int)),
        decreases c.len() - i,
    {
        assert(c.deep_view()[i as int] == c@[i as int]@);
        let one = match &c[i] {
            ContextElem::Opaque(path) => rc_bytes(text_len(path)),
            ContextElem::DrvDeep(path) => rc_bytes(text_len(path)),
            ContextElem::Built { drv, output } => {
                let d = rc_bytes(text_len(drv));
                let o = rc_bytes(text_len(output));
                d.saturating_add(o)
            },
        };
        r = r.saturating_add(one);
        i += 1;
    }
    r
}

/// What the answer to a derivation's writing needs.
pub open spec fn answer_needs(answer: WriteDrvAnswerV) -> Seq<Need> {
    match answer {
        WriteDrvAnswerV::Written(path) => seq![text_need(path)],
        WriteDrvAnswerV::Failed { outcome, detail } => seq![text_need(outcome), text_need(detail)],
    }
}

/// What the texts and lists of a question need room for.
pub open spec fn question_needs(q: QuestionV) -> Seq<Need> {
    match q {
        QuestionV::GetEnv(s) => seq![text_need(s)],
        QuestionV::EnsurePath(s) => seq![text_need(s)],
        QuestionV::LockFlake(s) => seq![text_need(s)],
        QuestionV::ParseFlakeRef(s) => seq![text_need(s)],
        QuestionV::FindFile { entries, name } => seq![
            list_need::<SearchPathEntry>(entries.len()),
            text_need(name),
        ] + entries_needs(entries, entries.len() as int),
        QuestionV::StoreText { name, contents, references } => seq![
            text_need(name),
            text_need(contents),
            list_need::<String>(references.len()),
        ] + texts_needs(references),
        QuestionV::WriteDrv { name, answer, aterm } => seq![text_need(name)] + answer_needs(answer),
        QuestionV::Realise(context) => seq![list_need::<ContextElem>(context.len())],
        QuestionV::StoreFiltered(r) => seq![text_need(r.name)] + optional_needs(r.expected_sha256)
            + (match r.accepted {
            None => Seq::empty(),
            Some(list) => seq![list_need::<AcceptedPath>(list.len())] + accepted_needs(list),
        }),
        QuestionV::Fetch(r) => seq![text_need(r.url), text_need(r.name)] + optional_needs(
            r.expected_sha256,
        ),
        QuestionV::FetchTree(r) => attrs_needs(r.attrs, r.attrs.len() as int),
        QuestionV::FlakeRefToString(attrs) => attrs_needs(attrs, attrs.len() as int),
        _ => Seq::empty(),
    }
}

/// What a question takes on the heap beside its texts and lists.
pub open spec fn question_held(q: QuestionV) -> nat {
    match q {
        QuestionV::Import(p) => path_size(p),
        QuestionV::ReadFile(p) => path_size(p),
        QuestionV::ReadFileBytes(p) => path_size(p),
        QuestionV::ReadDir(p) => path_size(p),
        QuestionV::PathExists(p) => path_size(p),
        QuestionV::DirExists(p) => path_size(p),
        QuestionV::FileType(p) => path_size(p),
        QuestionV::FileTypeResolved(p) => path_size(p),
        QuestionV::CopyToStore(p) => path_size(p),
        QuestionV::StorePath(p) => path_size(p),
        QuestionV::Tree(p) => path_size(p),
        QuestionV::Realise(context) => elems_size(context, context.len() as int),
        QuestionV::StoreFiltered(r) => layout::size_of::<FilteredCopy>() + path_size(r.root),
        QuestionV::Fetch(r) => layout::size_of::<FetchRequest>(),
        QuestionV::FetchTree(r) => layout::size_of::<FetchTreeRequest>() + attrs_held(r.attrs),
        QuestionV::FlakeRefToString(attrs) => attrs_held(attrs),
        _ => 0,
    }
}

/// What is charged for what is held and the rooms that were drawn.
pub open spec fn charged_for(held: nat, places: Seq<Place>) -> u64 {
    capped(held + room_sum(places))
}

fn held_only(held: u64) -> (r: Room)
    ensures
        r.held == held,
        fits(r.places@, Seq::empty()),
{
    Room { held, places: Vec::new() }
}

fn text_room(value: &String) -> (r: Room)
    ensures
        r.held == 0,
        fits(r.places@, seq![text_need(value@)]),
{
    let mut places: Vec<Place> = Vec::new();
    places.push(string_place(value));
    Room { held: 0, places }
}

fn find_file_room(entries: &Vec<SearchPathEntry>, name: &String) -> (r: Room)
    ensures
        r.held == 0,
        fits(
            r.places@,
            question_needs(QuestionV::FindFile { entries: entries.deep_view(), name: name@ }),
        ),
{
    let mut places: Vec<Place> = Vec::new();
    places.push(list_place(entries));
    places.push(string_place(name));
    let mut more = entries_places(entries);
    proof {
        assert(entries.deep_view().len() == entries@.len());
        let x = seq![list_need::<SearchPathEntry>(entries@.len()), text_need(name@)];
        assert(fits(places@, x));
        fits_joins(
            places@,
            x,
            more@,
            entries_needs(entries.deep_view(), entries@.len() as int),
        );
    }
    places.append(&mut more);
    Room { held: 0, places }
}

fn store_text_room(name: &String, contents: &String, references: &Vec<String>) -> (r: Room)
    ensures
        r.held == 0,
        fits(
            r.places@,
            question_needs(
                QuestionV::StoreText {
                    name: name@,
                    contents: contents@,
                    references: references.deep_view(),
                },
            ),
        ),
{
    let mut places: Vec<Place> = Vec::new();
    places.push(string_place(name));
    places.push(string_place(contents));
    places.push(list_place(references));
    let mut more = texts_places(references);
    proof {
        assert(references.deep_view().len() == references@.len());
        let x = seq![
            text_need(name@),
            text_need(contents@),
            list_need::<String>(references@.len()),
        ];
        assert(fits(places@, x));
        fits_joins(places@, x, more@, texts_needs(references.deep_view()));
    }
    places.append(&mut more);
    Room { held: 0, places }
}

fn write_drv_room(name: &String, answer: &WriteDrvAnswer) -> (r: Room)
    ensures
        r.held == 0,
        fits(r.places@, seq![text_need(name@)] + answer_needs(answer@)),
{
    let mut places: Vec<Place> = Vec::new();
    places.push(string_place(name));
    match answer {
        WriteDrvAnswer::Written(path) => {
            places.push(string_place(path));
        },
        WriteDrvAnswer::Failed { outcome, detail } => {
            places.push(string_place(outcome));
            places.push(string_place(detail));
        },
    }
    Room { held: 0, places }
}

fn fetch_room(request: &FetchRequest) -> (r: Room)
    ensures
        r.held == question_held(QuestionV::Fetch(request@)),
        fits(r.places@, question_needs(QuestionV::Fetch(request@))),
{
    let mut places: Vec<Place> = Vec::new();
    places.push(string_place(&request.url));
    places.push(string_place(&request.name));
    let mut more = optional_string_places(&request.expected_sha256);
    proof {
        let x = seq![text_need(request.url@), text_need(request.name@)];
        assert(fits(places@, x));
        fits_joins(places@, x, more@, optional_needs(request@.expected_sha256));
    }
    places.append(&mut more);
    Room { held: count(core::mem::size_of::<FetchRequest>()), places }
}

fn filtered_room(request: &FilteredCopy) -> (r: Room)
    ensures
        r.held == capped(question_held(QuestionV::StoreFiltered(request@))),
        fits(r.places@, question_needs(QuestionV::StoreFiltered(request@))),
{
    let itself = count(core::mem::size_of::<FilteredCopy>());
    let root = path_bytes(&request.root);
    let mut places: Vec<Place> = Vec::new();
    places.push(string_place(&request.name));
    let mut pin = optional_string_places(&request.expected_sha256);
    let ghost x = seq![text_need(request.name@)];
    let ghost y = optional_needs(request@.expected_sha256);
    proof {
        assert(fits(places@, x));
        fits_joins(places@, x, pin@, y);
    }
    places.append(&mut pin);
    match &request.accepted {
        None => {
            assert(x + y + Seq::<Need>::empty() =~= x + y);
        },
        Some(list) => {
            let mut all: Vec<Place> = Vec::new();
            all.push(list_place(list));
            let mut more = accepted_places(list);
            proof {
                assert(list.deep_view().len() == list@.len());
                let a = seq![list_need::<AcceptedPath>(list@.len())];
                assert(fits(all@, a));
                fits_joins(all@, a, more@, accepted_needs(list.deep_view()));
                fits_joins(places@, x + y, all@ + more@, a + accepted_needs(list.deep_view()));
            }
            all.append(&mut more);
            places.append(&mut all);
        },
    }
    Room { held: itself.saturating_add(root), places }
}

/// What a question holds, and the rooms that its texts and lists have.
#[verifier::rlimit(60)]
pub fn question_room(question: &Question) -> (r: Room)
    ensures
        r.held == capped(question_held(question@)),
        fits(r.places@, question_needs(question@)),
{
    match question {
        Question::Import(path) => held_only(path_bytes(path)),
        Question::ReadFile(path) => held_only(path_bytes(path)),
        Question::ReadFileBytes(path) => held_only(path_bytes(path)),
        Question::ReadDir(path) => held_only(path_bytes(path)),
        Question::PathExists(path) => held_only(path_bytes(path)),
        Question::DirExists(path) => held_only(path_bytes(path)),
        Question::FileType(path) => held_only(path_bytes(path)),
        Question::FileTypeResolved(path) => held_only(path_bytes(path)),
        Question::CopyToStore(path) => held_only(path_bytes(path)),
        Question::StorePath(path) => held_only(path_bytes(path)),
        Question::Tree(path) => held_only(path_bytes(path)),
        Question::GetEnv(value) => text_room(value),
        Question::EnsurePath(value) => text_room(value),
        Question::LockFlake(value) => text_room(value),
        Question::ParseFlakeRef(value) => text_room(value),
        Question::FindFile { entries, name } => find_file_room(entries, name),
        Question::NixPath => held_only(0),
        Question::StoreText { name, contents, references } => store_text_room(
            name,
            contents,
            references,
        ),
        Question::WriteDrv { name, answer, aterm } => write_drv_room(name, answer),
        Question::Realise(context) => {
            assert(context.deep_view().len() == context@.len());
            let mut places: Vec<Place> = Vec::new();
            places.push(list_place(context));
            Room { held: elems_bytes(context), places }
        },
        Question::StoreFiltered(request) => filtered_room(request),
        Question::Fetch(request) => fetch_room(request),
        Question::FetchTree(request) => {
            let itself = count(core::mem::size_of::<FetchTreeRequest>());
            let attrs = tree_attrs_room(&request.attrs);
            Room { held: itself.saturating_add(attrs.held), places: attrs.places }
        },
        Question::FlakeRefToString(attrs) => tree_attrs_room(attrs),
    }
}

/// What a question takes on the heap: what it holds, and as much as its texts
/// and lists have room for. One without texts or lists of its own is charged
/// what it holds.
pub fn question_bytes(question: &Question) -> (r: u64)
    ensures
        exists|places: Seq<Place>| #[trigger]
            fits(places, question_needs(question@)) && r == charged_for(
                question_held(question@),
                places,
            ),
        question_needs(question@).len() == 0 ==> r == capped(question_held(question@)),
{
    let room = question_room(question);
    let r = charge(&room);
    proof {
        assert(fits(room.places@, question_needs(question@)));
        assert(r == charged_for(question_held(question@), room.places@));
    }
    r
}

/// A witness that is kept: its rows, their shape and the slot they came from.
#[derive(Debug)]
pub struct Entry {
    pub rows: Rc<Vec<WitnessRow>>,
    pub shape: digest::Hash,
    pub slot: usize,
}

/// The model of [`Entry`].
#[verifier::ext_equal]
pub struct EntryV {
    pub rows: RowsV,
    pub shape: Seq<u8>,
    pub slot: usize,
}

impl View for Entry {
    type V = EntryV;

    open spec fn view(&self) -> EntryV {
        EntryV { rows: self.rows.deep_view(), shape: self.shape@, slot: self.slot }
    }
}

impl DeepView for Entry {
    type V = EntryV;

    open spec fn deep_view(&self) -> EntryV {
        self@
    }
}

impl Clone for Entry {
    fn clone(&self) -> (r: Self)
        ensures
            r@ == self@,
    {
        Entry { rows: share(&self.rows), shape: self.shape, slot: self.slot }
    }
}

/// What was counted.
#[derive(Clone, Copy, Debug, PartialEq, Eq, Structural)]
pub struct Stats {
    pub memory_hits: u64,
    pub disk_loads: u64,
    pub retained_bytes: u64,
    pub entries: u64,
    pub evictions: u64,
}

impl Default for Stats {
    fn default() -> (r: Self)
        ensures
            r == (Stats {
                memory_hits: 0,
                disk_loads: 0,
                retained_bytes: 0,
                entries: 0,
                evictions: 0,
            }),
    {
        Stats { memory_hits: 0, disk_loads: 0, retained_bytes: 0, entries: 0, evictions: 0 }
    }
}

/// An entry with the store and the evaluation it is of, and what it is charged.
#[derive(Debug)]
pub struct Cached {
    pub store: String,
    pub identity: EvalId,
    pub entry: Entry,
    pub bytes: u64,
}

/// The model of [`Cached`].
#[verifier::ext_equal]
pub struct CachedV {
    pub store: Seq<char>,
    pub identity: Seq<u8>,
    pub entry: EntryV,
    pub bytes: u64,
}

impl View for Cached {
    type V = CachedV;

    open spec fn view(&self) -> CachedV {
        CachedV {
            store: self.store@,
            identity: self.identity@,
            entry: self.entry@,
            bytes: self.bytes,
        }
    }
}

impl DeepView for Cached {
    type V = CachedV;

    open spec fn deep_view(&self) -> CachedV {
        self@
    }
}

/// What is recorded of an answer needs.
pub open spec fn recorded_needs(r: RecordedV) -> Seq<Need> {
    match r {
        RecordedV::Digest(_) => Seq::empty(),
        RecordedV::Answer(t) => seq![text_need(t)],
    }
}

/// What the texts and lists of the first `n` rows need room for.
pub open spec fn rows_needs(rows: RowsV, n: int) -> Seq<Need>
    decreases n,
{
    if n <= 0 {
        Seq::empty()
    } else {
        rows_needs(rows, n - 1) + (question_needs(rows[n - 1].0) + recorded_needs(rows[n - 1].1))
    }
}

/// What the first `n` rows take on the heap beside their texts and lists.
pub open spec fn rows_held(rows: RowsV, n: int) -> nat
    decreases n,
{
    if n <= 0 {
        0
    } else {
        rows_held(rows, n - 1) + question_held(rows[n - 1].0)
    }
}

/// What the texts and lists of an entry need room for.
pub open spec fn entry_needs(store: Seq<char>, rows: RowsV) -> Seq<Need> {
    seq![text_need(store), list_need::<WitnessRow>(rows.len())] + rows_needs(
        rows,
        rows.len() as int,
    )
}

/// What an entry takes beside its texts and lists.
pub open spec fn entry_held(rows: RowsV) -> nat {
    layout::size_of::<Cached>() + rc_size(layout::size_of::<Vec<WitnessRow>>()) + rows_held(
        rows,
        rows.len() as int,
    )
}

/// A charge of an entry: what it holds, and the rooms that were drawn for it.
pub open spec fn entry_charge(rows: RowsV, places: Seq<Place>) -> u64 {
    charged_for(entry_held(rows), places)
}

/// A row's charge.
fn row_bytes(row: &WitnessRow) -> (r: u64)
    ensures
        exists|places: Seq<Place>| #[trigger]
            fits(places, question_needs(row.0@) + recorded_needs(row.1@)) && r == charged_for(
                question_held(row.0@),
                places,
            ),
{
    let room = question_room(&row.0);
    let ghost asked = room.places@;
    let ghost needs = question_needs(row.0@);
    let mut places = room.places;
    let ghost mut answered = Seq::<Place>::empty();
    if let Recorded::Answer(value) = &row.1 {
        let p = string_place(value);
        proof {
            answered = seq![p];
        }
        places.push(p);
    }
    assert(fits(answered, recorded_needs(row.1@)));
    assert(places@ =~= asked + answered);
    let all = Room { held: room.held, places };
    let r = charge(&all);
    proof {
        fits_joins(asked, needs, answered, recorded_needs(row.1@));
        assert(fits(all.places@, needs + recorded_needs(row.1@)));
        assert(r == charged_for(question_held(row.0@), all.places@));
    }
    r
}

/// What an entry is charged: all that it holds, with the room that is not used.
pub fn entry_bytes(store: &String, entry: &Entry) -> (r: u64)
    ensures
        exists|places: Seq<Place>| #[trigger]
            fits(places, entry_needs(store@, entry@.rows)) && r == entry_charge(entry@.rows, places),
{
    let ghost rows = entry@.rows;
    let itself = count(core::mem::size_of::<Cached>());
    let list = rc_bytes(count(core::mem::size_of::<Vec<WitnessRow>>()));
    let mut places: Vec<Place> = Vec::new();
    places.push(string_place(store));
    places.push(list_place(&*entry.rows));
    assert(rows.len() == entry.rows@.len());
    let ghost head = seq![text_need(store@), list_need::<WitnessRow>(rows.len())];
    assert(fits(places@, head));
    let ghost base = (layout::size_of::<Cached>() + rc_size(layout::size_of::<Vec<WitnessRow>>()))
        as nat;
    let room = Room { held: itself.saturating_add(list), places };
    let mut r = charge(&room);
    let ghost mut drawn = room.places@;
    let mut i: usize = 0;
    assert(head + rows_needs(rows, 0) =~= head);
    while i < entry.rows.len()
        invariant
            i <= entry.rows.len(),
            rows == entry@.rows,
            rows.len() == entry.rows@.len(),
            fits(drawn, head + rows_needs(rows, i as int)),
            r == charged_for(base + rows_held(rows, i as int), drawn),
        decreases entry.rows.len() - i,
    {
        assert(rows[i as int] == entry.rows@[i as int].deep_view());
        let one = row_bytes(&entry.rows[i]);
        proof {
            let row = rows[i as int];
            let needs = question_needs(row.0) + recorded_needs(row.1);
            let more = choose|p: Seq<Place>| #[trigger]
                fits(p, needs) && one == charged_for(question_held(row.0), p);
            fits_joins(drawn, head + rows_needs(rows, i as int), more, needs);
            room_sum_joins(drawn, more);
            assert(head + rows_needs(rows, i as int) + needs =~= head + rows_needs(rows, i + 1));
            drawn = drawn + more;
        }
        r = r.saturating_add(one);
        i += 1;
    }
    proof {
        assert(fits(drawn, entry_needs(store@, rows)));
        assert(r == entry_charge(rows, drawn));
    }
    r
}

/// Witnesses kept in memory, the least recently read first.
pub struct Retained {
    pub entries: Vec<Cached>,
    pub max_bytes: u64,
    pub max_entries: usize,
    pub stats: Stats,
}

/// The model of [`Retained`].
#[verifier::ext_equal]
pub struct RetainedV {
    pub entries: Seq<CachedV>,
    pub max_bytes: u64,
    pub max_entries: usize,
    pub memory_hits: u64,
    pub disk_loads: u64,
    pub evictions: u64,
}

impl View for Retained {
    type V = RetainedV;

    open spec fn view(&self) -> RetainedV {
        RetainedV {
            entries: self.entries.deep_view(),
            max_bytes: self.max_bytes,
            max_entries: self.max_entries,
            memory_hits: self.stats.memory_hits,
            disk_loads: self.stats.disk_loads,
            evictions: self.stats.evictions,
        }
    }
}

/// What the entries are charged together.
pub open spec fn charged(entries: Seq<CachedV>) -> nat
    decreases entries.len(),
{
    if entries.len() == 0 {
        0
    } else {
        entries[0].bytes as nat + charged(entries.drop_first())
    }
}

/// Where the entry of an evaluation stands, from `i` on; the length where it does not.
pub open spec fn place(entries: Seq<CachedV>, store: Seq<char>, identity: Seq<u8>, i: int) -> int
    decreases entries.len() - i,
{
    if i >= entries.len() {
        entries.len() as int
    } else if entries[i].store == store && entries[i].identity == identity {
        i
    } else {
        place(entries, store, identity, i + 1)
    }
}

/// The entry of an evaluation is there.
pub open spec fn present(entries: Seq<CachedV>, store: Seq<char>, identity: Seq<u8>) -> bool {
    place(entries, store, identity, 0) < entries.len()
}

/// No evaluation has two entries.
pub open spec fn single(entries: Seq<CachedV>) -> bool {
    forall|i: int, j: int|
        0 <= i < j < entries.len() ==> !((#[trigger] entries[i]).store == (#[trigger] entries[j]).store
            && entries[i].identity == entries[j].identity)
}

/// The entries without the one of an evaluation.
pub open spec fn parted(entries: Seq<CachedV>, store: Seq<char>, identity: Seq<u8>) -> Seq<CachedV> {
    let i = place(entries, store, identity, 0);
    if i < entries.len() {
        entries.remove(i)
    } else {
        entries
    }
}

/// What stays of the entries when the least recently read go until there is
/// room for one more and for its charge.
pub open spec fn roomy(entries: Seq<CachedV>, max_entries: int, room: int) -> Seq<CachedV>
    decreases entries.len(),
{
    if entries.len() > 0 && (entries.len() >= max_entries || charged(entries) > room) {
        roomy(entries.drop_first(), max_entries, room)
    } else {
        entries
    }
}

/// A count that stays at the greatest number.
pub open spec fn counted(n: u64, more: nat) -> u64 {
    capped(n as nat + more)
}

impl RetainedV {
    /// What is kept of an evaluation.
    pub open spec fn kept(self, store: Seq<char>, identity: Seq<u8>) -> Option<EntryV> {
        if present(self.entries, store, identity) {
            Some(self.entries[place(self.entries, store, identity, 0)].entry)
        } else {
            None
        }
    }

    /// With an entry read: it is the most recently read one.
    pub open spec fn reading(self, store: Seq<char>, identity: Seq<u8>) -> RetainedV {
        if present(self.entries, store, identity) {
            RetainedV {
                entries: parted(self.entries, store, identity).push(
                    self.entries[place(self.entries, store, identity, 0)],
                ),
                memory_hits: counted(self.memory_hits, 1),
                ..self
            }
        } else {
            self
        }
    }

    /// Without the entry of an evaluation.
    pub open spec fn removing(self, store: Seq<char>, identity: Seq<u8>) -> RetainedV {
        RetainedV { entries: parted(self.entries, store, identity), ..self }
    }

    /// An entry of that charge can be kept.
    pub open spec fn admits(self, bytes: u64) -> bool {
        self.max_entries != 0 && bytes != u64::MAX && bytes <= self.max_bytes
    }

    /// With an entry of that charge kept in place of the evaluation's last one.
    pub open spec fn keeping(
        self,
        store: Seq<char>,
        identity: Seq<u8>,
        entry: EntryV,
        bytes: u64,
    ) -> RetainedV {
        let rest = parted(self.entries, store, identity);
        if self.admits(bytes) {
            let stay = roomy(rest, self.max_entries as int, self.max_bytes - bytes);
            RetainedV {
                entries: stay.push(CachedV { store, identity, entry, bytes }),
                evictions: counted(self.evictions, (rest.len() - stay.len()) as nat),
                ..self
            }
        } else {
            RetainedV { entries: rest, ..self }
        }
    }

    /// With the same rows kept again: nothing is charged, and the entry is the
    /// most recently read one.
    pub open spec fn renewing(
        self,
        store: Seq<char>,
        identity: Seq<u8>,
        entry: EntryV,
    ) -> RetainedV {
        let i = place(self.entries, store, identity, 0);
        RetainedV {
            entries: self.entries.remove(i).push(CachedV { entry, ..self.entries[i] }),
            ..self
        }
    }

    /// The limits hold.
    pub open spec fn bounded(self) -> bool {
        &&& self.entries.len() <= self.max_entries
        &&& charged(self.entries) <= self.max_bytes
        &&& single(self.entries)
    }
}

proof fn place_is(entries: Seq<CachedV>, store: Seq<char>, identity: Seq<u8>, i: int)
    requires
        0 <= i <= entries.len(),
    ensures
        i <= place(entries, store, identity, i) <= entries.len(),
        forall|j: int|
            i <= j < place(entries, store, identity, i) ==> !((#[trigger] entries[j]).store == store
                && entries[j].identity == identity),
        place(entries, store, identity, i) < entries.len() ==> ({
            let k = place(entries, store, identity, i);
            entries[k].store == store && entries[k].identity == identity
        }),
    decreases entries.len() - i,
{
    if i < entries.len() && !(entries[i].store == store && entries[i].identity == identity) {
        place_is(entries, store, identity, i + 1);
    }
}

proof fn place_at(entries: Seq<CachedV>, store: Seq<char>, identity: Seq<u8>, i: int, k: int)
    requires
        0 <= i <= k < entries.len(),
        single(entries),
        entries[k].store == store,
        entries[k].identity == identity,
    ensures
        place(entries, store, identity, i) == k,
    decreases k - i,
{
    if i < k {
        assert(!(entries[i].store == entries[k].store && entries[i].identity
            == entries[k].identity));
        place_at(entries, store, identity, i + 1, k);
    }
}

proof fn charged_push(entries: Seq<CachedV>, c: CachedV)
    ensures
        charged(entries.push(c)) == charged(entries) + c.bytes,
    decreases entries.len(),
{
    if entries.len() == 0 {
        assert(entries.push(c).drop_first() =~= entries);
    } else {
        charged_push(entries.drop_first(), c);
        assert(entries.push(c).drop_first() =~= entries.drop_first().push(c));
    }
}

proof fn charged_remove(entries: Seq<CachedV>, i: int)
    requires
        0 <= i < entries.len(),
    ensures
        charged(entries.remove(i)) == charged(entries) - entries[i].bytes,
    decreases entries.len(),
{
    if i == 0 {
        assert(entries.remove(0) =~= entries.drop_first());
    } else {
        charged_remove(entries.drop_first(), i - 1);
        assert(entries.remove(i).drop_first() =~= entries.drop_first().remove(i - 1));
        assert(entries.remove(i)[0] == entries[0]);
    }
}

proof fn single_remove(entries: Seq<CachedV>, i: int)
    requires
        0 <= i < entries.len(),
        single(entries),
    ensures
        single(entries.remove(i)),
{
    let r = entries.remove(i);
    assert forall|a: int, b: int| 0 <= a < b < r.len() implies !((#[trigger] r[a]).store == (
    #[trigger] r[b]).store && r[a].identity == r[b].identity) by {
        let x = if a < i {
            a
        } else {
            a + 1
        };
        let y = if b < i {
            b
        } else {
            b + 1
        };
        assert(r[a] == entries[x] && r[b] == entries[y]);
    }
}

/// What is left without an evaluation's entry has none of it.
proof fn parted_from(entries: Seq<CachedV>, store: Seq<char>, identity: Seq<u8>)
    requires
        single(entries),
    ensures
        single(parted(entries, store, identity)),
        charged(parted(entries, store, identity)) <= charged(entries),
        parted(entries, store, identity).len() <= entries.len(),
        forall|j: int|
            0 <= j < parted(entries, store, identity).len() ==> !((#[trigger] parted(
                entries,
                store,
                identity,
            )[j]).store == store && parted(entries, store, identity)[j].identity == identity),
{
    let i = place(entries, store, identity, 0);
    place_is(entries, store, identity, 0);
    let r = parted(entries, store, identity);
    if i < entries.len() {
        single_remove(entries, i);
        charged_remove(entries, i);
        assert forall|j: int| 0 <= j < r.len() implies !((#[trigger] r[j]).store == store
            && r[j].identity == identity) by {
            if j < i {
                assert(r[j] == entries[j]);
            } else {
                assert(r[j] == entries[j + 1]);
                assert(!(entries[i].store == entries[j + 1].store && entries[i].identity
                    == entries[j + 1].identity));
            }
        }
    }
}

proof fn single_push(entries: Seq<CachedV>, c: CachedV)
    requires
        single(entries),
        forall|j: int|
            0 <= j < entries.len() ==> !((#[trigger] entries[j]).store == c.store
                && entries[j].identity == c.identity),
    ensures
        single(entries.push(c)),
{
    let r = entries.push(c);
    assert forall|a: int, b: int| 0 <= a < b < r.len() implies !((#[trigger] r[a]).store == (
    #[trigger] r[b]).store && r[a].identity == r[b].identity) by {
        assert(r[a] == entries[a]);
        if b < entries.len() {
            assert(r[b] == entries[b]);
        }
    }
}

/// What stays is the most recently read, with room for one more.
proof fn roomy_is(entries: Seq<CachedV>, max_entries: int, room: int)
    requires
        max_entries > 0,
        room >= 0,
    ensures
        ({
            let r = roomy(entries, max_entries, room);
            &&& r.len() <= entries.len()
            &&& r.len() < max_entries
            &&& charged(r) <= room
            &&& r == entries.skip(entries.len() - r.len())
        }),
    decreases entries.len(),
{
    let r = roomy(entries, max_entries, room);
    if entries.len() > 0 && (entries.len() >= max_entries || charged(entries) > room) {
        roomy_is(entries.drop_first(), max_entries, room);
        assert(entries.drop_first().skip(entries.drop_first().len() - r.len()) =~= entries.skip(
            entries.len() - r.len(),
        ));
    } else {
        assert(entries.skip(0) =~= entries);
    }
}

proof fn renewing_stays(v: RetainedV, store: Seq<char>, identity: Seq<u8>, entry: EntryV)
    requires
        v.bounded(),
        present(v.entries, store, identity),
    ensures
        v.renewing(store, identity, entry).bounded(),
        charged(v.renewing(store, identity, entry).entries) == charged(v.entries),
        v.renewing(store, identity, entry).entries.len() == v.entries.len(),
{
    let i = place(v.entries, store, identity, 0);
    place_is(v.entries, store, identity, 0);
    parted_from(v.entries, store, identity);
    charged_remove(v.entries, i);
    let c = CachedV { entry, ..v.entries[i] };
    charged_push(v.entries.remove(i), c);
    single_push(v.entries.remove(i), c);
}

/// The limits hold of what stays and of what is added to it.
proof fn keeping_stays(
    v: RetainedV,
    store: Seq<char>,
    identity: Seq<u8>,
    entry: EntryV,
    bytes: u64,
)
    requires
        v.bounded(),
    ensures
        v.keeping(store, identity, entry, bytes).bounded(),
{
    let rest = parted(v.entries, store, identity);
    parted_from(v.entries, store, identity);
    if v.admits(bytes) {
        let room = v.max_bytes - bytes;
        let stay = roomy(rest, v.max_entries as int, room);
        roomy_is(rest, v.max_entries as int, room);
        let d = rest.len() - stay.len();
        assert forall|j: int| 0 <= j < stay.len() implies (#[trigger] stay[j]) == rest[j + d] by {}
        assert(single(stay)) by {
            assert forall|a: int, b: int| 0 <= a < b < stay.len() implies !((
            #[trigger] stay[a]).store == (#[trigger] stay[b]).store && stay[a].identity
                == stay[b].identity) by {
                assert(stay[a] == rest[a + d] && stay[b] == rest[b + d]);
            }
        }
        let c = CachedV { store, identity, entry, bytes };
        charged_push(stay, c);
        single_push(stay, c);
    }
}

/// An entry that was admitted is read back.
pub proof fn a_kept_entry_is_read_back(
    v: RetainedV,
    store: Seq<char>,
    identity: Seq<u8>,
    entry: EntryV,
    bytes: u64,
)
    requires
        v.bounded(),
    ensures
        v.keeping(store, identity, entry, bytes).kept(store, identity) == (if v.admits(bytes) {
            Some(entry)
        } else {
            None
        }),
{
    keeping_stays(v, store, identity, entry, bytes);
    let w = v.keeping(store, identity, entry, bytes).entries;
    parted_from(v.entries, store, identity);
    place_is(w, store, identity, 0);
    if v.admits(bytes) {
        place_at(w, store, identity, 0, w.len() - 1);
    }
}

/// Removing an evaluation's entry leaves the entries of others.
pub proof fn removing_leaves_the_others(
    v: RetainedV,
    store: Seq<char>,
    identity: Seq<u8>,
    other_store: Seq<char>,
    other: Seq<u8>,
)
    requires
        v.bounded(),
        store != other_store || identity != other,
    ensures
        v.removing(store, identity).kept(store, identity) is None,
        v.removing(store, identity).kept(other_store, other) == v.kept(other_store, other),
{
    let r = parted(v.entries, store, identity);
    let i = place(v.entries, store, identity, 0);
    parted_from(v.entries, store, identity);
    place_is(v.entries, store, identity, 0);
    place_is(r, store, identity, 0);
    place_is(r, other_store, other, 0);
    place_is(v.entries, other_store, other, 0);
    let k = place(v.entries, other_store, other, 0);
    if i < v.entries.len() {
        if k < v.entries.len() {
            let j = if k < i {
                k
            } else {
                k - 1
            };
            assert(r[j] == v.entries[k]);
            place_at(r, other_store, other, 0, j);
        } else {
            let j = place(r, other_store, other, 0);
            if j < r.len() {
                let m = if j < i {
                    j
                } else {
                    j + 1
                };
                assert(r[j] == v.entries[m]);
                place_at(v.entries, other_store, other, 0, m);
            }
        }
    }
}

/// What goes to make room is what was read least recently: what was read last
/// stays whenever anything stays.
pub proof fn the_least_recently_read_goes(
    entries: Seq<CachedV>,
    max_entries: int,
    room: int,
)
    requires
        max_entries > 0,
        room >= 0,
    ensures
        ({
            let r = roomy(entries, max_entries, room);
            &&& r == entries.skip(entries.len() - r.len())
            &&& r.len() < max_entries
            &&& charged(r) <= room
        }),
{
    roomy_is(entries, max_entries, room);
}

impl Retained {
    /// The counts are those of the entries, and the limits hold.
    pub open spec fn wf(&self) -> bool {
        &&& self@.bounded()
        &&& self.stats.retained_bytes == charged(self@.entries)
        &&& self.stats.entries == self@.entries.len()
    }

    pub fn new(max_bytes: u64, max_entries: usize) -> (r: Retained)
        ensures
            r.wf(),
            r@ == (RetainedV {
                entries: Seq::empty(),
                max_bytes,
                max_entries,
                memory_hits: 0,
                disk_loads: 0,
                evictions: 0,
            }),
    {
        let r = Retained { entries: Vec::new(), max_bytes, max_entries, stats: Stats::default() };
        assert(r.entries.deep_view() =~= Seq::<CachedV>::empty());
        r
    }

    fn position(&self, store: &str, identity: &EvalId) -> (r: Option<usize>)
        ensures
            match r {
                Some(i) => i < self.entries@.len() && i == place(
                    self@.entries,
                    store@,
                    identity@,
                    0,
                ),
                None => !present(self@.entries, store@, identity@),
            },
    {
        let ghost all = self@.entries;
        let mut i: usize = 0;
        while i < self.entries.len()
            invariant
                i <= self.entries.len(),
                all == self@.entries,
                place(all, store@, identity@, 0) == place(all, store@, identity@, i as int),
            decreases self.entries.len() - i,
        {
            assert(all[i as int] == self.entries@[i as int]@);
            let here = text::same(self.entries[i].store.as_str(), store);
            let it = self.entries[i].identity.same(identity);
            if here && it {
                return Some(i);
            }
            i += 1;
        }
        None
    }

    /// What is kept of an evaluation, which is then the most recently read.
    pub fn get(&mut self, store: &str, identity: &EvalId) -> (r: Option<Entry>)
        requires
            old(self).wf(),
        ensures
            r.deep_view() == old(self)@.kept(store@, identity@),
            final(self)@ == old(self)@.reading(store@, identity@),
            final(self).wf(),
    {
        let Some(i) = self.position(store, identity) else {
            return None;
        };
        let ghost before = self@;
        let ghost list = self.entries@;
        let entry = self.entries[i].entry.clone();
        let cached = self.entries.remove(i);
        let ghost c = cached@;
        proof {
            assert(before.entries[i as int] == list[i as int]@);
            assert(self.entries.deep_view() =~= before.entries.remove(i as int));
            renewing_stays(before, store@, identity@, c.entry);
            place_is(before.entries, store@, identity@, 0);
        }
        self.entries.push(cached);
        self.stats.memory_hits = self.stats.memory_hits.saturating_add(1);
        proof {
            assert(self.entries.deep_view() =~= before.entries.remove(i as int).push(c));
            assert(CachedV { entry: c.entry, ..c } == c);
        }
        Some(entry)
    }

    /// Keeps an entry: the same rows again are not charged anew.
    pub fn insert(&mut self, store: String, identity: EvalId, entry: Entry)
        requires
            old(self).wf(),
        ensures
            inserted(old(self)@, final(self)@, store@, identity@, entry@),
            final(self).wf(),
    {
        let same = match self.position(store.as_str(), &identity) {
            Some(i) => {
                assert(self@.entries[i as int] == self.entries@[i as int]@);
                same_allocation(&self.entries[i].entry.rows, &entry.rows)
            },
            None => false,
        };
        if same {
            self.renew(store.as_str(), &identity, entry);
        } else {
            let bytes = entry_bytes(&store, &entry);
            self.insert_charged(store, identity, entry, bytes);
        }
    }

    fn renew(&mut self, store: &str, identity: &EvalId, entry: Entry)
        requires
            old(self).wf(),
            present(old(self)@.entries, store@, identity@),
        ensures
            final(self)@ == old(self)@.renewing(store@, identity@, entry@),
            final(self).wf(),
    {
        let ghost before = self@;
        let ghost list = self.entries@;
        proof {
            place_is(before.entries, store@, identity@, 0);
            renewing_stays(before, store@, identity@, entry@);
        }
        if let Some(i) = self.position(store, identity) {
            let mut cached = self.entries.remove(i);
            assert(before.entries[i as int] == list[i as int]@);
            assert(self.entries.deep_view() =~= before.entries.remove(i as int));
            cached.entry = entry;
            let ghost c = cached@;
            self.entries.push(cached);
            assert(self.entries.deep_view() =~= before.entries.remove(i as int).push(c));
        }
    }

    /// Keeps an entry of that charge, where it can be kept: the least recently
    /// read go until there is room.
    pub fn insert_charged(&mut self, store: String, identity: EvalId, entry: Entry, bytes: u64)
        requires
            old(self).wf(),
        ensures
            final(self)@ == old(self)@.keeping(store@, identity@, entry@, bytes),
            final(self).wf(),
    {
        let ghost before = self@;
        proof {
            keeping_stays(before, store@, identity@, entry@, bytes);
            parted_from(before.entries, store@, identity@);
        }
        self.remove(store.as_str(), &identity);
        if self.max_entries == 0 || bytes == u64::MAX || bytes > self.max_bytes {
            return ;
        }
        let ghost rest = self@.entries;
        let ghost room = (self.max_bytes - bytes) as int;
        let ghost most = self.max_entries as int;
        let ghost evicted = self.stats.evictions;
        proof {
            roomy_is(rest, most, room);
        }
        while self.entries.len() >= self.max_entries || self.stats.retained_bytes > self.max_bytes
            - bytes
            invariant
                bytes <= self.max_bytes,
                self.max_entries == most,
                most > 0,
                room == self.max_bytes - bytes,
                self.max_bytes == before.max_bytes,
                self.max_entries == before.max_entries,
                self.stats.memory_hits == before.memory_hits,
                self.stats.disk_loads == before.disk_loads,
                self.stats.retained_bytes == charged(self.entries.deep_view()),
                roomy(self.entries.deep_view(), most, room) == roomy(rest, most, room),
                self.entries@.len() <= rest.len(),
                self.stats.evictions == counted(evicted, (rest.len() - self.entries@.len()) as nat),
            decreases self.entries.len(),
        {
            let ghost now = self.entries.deep_view();
            proof {
                assert(now.len() == self.entries@.len());
                if now.len() == 0 {
                    assert(charged(now) == 0);
                }
            }
            let ghost list = self.entries@;
            let oldest = self.entries.remove(0);
            proof {
                assert(now[0] == list[0]@);
                assert(self.entries.deep_view() =~= now.drop_first());
            }
            self.stats.retained_bytes = self.stats.retained_bytes - oldest.bytes;
            self.stats.evictions = self.stats.evictions.saturating_add(1);
        }
        let ghost stay = self.entries.deep_view();
        assert(stay == roomy(rest, most, room));
        assert(stay.len() == self.entries@.len());
        self.stats.retained_bytes = self.stats.retained_bytes + bytes;
        let ghost c = CachedV { store: store@, identity: identity@, entry: entry@, bytes };
        self.entries.push(Cached { store, identity, entry, bytes });
        proof {
            charged_push(stay, c);
            assert(self.entries.deep_view() =~= stay.push(c));
        }
        self.stats.entries = count(self.entries.len());
    }

    /// Lets go of what is kept of an evaluation.
    pub fn remove(&mut self, store: &str, identity: &EvalId)
        requires
            old(self).wf(),
        ensures
            final(self)@ == old(self)@.removing(store@, identity@),
            final(self).wf(),
    {
        let ghost before = self@;
        let ghost list = self.entries@;
        proof {
            parted_from(before.entries, store@, identity@);
        }
        if let Some(i) = self.position(store, identity) {
            proof {
                charged_remove(before.entries, i as int);
                assert(before.entries[i as int] == list[i as int]@);
            }
            let removed = self.entries.remove(i);
            assert(self.entries.deep_view() =~= before.entries.remove(i as int));
            self.stats.retained_bytes = self.stats.retained_bytes - removed.bytes;
            self.stats.entries = count(self.entries.len());
        }
    }

    pub fn note_disk_load(&mut self)
        requires
            old(self).wf(),
        ensures
            final(self)@ == (RetainedV {
                disk_loads: counted(old(self)@.disk_loads, 1),
                ..old(self)@
            }),
            final(self).wf(),
    {
        self.stats.disk_loads = self.stats.disk_loads.saturating_add(1);
    }

    pub fn stats(&self) -> (r: Stats)
        requires
            self.wf(),
        ensures
            r.memory_hits == self@.memory_hits,
            r.disk_loads == self@.disk_loads,
            r.evictions == self@.evictions,
            r.entries == self@.entries.len(),
            r.retained_bytes == charged(self@.entries),
    {
        self.stats
    }
}

/// An entry was kept: the same rows again, or at the charge of what it holds
/// and the rooms that were drawn for it.
pub open spec fn inserted(
    before: RetainedV,
    after: RetainedV,
    store: Seq<char>,
    identity: Seq<u8>,
    entry: EntryV,
) -> bool {
    ||| before.kept(store, identity) matches Some(e) && e.rows == entry.rows && after
        == before.renewing(store, identity, entry)
    ||| exists|places: Seq<Place>| #[trigger]
        fits(places, entry_needs(store, entry.rows)) && after == before.keeping(
            store,
            identity,
            entry,
            entry_charge(entry.rows, places),
        )
}

/// What was kept is read back as it is, or not at all; and where no charge
/// that can be drawn for it is above the limits, it is read back.
pub proof fn what_was_kept_is_read_back(
    before: RetainedV,
    after: RetainedV,
    store: Seq<char>,
    identity: Seq<u8>,
    entry: EntryV,
)
    requires
        before.bounded(),
        inserted(before, after, store, identity, entry),
    ensures
        after.kept(store, identity) == Some(entry) || after.kept(store, identity) is None,
        (forall|places: Seq<Place>| #[trigger]
            fits(places, entry_needs(store, entry.rows)) ==> before.admits(
                entry_charge(entry.rows, places),
            )) ==> after.kept(store, identity) == Some(entry),
{
    if before.kept(store, identity) is Some && after == before.renewing(store, identity, entry) {
        renewing_stays(before, store, identity, entry);
        place_is(before.entries, store, identity, 0);
        place_is(after.entries, store, identity, 0);
        place_at(after.entries, store, identity, 0, after.entries.len() - 1);
    } else {
        let places = choose|places: Seq<Place>| #[trigger]
            fits(places, entry_needs(store, entry.rows)) && after == before.keeping(
                store,
                identity,
                entry,
                entry_charge(entry.rows, places),
            );
        a_kept_entry_is_read_back(
            before,
            store,
            identity,
            entry,
            entry_charge(entry.rows, places),
        );
    }
}

/// The charge of an entry is at least what it holds and what its texts and
/// lists hold, or the greatest that there is; and a drawn room is at most what
/// an allocation can have.
pub proof fn a_charge_covers_what_is_held(held: nat, places: Seq<Place>, needs: Seq<Need>)
    requires
        fits(places, needs),
    ensures
        charged_for(held, places) == u64::MAX || charged_for(held, places) >= held + needed(needs),
        room_sum(places) <= needs.len() * isize::MAX,
    decreases needs.len(),
{
    if needs.len() > 0 {
        let p = places.last();
        let n = needs.last();
        assert(place_fits(p, n));
        assert(fits(places.drop_last(), needs.drop_last()));
        a_charge_covers_what_is_held(held, places.drop_last(), needs.drop_last());
        let room = p.room as int;
        let unit = p.unit as int;
        let least = n.least as int;
        assert(least * unit <= room * unit) by (nonlinear_arith)
            requires
                least <= room,
                unit >= 0,
        ;
        assert((needs.len() - 1) * isize::MAX + isize::MAX == needs.len() * isize::MAX)
            by (nonlinear_arith);
    }
}

/// What the needs come to.
pub open spec fn needed(needs: Seq<Need>) -> nat
    decreases needs.len(),
{
    if needs.len() == 0 {
        0
    } else {
        needed(needs.drop_last()) + needs.last().least * needs.last().unit
    }
}

/// No more goes to make room than must: with one entry more there would be too
/// many, or too much.
pub proof fn no_more_goes_than_must(entries: Seq<CachedV>, max_entries: int, room: int)
    requires
        max_entries > 0,
        room >= 0,
        roomy(entries, max_entries, room).len() < entries.len(),
    ensures
        ({
            let r = roomy(entries, max_entries, room);
            let one_more = entries.skip(entries.len() - r.len() - 1);
            one_more.len() >= max_entries || charged(one_more) > room
        }),
    decreases entries.len(),
{
    let rest = entries.drop_first();
    let r = roomy(entries, max_entries, room);
    roomy_is(rest, max_entries, room);
    if r.len() < rest.len() {
        no_more_goes_than_must(rest, max_entries, room);
        assert(rest.skip(rest.len() - r.len() - 1) =~= entries.skip(
            entries.len() - r.len() - 1,
        ));
    } else {
        assert(entries.skip(entries.len() - r.len() - 1) =~= entries);
    }
}

/// The limits hold whatever is done: no more entries than are allowed, and no
/// greater charge, and one entry for an evaluation.
pub proof fn the_limits_always_hold(
    v: RetainedV,
    store: Seq<char>,
    identity: Seq<u8>,
    entry: EntryV,
    bytes: u64,
)
    requires
        v.bounded(),
    ensures
        ({
            let w = v.keeping(store, identity, entry, bytes);
            w.entries.len() <= v.max_entries && charged(w.entries) <= v.max_bytes && single(
                w.entries,
            )
        }),
        v.removing(store, identity).bounded(),
        v.reading(store, identity).bounded(),
        v.kept(store, identity) is Some ==> v.renewing(store, identity, entry).bounded(),
{
    keeping_stays(v, store, identity, entry, bytes);
    parted_from(v.entries, store, identity);
    place_is(v.entries, store, identity, 0);
    if present(v.entries, store, identity) {
        let i = place(v.entries, store, identity, 0);
        renewing_stays(v, store, identity, entry);
        let rest = parted(v.entries, store, identity);
        charged_remove(v.entries, i);
        charged_push(rest, v.entries[i]);
        single_push(rest, v.entries[i]);
    }
}

/// Reading an entry keeps it, and all others with it; it is then the one that
/// was read last, the others standing in the order in which they stood.
pub proof fn reading_keeps_all(
    v: RetainedV,
    store: Seq<char>,
    identity: Seq<u8>,
    other_store: Seq<char>,
    other: Seq<u8>,
)
    requires
        v.bounded(),
        v.kept(store, identity) is Some,
    ensures
        v.reading(store, identity).kept(other_store, other) == v.kept(other_store, other),
        ({
            let w = v.reading(store, identity).entries;
            &&& w.len() == v.entries.len()
            &&& w.last().store == store && w.last().identity == identity
            &&& w.drop_last() == v.removing(store, identity).entries
        }),
{
    let i = place(v.entries, store, identity, 0);
    place_is(v.entries, store, identity, 0);
    parted_from(v.entries, store, identity);
    let rest = parted(v.entries, store, identity);
    let w = v.reading(store, identity).entries;
    let c = v.entries[i];
    charged_remove(v.entries, i);
    single_push(rest, c);
    assert(w.drop_last() =~= rest);
    if other_store == store && other == identity {
        place_at(w, store, identity, 0, w.len() - 1);
    } else {
        removing_leaves_the_others(v, store, identity, other_store, other);
        let k = place(rest, other_store, other, 0);
        place_is(rest, other_store, other, 0);
        place_is(w, other_store, other, 0);
        if k < rest.len() {
            assert(w[k] == rest[k]);
            place_at(w, other_store, other, 0, k);
        } else {
            let j = place(w, other_store, other, 0);
            if j < rest.len() {
                assert(w[j] == rest[j]);
            }
        }
    }
}

/// Keeping an entry leaves what is kept of another evaluation as it is, or lets
/// it go.
pub proof fn keeping_changes_no_other(
    v: RetainedV,
    store: Seq<char>,
    identity: Seq<u8>,
    entry: EntryV,
    bytes: u64,
    other_store: Seq<char>,
    other: Seq<u8>,
)
    requires
        v.bounded(),
        store != other_store || identity != other,
    ensures
        v.keeping(store, identity, entry, bytes).kept(other_store, other) is None || v.keeping(
            store,
            identity,
            entry,
            bytes,
        ).kept(other_store, other) == v.kept(other_store, other),
        !v.admits(bytes) ==> v.keeping(store, identity, entry, bytes).kept(other_store, other)
            == v.kept(other_store, other),
        v.admits(bytes) <==> v.max_entries > 0 && bytes <= v.max_bytes && bytes < u64::MAX,
{
    removing_leaves_the_others(v, store, identity, other_store, other);
    if v.admits(bytes) {
        let rest = parted(v.entries, store, identity);
        parted_from(v.entries, store, identity);
        let stay = roomy(rest, v.max_entries as int, v.max_bytes - bytes);
        roomy_is(rest, v.max_entries as int, v.max_bytes - bytes);
        let w = v.keeping(store, identity, entry, bytes).entries;
        place_is(w, other_store, other, 0);
        let j = place(w, other_store, other, 0);
        if j < w.len() {
            if j < stay.len() {
                let m = j + rest.len() - stay.len();
                assert(w[j] == rest[m]);
                place_at(rest, other_store, other, 0, m);
            }
        }
    }
}

/// The texts that a question owns.
pub open spec fn owns(q: QuestionV, t: Seq<char>) -> bool {
    match q {
        QuestionV::GetEnv(s) => t == s,
        QuestionV::EnsurePath(s) => t == s,
        QuestionV::LockFlake(s) => t == s,
        QuestionV::ParseFlakeRef(s) => t == s,
        QuestionV::FindFile { entries, name } => t == name || exists|i: int|
            0 <= i < entries.len() && ((#[trigger] entries[i]).prefix == t || entries[i].path == t),
        QuestionV::StoreText { name, contents, references } => t == name || t == contents
            || references.contains(t),
        QuestionV::WriteDrv { name, answer, aterm } => t == name || (match answer {
            WriteDrvAnswerV::Written(path) => t == path,
            WriteDrvAnswerV::Failed { outcome, detail } => t == outcome || t == detail,
        }),
        QuestionV::StoreFiltered(r) => t == r.name || r.expected_sha256 == Some(t) || (
        r.accepted matches Some(list) && exists|i: int|
            0 <= i < list.len() && (#[trigger] list[i]).path == t),
        QuestionV::Fetch(r) => t == r.url || t == r.name || r.expected_sha256 == Some(t),
        QuestionV::FetchTree(r) => owned_by_attrs(r.attrs, t),
        QuestionV::FlakeRefToString(attrs) => owned_by_attrs(attrs, t),
        _ => false,
    }
}

pub open spec fn owned_by_attrs(attrs: Seq<(Seq<char>, TreeAttrV)>, t: Seq<char>) -> bool {
    exists|i: int|
        0 <= i < attrs.len() && ((#[trigger] attrs[i]).0 == t || attrs[i].1 == TreeAttrV::Str(t))
}

proof fn attr_texts_are_charged(attrs: Seq<(Seq<char>, TreeAttrV)>, n: int, i: int, t: Seq<char>)
    requires
        0 <= i < n <= attrs.len(),
        attrs[i].0 == t || attrs[i].1 == TreeAttrV::Str(t),
    ensures
        attrs_needs(attrs, n).contains(text_need(t)),
    decreases n,
{
    let prior = attrs_needs(attrs, n - 1);
    let own = seq![text_need(attrs[n - 1].0)] + attr_needs(attrs[n - 1].1);
    let all = attrs_needs(attrs, n);
    if i < n - 1 {
        attr_texts_are_charged(attrs, n - 1, i, t);
        let k = prior.index_of(text_need(t));
        assert(all[k] == text_need(t));
    } else if attrs[i].0 == t {
        assert(all[prior.len() as int] == own[0]);
    } else {
        assert(own[1] == text_need(t));
        assert(all[prior.len() as int + 1] == own[1]);
    }
}

proof fn entry_texts_are_charged(entries: Seq<SearchPathEntryV>, n: int, i: int, t: Seq<char>)
    requires
        0 <= i < n <= entries.len(),
        entries[i].prefix == t || entries[i].path == t,
    ensures
        entries_needs(entries, n).contains(text_need(t)),
    decreases n,
{
    let prior = entries_needs(entries, n - 1);
    let all = entries_needs(entries, n);
    if i < n - 1 {
        entry_texts_are_charged(entries, n - 1, i, t);
        let k = prior.index_of(text_need(t));
        assert(all[k] == text_need(t));
    } else {
        assert(all[prior.len() as int] == text_need(entries[i].prefix));
        assert(all[prior.len() as int + 1] == text_need(entries[i].path));
    }
}

/// Each text that a question owns is charged, with at least its bytes; and the
/// path that it names with its text and its root's.
pub proof fn every_text_is_charged(q: QuestionV, t: Seq<char>)
    ensures
        owns(q, t) ==> question_needs(q).contains(Need { unit: 1, least: text::utf8(t).len() }),
        q.path() matches Some(p) ==> question_held(q) >= text::utf8(p.path).len() + (match p.root {
            RootV::Ambient => 0,
            RootV::Mounted(root) => text::utf8(root).len(),
        }),
{
    let all = question_needs(q);
    let want = text_need(t);
    if owns(q, t) {
        match q {
            QuestionV::FindFile { entries, name } => {
                let tail = entries_needs(entries, entries.len() as int);
                if t == name {
                    assert(all[1] == want);
                } else {
                    let i = choose|i: int|
                        0 <= i < entries.len() && ((#[trigger] entries[i]).prefix == t
                            || entries[i].path == t);
                    entry_texts_are_charged(entries, entries.len() as int, i, t);
                    let k = tail.index_of(want);
                    assert(all[k + 2] == want);
                }
            },
            QuestionV::StoreText { name, contents, references } => {
                if t == name {
                    assert(all[0] == want);
                } else if t == contents {
                    assert(all[1] == want);
                } else {
                    let k = references.index_of(t);
                    assert(texts_needs(references)[k] == want);
                    assert(all[k + 3] == want);
                }
            },
            QuestionV::WriteDrv { name, answer, aterm } => {
                assert(all[0] == text_need(name));
                match answer {
                    WriteDrvAnswerV::Written(path) => {
                        assert(all[1] == text_need(path));
                    },
                    WriteDrvAnswerV::Failed { outcome, detail } => {
                        assert(all[1] == text_need(outcome));
                        assert(all[2] == text_need(detail));
                    },
                }
            },
            QuestionV::StoreFiltered(r) => {
                let pin = optional_needs(r.expected_sha256);
                assert(all[0] == text_need(r.name));
                if r.expected_sha256 is Some {
                    assert(pin[0] == text_need(r.expected_sha256->0));
                    assert(all[1] == pin[0]);
                }
                if t != r.name && r.expected_sha256 != Some(t) {
                    let list = r.accepted->0;
                    let i = choose|i: int| 0 <= i < list.len() && (#[trigger] list[i]).path == t;
                    assert(accepted_needs(list)[i] == want);
                    assert(all[1 + pin.len() + 1 + i] == want);
                }
            },
            QuestionV::Fetch(r) => {
                assert(all[0] == text_need(r.url));
                assert(all[1] == text_need(r.name));
                if r.expected_sha256 is Some {
                    assert(all[2] == text_need(r.expected_sha256->0));
                }
            },
            QuestionV::FetchTree(r) => {
                let i = choose|i: int|
                    0 <= i < r.attrs.len() && ((#[trigger] r.attrs[i]).0 == t || r.attrs[i].1
                        == TreeAttrV::Str(t));
                attr_texts_are_charged(r.attrs, r.attrs.len() as int, i, t);
            },
            QuestionV::FlakeRefToString(attrs) => {
                let i = choose|i: int|
                    0 <= i < attrs.len() && ((#[trigger] attrs[i]).0 == t || attrs[i].1
                        == TreeAttrV::Str(t));
                attr_texts_are_charged(attrs, attrs.len() as int, i, t);
            },
            _ => {
                assert(all[0] == want);
            },
        }
    }
}

proof fn rows_are_charged(rows: RowsV, n: int, i: int, x: Need)
    requires
        0 <= i < n <= rows.len(),
    ensures
        rows_held(rows, n) >= question_held(rows[i].0),
        question_needs(rows[i].0).contains(x) || recorded_needs(rows[i].1).contains(x)
            ==> rows_needs(rows, n).contains(x),
    decreases n,
{
    let prior = rows_needs(rows, n - 1);
    let a = question_needs(rows[n - 1].0);
    let b = recorded_needs(rows[n - 1].1);
    let all = rows_needs(rows, n);
    if i < n - 1 {
        rows_are_charged(rows, n - 1, i, x);
        if prior.contains(x) {
            let k = prior.index_of(x);
            assert(all[k] == x);
        }
    } else if a.contains(x) {
        let k = a.index_of(x);
        assert(all[prior.len() + k] == x);
    } else if b.contains(x) {
        let k = b.index_of(x);
        assert(all[prior.len() + a.len() + k] == x);
    }
}

/// The charge of an entry takes in each text of each of its rows, each answer
/// that is kept, and the directory of its store.
pub proof fn every_row_is_charged(store: Seq<char>, rows: RowsV, i: int, t: Seq<char>)
    requires
        0 <= i < rows.len(),
        t == store || owns(rows[i].0, t) || rows[i].1 == RecordedV::Answer(t),
    ensures
        entry_needs(store, rows).contains(Need { unit: 1, least: text::utf8(t).len() }),
        entry_held(rows) >= question_held(rows[i].0),
{
    let n = rows.len() as int;
    let all = entry_needs(store, rows);
    let want = text_need(t);
    rows_are_charged(rows, n, i, want);
    if t == store {
        assert(all[0] == want);
    } else {
        every_text_is_charged(rows[i].0, t);
        if rows[i].1 == RecordedV::Answer(t) {
            assert(recorded_needs(rows[i].1)[0] == want);
            assert(recorded_needs(rows[i].1).contains(want));
        }
        let k = rows_needs(rows, n).index_of(want);
        assert(all[k + 2] == want);
    }
}

/// A read of what is kept is counted, and one of what is not kept changes
/// nothing; what is let go to make room is counted too, one by one.
pub proof fn what_is_counted(
    v: RetainedV,
    store: Seq<char>,
    identity: Seq<u8>,
    entry: EntryV,
    bytes: u64,
)
    requires
        v.memory_hits < u64::MAX,
        v.bounded(),
    ensures
        v.kept(store, identity) is Some ==> v.reading(store, identity).memory_hits
            == v.memory_hits + 1,
        v.kept(store, identity) is None ==> v.reading(store, identity) == v,
        v.removing(store, identity).evictions == v.evictions,
        v.admits(bytes) && v.kept(store, identity) is None && v.evictions + v.entries.len()
            < u64::MAX ==> v.keeping(store, identity, entry, bytes).evictions == v.evictions
            + v.entries.len() + 1 - v.keeping(store, identity, entry, bytes).entries.len(),
{
    let rest = parted(v.entries, store, identity);
    if v.admits(bytes) {
        roomy_is(rest, v.max_entries as int, v.max_bytes - bytes);
    }
}

/// What a shared allocation takes beside its payload: three words.
pub proof fn what_sharing_takes(payload: nat, p: PathValueV)
    ensures
        rc_size(payload) == payload + layout::size_of::<usize>() + layout::size_of::<usize>()
            + layout::size_of::<usize>(),
        p.root is Ambient ==> path_size(p) == rc_size(layout::size_of::<PathValue>()) + rc_size(
            text::utf8(p.path).len(),
        ),
{
}

} // verus!
