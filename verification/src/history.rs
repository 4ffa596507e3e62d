//! The witnesses that are kept of one evaluation, newest first.
use vstd::prelude::*;
use crate::digest;
use crate::witness;
use crate::witness::WITNESS_HISTORY;

verus! {

/// A history with a newer entry: those before `end` move back by one, and what
/// was at `end` goes.
pub open spec fn shifted<T>(h: Seq<Option<T>>, end: int, new: T) -> Seq<Option<T>> {
    Seq::new(
        h.len(),
        |i: int|
            if i == 0 {
                Some(new)
            } else if i <= end {
                h[i - 1]
            } else {
                h[i]
            },
    )
}

/// Where the history gives way: at the first entry of that shape from `i` on,
/// else at the last.
pub open spec fn gives_way(shapes: Seq<Option<Seq<u8>>>, shape: Seq<u8>, i: int) -> int
    decreases shapes.len() - i,
{
    if i >= shapes.len() {
        shapes.len() - 1
    } else if shapes[i] == Some(shape) {
        i
    } else {
        gives_way(shapes, shape, i + 1)
    }
}

pub proof fn gives_way_within(shapes: Seq<Option<Seq<u8>>>, shape: Seq<u8>, i: int)
    requires
        0 <= i <= shapes.len(),
        shapes.len() > 0,
    ensures
        0 <= gives_way(shapes, shape, i) < shapes.len(),
        forall|j: int|
            i <= j < gives_way(shapes, shape, i) ==> #[trigger] shapes[j] != Some(shape),
        gives_way(shapes, shape, i) == shapes.len() - 1 || shapes[gives_way(shapes, shape, i)]
            == Some(shape),
    decreases shapes.len() - i,
{
    if i < shapes.len() && shapes[i] != Some(shape) {
        gives_way_within(shapes, shape, i + 1);
    }
}

/// No shape is there twice.
pub open spec fn distinct(shapes: Seq<Option<Seq<u8>>>) -> bool {
    forall|i: int, j: int|
        0 <= i < j < shapes.len() && (#[trigger] shapes[i]) is Some ==> shapes[i]
            != #[trigger] shapes[j]
}

/// A history in which no shape is there twice stays one when a shape is added.
pub proof fn a_shape_is_kept_once(shapes: Seq<Option<Seq<u8>>>, shape: Seq<u8>)
    requires
        shapes.len() > 0,
        distinct(shapes),
    ensures
        distinct(shifted(shapes, gives_way(shapes, shape, 0), shape)),
{
    gives_way_within(shapes, shape, 0);
    let end = gives_way(shapes, shape, 0);
    let s = shifted(shapes, end, shape);
    assert forall|i: int, j: int| 0 <= i < j < s.len() && (#[trigger] s[i]) is Some implies s[i]
        != #[trigger] s[j] by {
        let a = if i <= end {
            i - 1
        } else {
            i
        };
        let b = if j <= end {
            j - 1
        } else {
            j
        };
        if i == 0 {
            assert(s[j] == shapes[b]);
            if b < end {
                assert(shapes[b] != Some(shape));
            } else if shapes[end] == Some(shape) {
                assert(shapes[end] is Some);
                assert(shapes[end] != shapes[b]);
            }
        } else {
            assert(s[i] == shapes[a]);
            assert(s[j] == shapes[b]);
            assert(a < b);
        }
    }
}

/// The newest entry is the one that was added, and all but the one that gave
/// way are kept in their order.
pub proof fn adding_keeps_the_others<T>(h: Seq<Option<T>>, end: int, new: T, i: int)
    requires
        0 <= end < h.len(),
        0 <= i < h.len(),
        i != end,
    ensures
        shifted(h, end, new)[0] == Some(new),
        shifted(h, end, new)[if i < end {
            i + 1
        } else {
            i
        }] == h[i],
{
}

/// What a move does: the entry goes to the place after it.
pub open spec fn moved<T>(h: Seq<Option<T>>, from: int) -> Seq<Option<T>> {
    h.update(from + 1, h[from]).update(from, None)
}

/// The entries before `end`, moved back one by one from the last.
pub open spec fn moved_back<T>(h: Seq<Option<T>>, end: int) -> Seq<Option<T>>
    decreases end,
{
    if end <= 0 {
        h
    } else {
        moved_back(moved(h, end - 1), end - 1)
    }
}

/// Moving the entries back one by one makes room at the front.
pub proof fn moving_back_makes_room<T>(h: Seq<Option<T>>, end: int, new: T)
    requires
        0 <= end < h.len(),
    ensures
        moved_back(h, end).update(0, Some(new)) == shifted(h, end, new),
        moved_back(h, end).len() == h.len(),
    decreases end,
{
    if end > 0 {
        let m = moved(h, end - 1);
        moving_back_makes_room(m, end - 1, new);
        let s = shifted(m, end - 1, new);
        assert(s =~= shifted(h, end, new)) by {
            assert forall|i: int| 0 <= i < h.len() implies s[i] == shifted(h, end, new)[i] by {
                if i == end {
                    assert(m[end] == h[end - 1]);
                } else if 0 < i < end {
                    assert(m[i - 1] == h[i - 1]);
                }
            }
        }
    } else {
        assert(h.update(0, Some(new)) =~= shifted(h, 0, new));
    }
}

/// What is on disk of a slot: whether its witness is a file, and the file beside it.
pub struct SlotFile {
    pub is_file: bool,
    pub sidecar: Option<String>,
}

impl SlotFile {
    /// Its witness is there, with that shape.
    pub open spec fn shaped(self, shape: Seq<u8>) -> bool {
        self.is_file && (self.sidecar matches Some(t) && (witness::metadata_read(t@) matches Some(m)
            && m.0 == digest::hex(shape)))
    }
}

/// The shapes on disk, as far as they are that one.
pub open spec fn matching(slots: Seq<SlotFile>, shape: Seq<u8>) -> Seq<Option<Seq<u8>>> {
    Seq::new(
        slots.len(),
        |i: int|
            if slots[i].shaped(shape) {
                Some(shape)
            } else {
                None
            },
    )
}

/// Where the history on disk gives way to a witness of that shape.
pub fn history_end(slots: &Vec<SlotFile>, shape: &digest::Hash) -> (end: usize)
    requires
        slots.len() == WITNESS_HISTORY,
    ensures
        end == gives_way(matching(slots@, shape@), shape@, 0),
        end < WITNESS_HISTORY,
{
    let ghost all = matching(slots@, shape@);
    let mut i: usize = 0;
    while i < slots.len()
        invariant
            i <= slots.len(),
            slots.len() == WITNESS_HISTORY,
            all == matching(slots@, shape@),
            gives_way(all, shape@, 0) == gives_way(all, shape@, i as int),
        decreases slots.len() - i,
    {
        let same = witness::has_shape(&slots[i].sidecar, shape);
        if slots[i].is_file && same {
            assert(all[i as int] == Some(shape@));
            return i;
        }
        assert(all[i as int] is None);
        i += 1;
    }
    WITNESS_HISTORY - 1
}

/// The moves that make room at the front, from slot to slot.
pub fn history_moves(end: usize) -> (r: Vec<(usize, usize)>)
    ensures
        r@.len() == end,
        forall|i: int|
            0 <= i < end ==> (#[trigger] r@[i]).0 == end - 1 - i && r@[i].1 == end - i,
{
    let mut r: Vec<(usize, usize)> = Vec::new();
    let mut slot: usize = end;
    while slot > 0
        invariant
            slot <= end,
            r@.len() == end - slot,
            forall|i: int|
                0 <= i < end - slot ==> (#[trigger] r@[i]).0 == end - 1 - i && r@[i].1 == end - i,
        decreases slot,
    {
        r.push((slot - 1, slot));
        slot -= 1;
    }
    r
}

/// A slot on disk has a shape only where its witness is there and the file
/// beside it gives that shape.
pub proof fn which_slots_have_a_shape(slots: Seq<SlotFile>, shape: Seq<u8>, i: int)
    requires
        0 <= i < slots.len(),
    ensures
        matching(slots, shape)[i] == Some(shape) <==> slots[i].is_file && (
        slots[i].sidecar matches Some(t) && (witness::metadata_read(t@) matches Some(m) && m.0
            == digest::hex(shape))),
        matching(slots, shape)[i] is None || matching(slots, shape)[i] == Some(shape),
        matching(slots, shape).len() == slots.len(),
{
}

} // verus!
