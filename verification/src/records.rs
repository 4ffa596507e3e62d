//! Records kept beside a cache: sealed objects, and copies made before.
//!
//! A record is a file: a line with the digest of what follows, then that.
use vstd::prelude::*;
use crate::digest;
use crate::digest::Digest;
use crate::model;
use crate::model::Plain;
use crate::ordered;
use crate::ordered::{TextMap, TextSet};
use crate::text;

verus! {

/// A record.
#[derive(Debug, PartialEq, Eq)]
pub enum Record {
    /// A record as it was read: the digest it claims, its body, and the digest of that body.
    Read { claimed: String, body: String, digest: digest::Hash },
    /// A record to be written with the digest of its body.
    Written(String),
}

/// The model of [`Record`].
#[verifier::ext_equal]
pub enum RecordV {
    Read { claimed: Seq<char>, body: Seq<char>, digest: Seq<u8> },
    Written(Seq<char>),
}

impl View for Record {
    type V = RecordV;

    open spec fn view(&self) -> RecordV {
        match self {
            Record::Read { claimed, body, digest } => RecordV::Read { claimed: claimed@, body: body@, digest: digest@ },
            Record::Written(a) => RecordV::Written(a@),
        }
    }
}

impl DeepView for Record {
    type V = RecordV;

    open spec fn deep_view(&self) -> RecordV {
        self@
    }
}

impl Clone for Record {
    fn clone(&self) -> (r: Self)
        ensures
            r@ == self@,
    {
        self.copied()
    }
}

impl Plain for Record {
    fn copied(&self) -> (r: Self) {
        match self {
            Record::Read { claimed, body, digest } => Record::Read { claimed: claimed.copied(), body: body.copied(), digest: digest.copied() },
            Record::Written(a) => Record::Written(a.copied()),
        }
    }

    fn same(&self, other: &Self) -> (r: bool) {
        match (self, other) {
            (Record::Read { claimed: claimed_a, body: body_a, digest: digest_a }, Record::Read { claimed: claimed_b, body: body_b, digest: digest_b }) => {
                let s0 = claimed_a.same(claimed_b);
                let s1 = body_a.same(body_b);
                let s2 = digest_a.same(digest_b);
                s0 && s1 && s2
            },
            (Record::Written(a), Record::Written(b)) => a.same(b),
            _ => false,
        }
    }
}

impl RecordV {
    /// The body, where it is what the record claims.
    pub open spec fn sound(self) -> Option<Seq<char>> {
        match self {
            RecordV::Read { claimed, body, digest } => if digest::hex(digest) == claimed {
                Some(body)
            } else {
                None
            },
            RecordV::Written(body) => Some(body),
        }
    }
}

/// The digest of a record's body.
pub fn body_digest(body: &str) -> (d: Digest)
    ensures
        d@ == digest::told(seq![body@]),
{
    let d = digest::tell(&[body]);
    assert(Seq::new(1, |i: int| [body]@[i]@) =~= seq![body@]);
    d
}

/// The text of a record: its digest, a line end, its body.
pub open spec fn record_text_of(hash: Seq<u8>, body: Seq<char>) -> Seq<char> {
    digest::hex(hash) + "\n"@ + body
}

/// The claimed digest and the body of a record's text.
pub open spec fn record_parts_of(t: Seq<char>) -> Option<(Seq<char>, Seq<char>)> {
    let i = text::first(t, '\n');
    if i < t.len() {
        Some((t.take(i), t.skip(i + 1)))
    } else {
        None
    }
}

proof fn hex_has_no_line_end(b: Seq<u8>)
    ensures
        forall|i: int| 0 <= i < digest::hex(b).len() ==> digest::hex(b)[i] != '\n',
    decreases b.len(),
{
    if b.len() > 0 {
        hex_has_no_line_end(b.drop_last());
        let h = digest::hex(b);
        let p = digest::hex(b.drop_last());
        assert forall|i: int| 0 <= i < h.len() implies h[i] != '\n' by {
            if i < p.len() {
                assert(h[i] == p[i]);
            }
        }
    }
}

/// A record's text is taken apart as it was put together.
pub proof fn record_text_reads_back(hash: Seq<u8>, body: Seq<char>)
    ensures
        record_parts_of(record_text_of(hash, body)) == Some((digest::hex(hash), body)),
{
    reveal_strlit("\n");
    let h = digest::hex(hash);
    let t = record_text_of(hash, body);
    hex_has_no_line_end(hash);
    assert forall|j: int| 0 <= j < h.len() implies t[j] != '\n' by {
        assert(t[j] == h[j]);
    }
    text::first_is(t, '\n', h.len() as int);
    assert(t.take(h.len() as int) =~= h);
    assert(t.skip(h.len() as int + 1) =~= body);
}

/// The text of a record, given the digest of its body.
pub fn record_text(hash: &digest::Hash, body: &str) -> (t: String)
    ensures
        t@ == record_text_of(hash@, body@),
{
    let mut t = hash.to_hex();
    t.append("\n");
    t.append(body);
    t
}

/// The claimed digest and the body of a record's text.
pub fn record_parts(t: &str) -> (r: Option<(String, String)>)
    ensures
        r.deep_view() == record_parts_of(t@),
{
    let c = text::chars(t);
    let i = text::before(&c, '\n');
    if i < c.len() {
        let claimed = text::spell(&c, 0, i);
        let body = text::spell(&c, i + 1, c.len());
        assert(claimed@ =~= t@.take(i as int));
        assert(body@ =~= t@.skip(i + 1));
        Some((claimed, body))
    } else {
        None
    }
}

/// Records by name.
#[derive(Debug, PartialEq, Eq)]
pub struct DirRecords {
    pub entries: TextMap<Record>,
}

impl View for DirRecords {
    type V = Seq<(Seq<char>, RecordV)>;

    open spec fn view(&self) -> Seq<(Seq<char>, RecordV)> {
        self.entries@
    }
}

/// What the record of that name says.
pub open spec fn said(records: Seq<(Seq<char>, RecordV)>, name: Seq<char>) -> Option<Seq<char>> {
    match ordered::find(records, name) {
        Some(r) => r.sound(),
        None => None,
    }
}

/// With what is on disk under a name: the parts of a record's text and the
/// digest of its body, or no record.
pub open spec fn loading(
    records: Seq<(Seq<char>, RecordV)>,
    name: Seq<char>,
    found: Option<(String, String, digest::Hash)>,
) -> Seq<(Seq<char>, RecordV)> {
    match found {
        Some((claimed, body, digest)) => ordered::put(
            records,
            name,
            RecordV::Read { claimed: claimed@, body: body@, digest: digest@ },
        ),
        None => ordered::dropped(records, name),
    }
}

/// Where nothing is on disk under a name, no record of that name says
/// anything; what others say stays.
pub proof fn nothing_loaded_says_nothing(
    records: Seq<(Seq<char>, RecordV)>,
    name: Seq<char>,
    other: Seq<char>,
)
    requires
        text::sorted(ordered::keys(records)),
    ensures
        said(loading(records, name, None), name) is None,
        other != name ==> said(loading(records, name, None), other) == said(records, other),
{
    ordered::dropped_found(records, name, name);
    ordered::dropped_found(records, name, other);
}

impl DirRecords {
    /// Each name stands once, in order.
    pub open spec fn wf(&self) -> bool {
        self.entries.wf()
    }

    pub fn new() -> (r: DirRecords)
        ensures
            r@ == Seq::<(Seq<char>, RecordV)>::empty(),
            r.wf(),
    {
        DirRecords { entries: TextMap::new() }
    }

    /// Takes in what is on disk under a name: the parts of the record's text
    /// and the digest of its body, or that there is none.
    pub fn load(&mut self, name: &str, found: Option<(String, String, digest::Hash)>)
        requires
            old(self).wf(),
        ensures
            final(self)@ == loading(old(self)@, name@, found),
            found is None ==> said(final(self)@, name@) is None,
            final(self).wf(),
    {
        proof {
            nothing_loaded_says_nothing(self@, name@, name@);
        }
        match found {
            Some((claimed, body, digest)) => {
                self.entries.insert(name.to_owned(), Record::Read { claimed, body, digest });
            },
            None => {
                let _ = self.entries.remove(name);
            },
        }
    }

    /// The body of the record of that name, where it is what it claims.
    pub fn get(&self, name: &str) -> (r: Option<String>)
        ensures
            r.deep_view() == said(self@, name@),
    {
        match self.entries.get(name) {
            None => None,
            Some(Record::Read { claimed, body, digest }) => {
                if text::same(digest.to_hex().as_str(), claimed.as_str()) {
                    Some(body.clone())
                } else {
                    None
                }
            },
            Some(Record::Written(body)) => Some(body.clone()),
        }
    }

    pub fn insert(&mut self, name: &str, body: &str)
        ensures
            final(self)@ == ordered::put(old(self)@, name@, RecordV::Written(body@)),
            old(self).wf() ==> final(self).wf(),
    {
        self.entries.insert(name.to_owned(), Record::Written(body.to_owned()));
    }
}

/// A file of a record directory, and when it was last used, in nanoseconds.
#[derive(Debug, PartialEq, Eq)]
pub struct Listed {
    pub name: String,
    pub modified: u64,
}

/// How old, in nanoseconds, a temporary file is when its writer is taken to be dead.
pub const STALE_TEMPORARY: u64 = 3_600_000_000_000;

impl Listed {
    /// The file is one being written.
    pub open spec fn temporary(&self) -> bool {
        text::begins(self.name@, ".tmp-"@)
    }

    /// The file was used before the other, or at once and stands before it.
    pub open spec fn older(&self, other: &Listed) -> bool {
        self.modified < other.modified || (self.modified == other.modified && text::lt(
            self.name@,
            other.name@,
        ))
    }

    fn is_older(&self, other: &Listed) -> (r: bool)
        ensures
            r == self.older(other),
    {
        self.modified < other.modified || (self.modified == other.modified && text::less(
            self.name.as_str(),
            other.name.as_str(),
        ))
    }
}

/// How many of the first `n` records were used after `e`.
pub open spec fn newer(listing: Seq<Listed>, e: Listed, n: int) -> nat
    decreases n,
{
    if n <= 0 {
        0
    } else {
        newer(listing, e, n - 1) + (if !listing[n - 1].temporary() && e.older(&listing[n - 1]) {
            1nat
        } else {
            0nat
        })
    }
}

/// The file goes: a temporary whose writer is dead, or a record after which
/// at least `keep` others were used.
pub open spec fn goes(listing: Seq<Listed>, e: Listed, now: u64, keep: usize) -> bool {
    if e.temporary() {
        now - e.modified > STALE_TEMPORARY
    } else {
        newer(listing, e, listing.len() as int) >= keep
    }
}

/// The names of the files that go, in the order of the listing.
pub open spec fn going(listing: Seq<Listed>, now: u64, keep: usize, n: int) -> Seq<Seq<char>>
    decreases n,
{
    if n <= 0 {
        Seq::empty()
    } else if goes(listing, listing[n - 1], now, keep) {
        going(listing, now, keep, n - 1).push(listing[n - 1].name@)
    } else {
        going(listing, now, keep, n - 1)
    }
}

/// Which files to remove so that the `keep` most recently used records stay.
pub fn prune_to(listing: &Vec<Listed>, now: u64, keep: usize) -> (r: Vec<String>)
    ensures
        text::texts(r@) == going(listing@, now, keep, listing@.len() as int),
{
    let mut r: Vec<String> = Vec::new();
    let mut i: usize = 0;
    assert(text::texts(r@) =~= going(listing@, now, keep, 0));
    while i < listing.len()
        invariant
            i <= listing.len(),
            text::texts(r@) == going(listing@, now, keep, i as int),
        decreases listing.len() - i,
    {
        let e = &listing[i];
        let remove = if text::starts(e.name.as_str(), ".tmp-") {
            now > e.modified && now - e.modified > STALE_TEMPORARY
        } else {
            let mut after: usize = 0;
            let mut j: usize = 0;
            while j < listing.len()
                invariant
                    j <= listing.len(),
                    i < listing.len(),
                    *e == listing@[i as int],
                    after == newer(listing@, *e, j as int),
                    after <= j,
                decreases listing.len() - j,
            {
                if !text::starts(listing[j].name.as_str(), ".tmp-") && e.is_older(&listing[j]) {
                    after += 1;
                }
                j += 1;
            }
            after >= keep
        };
        let ghost prior = r@;
        if remove {
            r.push(e.name.clone());
            assert(text::texts(r@) =~= text::texts(prior).push(e.name@));
        }
        i += 1;
    }
    r
}

/// A record with no others after it stays, if any may.
pub proof fn the_newest_record_stays(listing: Seq<Listed>, i: int, now: u64, keep: usize)
    requires
        0 <= i < listing.len(),
        keep > 0,
        !listing[i].temporary(),
        forall|j: int|
            0 <= j < listing.len() && !(#[trigger] listing[j]).temporary() ==> !listing[i].older(
                &listing[j],
            ),
    ensures
        !goes(listing, listing[i], now, keep),
{
    newest_has_none_after(listing, i, listing.len() as int);
}

proof fn newest_has_none_after(listing: Seq<Listed>, i: int, n: int)
    requires
        0 <= i < listing.len(),
        0 <= n <= listing.len(),
        forall|j: int|
            0 <= j < listing.len() && !(#[trigger] listing[j]).temporary() ==> !listing[i].older(
                &listing[j],
            ),
    ensures
        newer(listing, listing[i], n) == 0,
    decreases n,
{
    if n > 0 {
        newest_has_none_after(listing, i, n - 1);
        assert(!listing[n - 1].temporary() ==> !listing[i].older(&listing[n - 1]));
    }
}

/// No more records than `keep` lead to no record going.
pub proof fn few_records_all_stay(listing: Seq<Listed>, i: int, now: u64, keep: usize)
    requires
        0 <= i < listing.len(),
        listing.len() <= keep,
        !listing[i].temporary(),
    ensures
        !goes(listing, listing[i], now, keep),
{
    others_bound(listing, i, listing.len() as int);
}

proof fn others_bound(listing: Seq<Listed>, i: int, n: int)
    requires
        0 <= i < listing.len(),
        0 <= n <= listing.len(),
    ensures
        newer(listing, listing[i], n) <= n,
        i < n ==> newer(listing, listing[i], n) < n,
    decreases n,
{
    if n > 0 {
        others_bound(listing, i, n - 1);
        text::lt_irreflexive(listing[i].name@);
    }
}

/// How many of the first `n` files are records.
pub open spec fn records_in(listing: Seq<Listed>, n: int) -> nat
    decreases n,
{
    if n <= 0 {
        0
    } else {
        records_in(listing, n - 1) + (if listing[n - 1].temporary() {
            0nat
        } else {
            1nat
        })
    }
}

/// How many of the first `n` files are records that stay.
pub open spec fn staying(listing: Seq<Listed>, now: u64, keep: usize, n: int) -> nat
    decreases n,
{
    if n <= 0 {
        0
    } else {
        staying(listing, now, keep, n - 1) + (if stays(listing, n - 1, now, keep) {
            1nat
        } else {
            0nat
        })
    }
}

/// The file is a record, and stays.
pub open spec fn stays(listing: Seq<Listed>, i: int, now: u64, keep: usize) -> bool {
    !listing[i].temporary() && !goes(listing, listing[i], now, keep)
}

/// No two files of the listing have one name.
pub open spec fn names_differ(listing: Seq<Listed>) -> bool {
    forall|i: int, j: int|
        0 <= i < j < listing.len() ==> (#[trigger] listing[i]).name@ != (#[trigger] listing[j]).name@
}

proof fn older_is_an_order(a: Listed, b: Listed, c: Listed)
    ensures
        a.older(&b) && b.older(&c) ==> a.older(&c),
        a.name@ != b.name@ ==> a.older(&b) || b.older(&a),
        !(a.older(&b) && b.older(&a)),
{
    text::lt_total(a.name@, b.name@);
    if text::lt(a.name@, b.name@) && text::lt(b.name@, c.name@) {
        text::lt_transitive(a.name@, b.name@, c.name@);
    }
    if text::lt(a.name@, b.name@) && text::lt(b.name@, a.name@) {
        text::lt_transitive(a.name@, b.name@, a.name@);
        text::lt_irreflexive(a.name@);
    }
}

/// The first of the `n` files with the property, in the order in which they
/// were used.
proof fn oldest(listing: Seq<Listed>, has: spec_fn(int) -> bool, n: int) -> (i: int)
    requires
        names_differ(listing),
        0 <= n <= listing.len(),
        exists|j: int| 0 <= j < n && #[trigger] has(j),
    ensures
        0 <= i < n,
        has(i),
        forall|j: int|
            0 <= j < n && j != i && #[trigger] has(j) ==> listing[i].older(&listing[j]),
    decreases n,
{
    let last = n - 1;
    if exists|j: int| 0 <= j < last && #[trigger] has(j) {
        let k = oldest(listing, has, last);
        assert(listing[k].name@ != listing[last].name@);
        older_is_an_order(listing[k], listing[last], listing[k]);
        if has(last) && listing[last].older(&listing[k]) {
            assert forall|j: int| 0 <= j < n && j != last && #[trigger] has(j) implies listing[last].older(
                &listing[j],
            ) by {
                older_is_an_order(listing[last], listing[k], listing[j]);
            }
            last
        } else {
            k
        }
    } else {
        last
    }
}

/// The last of the `n` files with the property, in the order in which they
/// were used.
proof fn newest(listing: Seq<Listed>, has: spec_fn(int) -> bool, n: int) -> (i: int)
    requires
        names_differ(listing),
        0 <= n <= listing.len(),
        exists|j: int| 0 <= j < n && #[trigger] has(j),
    ensures
        0 <= i < n,
        has(i),
        forall|j: int|
            0 <= j < n && j != i && #[trigger] has(j) ==> listing[j].older(&listing[i]),
    decreases n,
{
    let last = n - 1;
    if exists|j: int| 0 <= j < last && #[trigger] has(j) {
        let k = newest(listing, has, last);
        assert(listing[k].name@ != listing[last].name@);
        older_is_an_order(listing[k], listing[last], listing[k]);
        if has(last) && listing[k].older(&listing[last]) {
            assert forall|j: int| 0 <= j < n && j != last && #[trigger] has(j) implies listing[j].older(
                &listing[last],
            ) by {
                older_is_an_order(listing[j], listing[k], listing[last]);
            }
            last
        } else {
            k
        }
    } else {
        last
    }
}

proof fn staying_bound(listing: Seq<Listed>, now: u64, keep: usize, i: int, n: int)
    requires
        0 <= n <= listing.len(),
        0 <= i < listing.len(),
        forall|j: int|
            0 <= j < listing.len() && j != i && #[trigger] stays(listing, j, now, keep)
                ==> listing[i].older(&listing[j]),
    ensures
        staying(listing, now, keep, n) <= newer(listing, listing[i], n) + (if i < n {
            1int
        } else {
            0
        }),
    decreases n,
{
    if n > 0 {
        staying_bound(listing, now, keep, i, n - 1);
        assert(stays(listing, n - 1, now, keep) && n - 1 != i ==> listing[i].older(
            &listing[n - 1],
        ));
    }
}

proof fn newer_bound(listing: Seq<Listed>, now: u64, keep: usize, i: int, n: int)
    requires
        0 <= n <= listing.len(),
        0 <= i < listing.len(),
        forall|j: int|
            0 <= j < listing.len() && !(#[trigger] listing[j]).temporary() && listing[i].older(
                &listing[j],
            ) ==> stays(listing, j, now, keep),
    ensures
        newer(listing, listing[i], n) <= staying(listing, now, keep, n),
    decreases n,
{
    if n > 0 {
        newer_bound(listing, now, keep, i, n - 1);
        assert(!listing[n - 1].temporary() && listing[i].older(&listing[n - 1]) ==> stays(
            listing,
            n - 1,
            now,
            keep,
        ));
    }
}

proof fn staying_of(listing: Seq<Listed>, now: u64, keep: usize, n: int)
    requires
        0 <= n <= listing.len(),
    ensures
        staying(listing, now, keep, n) <= records_in(listing, n),
        staying(listing, now, keep, n) > 0 ==> exists|j: int|
            0 <= j < n && #[trigger] stays(listing, j, now, keep),
        staying(listing, now, keep, n) < records_in(listing, n) ==> exists|j: int|
            0 <= j < n && !(#[trigger] listing[j]).temporary() && goes(
                listing,
                listing[j],
                now,
                keep,
            ),
    decreases n,
{
    if n > 0 {
        staying_of(listing, now, keep, n - 1);
        if stays(listing, n - 1, now, keep) {
            assert(stays(listing, n - 1, now, keep));
        } else if !listing[n - 1].temporary() {
            assert(goes(listing, listing[n - 1], now, keep));
        }
    }
}

/// A prune leaves as many records as are to be kept, or all where there are
/// no more.
pub proof fn a_prune_leaves_as_many_as_are_kept(listing: Seq<Listed>, now: u64, keep: usize)
    requires
        names_differ(listing),
    ensures
        ({
            let n = listing.len() as int;
            staying(listing, now, keep, n) == (if records_in(listing, n) <= keep {
                records_in(listing, n)
            } else {
                keep as nat
            })
        }),
{
    let n = listing.len() as int;
    staying_of(listing, now, keep, n);
    if staying(listing, now, keep, n) > 0 {
        let has = |j: int| stays(listing, j, now, keep);
        let some = choose|j: int| 0 <= j < n && #[trigger] stays(listing, j, now, keep);
        assert(has(some));
        let i = oldest(listing, has, n);
        assert forall|j: int|
            0 <= j < n && j != i && #[trigger] stays(listing, j, now, keep) implies listing[i].older(
            &listing[j],
        ) by {
            assert(has(j));
        }
        staying_bound(listing, now, keep, i, n);
        assert(stays(listing, i, now, keep));
    }
    if staying(listing, now, keep, n) < records_in(listing, n) {
        let has = |j: int| !listing[j].temporary() && goes(listing, listing[j], now, keep);
        let some = choose|j: int|
            0 <= j < n && !(#[trigger] listing[j]).temporary() && goes(
                listing,
                listing[j],
                now,
                keep,
            );
        assert(has(some));
        let i = newest(listing, has, n);
        assert forall|j: int|
            0 <= j < n && !(#[trigger] listing[j]).temporary() && listing[i].older(
                &listing[j],
            ) implies stays(listing, j, now, keep) by {
            if has(j) {
                if j != i {
                    assert(listing[j].older(&listing[i]));
                }
                older_is_an_order(listing[i], listing[j], listing[i]);
            }
        }
        newer_bound(listing, now, keep, i, n);
    }
}

/// The pieces that are not empty.
pub open spec fn filled(v: Seq<Seq<char>>) -> Seq<Seq<char>>
    decreases v.len(),
{
    if v.len() == 0 {
        Seq::empty()
    } else if v.last() == ""@ {
        filled(v.drop_last())
    } else {
        filled(v.drop_last()).push(v.last())
    }
}

/// The body of a list of links: each on a line.
pub open spec fn sealed_body(leaving: Seq<Seq<char>>) -> Seq<char> {
    let body = text::join(leaving, "\n"@);
    if body.len() == 0 {
        body
    } else {
        body + "\n"@
    }
}

/// The lines of a body that are not empty.
pub open spec fn sealed_lines(body: Seq<char>) -> Seq<Seq<char>> {
    filled(text::split(body, '\n'))
}

proof fn filled_all(v: Seq<Seq<char>>)
    requires
        forall|i: int| 0 <= i < v.len() ==> (#[trigger] v[i]).len() > 0,
    ensures
        filled(v) == v,
    decreases v.len(),
{
    reveal_strlit("");
    if v.len() > 0 {
        assert(v.last().len() > 0);
        filled_all(v.drop_last());
        assert(v.drop_last().push(v.last()) =~= v);
    } else {
        assert(filled(v) =~= v);
    }
}

proof fn join_filled(v: Seq<Seq<char>>, sep: Seq<char>)
    requires
        v.len() > 0,
        v[0].len() > 0,
    ensures
        text::join(v, sep).len() > 0,
    decreases v.len(),
{
    if v.len() > 1 {
        join_filled(v.drop_last(), sep);
    }
}

/// A list of links is read back from its body.
pub proof fn sealed_body_reads_back(leaving: Seq<Seq<char>>)
    requires
        forall|i: int|
            0 <= i < leaving.len() ==> (#[trigger] leaving[i]).len() > 0 && !leaving[i].contains(
                '\n',
            ),
    ensures
        sealed_lines(sealed_body(leaving)) == leaving,
{
    reveal_strlit("\n");
    reveal_strlit("");
    assert("\n"@ =~= seq!['\n']);
    let body = text::join(leaving, "\n"@);
    if leaving.len() == 0 {
        let s = text::split(body, '\n');
        assert(s =~= seq![Seq::<char>::empty()]);
        assert(s.last() =~= ""@);
        assert(filled(s.drop_last()) =~= leaving);
    } else {
        join_filled(leaving, "\n"@);
        text::split_of_join(leaving, '\n');
        text::split_sep(body, '\n');
        assert(body + "\n"@ =~= body.push('\n'));
        let s = text::split(body.push('\n'), '\n');
        assert(s.last() =~= ""@);
        assert(s.drop_last() =~= leaving);
        filled_all(leaving);
    }
}

/// Which objects are sealed, and the links that leave each.
#[derive(Debug, PartialEq, Eq)]
pub struct DirSealed {
    pub records: DirRecords,
    /// The objects that the store did not call sealed.
    pub declined: TextSet,
    /// The objects whose decline ended with a record that is not written yet.
    pub lapsed: TextSet,
}

/// The model of [`DirSealed`].
#[verifier::ext_equal]
pub struct DirSealedV {
    pub records: Seq<(Seq<char>, RecordV)>,
    pub declined: Seq<Seq<char>>,
    pub lapsed: Seq<Seq<char>>,
}

impl View for DirSealed {
    type V = DirSealedV;

    open spec fn view(&self) -> DirSealedV {
        DirSealedV {
            records: self.records@,
            declined: self.declined@,
            lapsed: self.lapsed@,
        }
    }
}

impl DirSealedV {
    /// The links that leave a sealed object.
    pub open spec fn leaving(self, object: Seq<char>) -> Option<Seq<Seq<char>>> {
        match said(self.records, object) {
            Some(body) => Some(sealed_lines(body)),
            None => None,
        }
    }

    /// With the links that leave an object.
    pub open spec fn sealing(self, object: Seq<char>, leaving: Seq<Seq<char>>) -> DirSealedV {
        DirSealedV {
            records: ordered::put(self.records, object, RecordV::Written(sealed_body(leaving))),
            declined: ordered::excluded(self.declined, object),
            lapsed: if self.declined.contains(object) {
                ordered::included(self.lapsed, object)
            } else {
                self.lapsed
            },
        }
    }

    /// With an object that is not sealed.
    pub open spec fn declining(self, object: Seq<char>) -> DirSealedV {
        DirSealedV { declined: ordered::included(self.declined, object), ..self }
    }

    /// With an object's record on disk.
    pub open spec fn writing(
        self,
        object: Seq<char>,
        found: Option<(String, String, digest::Hash)>,
    ) -> DirSealedV {
        DirSealedV {
            records: loading(self.records, object, found),
            declined: self.declined,
            lapsed: ordered::excluded(self.lapsed, object),
        }
    }

    /// With an object's record as it is on disk after it could not be written:
    /// a decline that it ended holds again.
    pub open spec fn failing(
        self,
        object: Seq<char>,
        found: Option<(String, String, digest::Hash)>,
    ) -> DirSealedV {
        DirSealedV {
            records: loading(self.records, object, found),
            declined: if self.lapsed.contains(object) {
                ordered::included(self.declined, object)
            } else {
                self.declined
            },
            lapsed: ordered::excluded(self.lapsed, object),
        }
    }
}

/// A record that could not be written leaves an object as it was: declined
/// where it was declined, and sealed only where the disk says so.
pub proof fn a_failed_write_leaves_the_decline(
    memo: DirSealedV,
    object: Seq<char>,
    leaving: Seq<Seq<char>>,
)
    requires
        text::sorted(ordered::keys(memo.records)),
        text::sorted(memo.declined),
        text::sorted(memo.lapsed),
        !memo.lapsed.contains(object),
    ensures
        memo.sealing(object, leaving).failing(object, None).declined.contains(object)
            == memo.declined.contains(object),
        memo.sealing(object, leaving).failing(object, None).leaving(object) is None,
{
    let sealed = memo.sealing(object, leaving);
    ordered::put_sorted(memo.records, object, RecordV::Written(sealed_body(leaving)));
    nothing_loaded_says_nothing(sealed.records, object, object);
    ordered::excluded_sorted(memo.declined, object);
    ordered::add_sorted(memo.lapsed, object);
    ordered::add_sorted(sealed.declined, object);
}

/// What was sealed is read back.
pub proof fn sealed_reads_back(memo: DirSealedV, object: Seq<char>, leaving: Seq<Seq<char>>)
    requires
        forall|i: int|
            0 <= i < leaving.len() ==> (#[trigger] leaving[i]).len() > 0 && !leaving[i].contains(
                '\n',
            ),
    ensures
        memo.sealing(object, leaving).leaving(object) == Some(leaving),
{
    ordered::put_found(memo.records, object, RecordV::Written(sealed_body(leaving)));
    sealed_body_reads_back(leaving);
}

/// What is recorded of other objects stays.
pub proof fn sealing_keeps_others(
    memo: DirSealedV,
    object: Seq<char>,
    leaving: Seq<Seq<char>>,
    other: Seq<char>,
)
    requires
        other != object,
    ensures
        memo.sealing(object, leaving).leaving(other) == memo.leaving(other),
{
    ordered::put_keeps(memo.records, object, RecordV::Written(sealed_body(leaving)), other);
}

/// An object that is sealed is not declined.
pub proof fn sealing_ends_a_decline(memo: DirSealedV, object: Seq<char>, leaving: Seq<Seq<char>>)
    requires
        text::sorted(memo.declined),
    ensures
        !memo.sealing(object, leaving).declined.contains(object),
{
    ordered::excluded_sorted(memo.declined, object);
}

impl DirSealed {
    pub open spec fn wf(&self) -> bool {
        &&& self.records.wf()
        &&& self.declined.wf()
        &&& self.lapsed.wf()
    }

    pub fn open(records: DirRecords) -> (r: DirSealed)
        ensures
            r@ == (DirSealedV {
                records: records@,
                declined: Seq::empty(),
                lapsed: Seq::empty(),
            }),
            records.wf() ==> r.wf(),
    {
        DirSealed { records, declined: TextSet::new(), lapsed: TextSet::new() }
    }

    /// Whether the store said that the object is not sealed.
    pub fn declined(&self, object: &str) -> (r: bool)
        ensures
            r == self@.declined.contains(object@),
    {
        self.declined.contains(object)
    }

    pub fn decline(&mut self, object: &str)
        ensures
            final(self)@ == old(self)@.declining(object@),
            old(self).wf() ==> final(self).wf(),
    {
        let _ = self.declined.insert(object.to_owned());
    }

    /// The links that leave a sealed object.
    pub fn get(&self, object: &str) -> (r: Option<Vec<String>>)
        ensures
            r.deep_view() == self@.leaving(object@),
    {
        let Some(body) = self.records.get(object) else {
            return None;
        };
        let lines = text::pieces(body.as_str(), '\n');
        let ghost all = text::texts(lines@);
        let mut r: Vec<String> = Vec::new();
        let mut i: usize = 0;
        assert(text::texts(r@) =~= filled(all.take(0)));
        while i < lines.len()
            invariant
                i <= lines.len(),
                all == text::texts(lines@),
                text::texts(r@) == filled(all.take(i as int)),
            decreases lines.len() - i,
        {
            proof {
                assert(all.take(i + 1).drop_last() =~= all.take(i as int));
                assert(all.take(i + 1).last() == lines@[i as int]@);
            }
            if !text::same(lines[i].as_str(), "") {
                let ghost prior = r@;
                r.push(lines[i].clone());
                assert(text::texts(r@) =~= text::texts(prior).push(lines@[i as int]@));
            }
            i += 1;
        }
        proof {
            assert(all.take(i as int) =~= all);
            model::deep_texts(&r);
        }
        Some(r)
    }

    pub fn insert(&mut self, object: &str, leaving: &Vec<String>)
        ensures
            final(self)@ == old(self)@.sealing(object@, leaving.deep_view()),
            old(self).wf() ==> final(self).wf(),
    {
        proof {
            model::deep_texts(leaving);
        }
        let mut body = text::joined(leaving, "\n");
        if text::chars(body.as_str()).len() != 0 {
            body.append("\n");
        }
        self.records.insert(object, body.as_str());
        if self.declined.contains(object) {
            let _ = self.lapsed.insert(object.to_owned());
        }
        self.declined.remove(object);
    }

    /// Takes in that an object's record was written, and what is on disk.
    pub fn written(&mut self, object: &str, found: Option<(String, String, digest::Hash)>)
        requires
            old(self).wf(),
        ensures
            final(self)@ == old(self)@.writing(object@, found),
            final(self).wf(),
    {
        self.records.load(object, found);
        self.lapsed.remove(object);
    }

    /// Takes in that an object's record could not be written, and what is on
    /// disk: a decline that the record ended holds again.
    pub fn unwritten(&mut self, object: &str, found: Option<(String, String, digest::Hash)>)
        requires
            old(self).wf(),
        ensures
            final(self)@ == old(self)@.failing(object@, found),
            final(self).wf(),
    {
        self.records.load(object, found);
        if self.lapsed.contains(object) {
            let _ = self.declined.insert(object.to_owned());
        }
        self.lapsed.remove(object);
    }
}

/// How many copies are remembered.
pub const COPY_MEMO_KEEP: usize = 8192;

/// After how many inserts the copies are pruned.
pub const COPY_MEMO_PRUNE_EVERY: u64 = 64;

/// Copies made before, by the key of what was copied.
#[derive(Debug, PartialEq, Eq)]
pub struct DirCopies {
    pub records: DirRecords,
    pub keep: usize,
    pub inserts: u64,
    /// The directory is to be pruned to what it keeps.
    pub due: bool,
}

impl DirCopies {
    pub open spec fn wf(&self) -> bool {
        self.records.wf()
    }

    /// The other remembers one copy more than this, `path` under `key`.
    pub open spec fn remembering(&self, other: &DirCopies, key: Seq<u8>, path: Seq<char>) -> bool {
        &&& other.records@ == copying(self.records@, key, path)
        &&& other.keep == self.keep
        &&& other.inserts == self.inserts + 1
        &&& other.due == (self.due || other.inserts % COPY_MEMO_PRUNE_EVERY == 0)
    }
}

/// `s` without the line ends at its end.
pub open spec fn trimmed(s: Seq<char>) -> Seq<char>
    decreases s.len(),
{
    if s.len() > 0 && s.last() == '\n' {
        trimmed(s.drop_last())
    } else {
        s
    }
}

/// The path in the body of a copy's record: one line, and not empty.
pub open spec fn copied_path(body: Seq<char>) -> Option<Seq<char>> {
    let path = trimmed(body);
    if path.len() == 0 || path.contains('\n') {
        None
    } else {
        Some(path)
    }
}

/// The path that a copy was made to.
pub open spec fn copied_to(records: Seq<(Seq<char>, RecordV)>, key: Seq<u8>) -> Option<Seq<char>> {
    match said(records, digest::hex(key)) {
        Some(body) => copied_path(body),
        None => None,
    }
}

/// With a copy to `path`.
pub open spec fn copying(
    records: Seq<(Seq<char>, RecordV)>,
    key: Seq<u8>,
    path: Seq<char>,
) -> Seq<(Seq<char>, RecordV)> {
    ordered::put(records, digest::hex(key), RecordV::Written(path + "\n"@))
}

/// A copy is read back as it was remembered, where its path is one line.
pub proof fn copy_reads_back(records: Seq<(Seq<char>, RecordV)>, key: Seq<u8>, path: Seq<char>)
    requires
        path.len() > 0,
        !path.contains('\n'),
    ensures
        copied_to(copying(records, key, path), key) == Some(path),
{
    reveal_strlit("\n");
    ordered::put_found(records, digest::hex(key), RecordV::Written(path + "\n"@));
    let body = path + "\n"@;
    assert(body.last() == '\n');
    assert(body.drop_last() =~= path);
    assert(path.contains(path.last()));
    assert(trimmed(path) == path);
    assert(trimmed(body) == path);
}

impl DirCopies {
    pub fn open(records: DirRecords) -> (r: DirCopies)
        ensures
            r.records@ == records@,
            r.keep == COPY_MEMO_KEEP,
            r.inserts == 0,
            !r.due,
            records.wf() ==> r.wf(),
    {
        DirCopies::open_keeping(records, COPY_MEMO_KEEP)
    }

    /// The copies of a directory that was pruned to `keep`.
    pub fn open_keeping(records: DirRecords, keep: usize) -> (r: DirCopies)
        ensures
            r.records@ == records@,
            r.keep == keep,
            r.inserts == 0,
            !r.due,
            records.wf() ==> r.wf(),
    {
        DirCopies { records, keep, inserts: 0, due: false }
    }

    /// The path that a copy was made to.
    pub fn get(&self, key: &digest::Hash) -> (r: Option<String>)
        ensures
            r.deep_view() == copied_to(self.records@, key@),
    {
        let Some(body) = self.records.get(key.to_hex().as_str()) else {
            return None;
        };
        let c = text::chars(body.as_str());
        let mut n: usize = c.len();
        assert(c@.take(n as int) =~= c@);
        while n > 0 && c[n - 1] == '\n'
            invariant
                n <= c.len(),
                trimmed(c@) == trimmed(c@.take(n as int)),
            decreases n,
        {
            proof {
                assert(c@.take(n as int).drop_last() =~= c@.take(n - 1));
            }
            n -= 1;
        }
        let path = text::spell(&c, 0, n);
        assert(path@ =~= c@.take(n as int));
        let p = text::chars(path.as_str());
        if p.len() == 0 {
            return None;
        }
        let i = text::before(&p, '\n');
        if i < p.len() {
            assert(p@.contains(p@[i as int]));
            return None;
        }
        Some(path)
    }

    /// Remembers a copy; every so many, the directory is to be pruned.
    pub fn insert(&mut self, key: &digest::Hash, path: &str)
        requires
            old(self).inserts < u64::MAX,
        ensures
            old(self).remembering(final(self), key@, path@),
            old(self).wf() ==> final(self).wf(),
    {
        let mut body = path.to_owned();
        body.append("\n");
        self.records.insert(key.to_hex().as_str(), body.as_str());
        self.inserts = self.inserts + 1;
        if self.inserts % COPY_MEMO_PRUNE_EVERY == 0 {
            self.due = true;
        }
    }

    /// Takes in that the copy remembered last could not be written, and what
    /// is on disk under its key: it does not count.
    pub fn unwritten(&mut self, key: &digest::Hash, found: Option<(String, String, digest::Hash)>)
        requires
            old(self).wf(),
            old(self).inserts > 0,
        ensures
            final(self).records@ == loading(old(self).records@, digest::hex(key@), found),
            final(self).keep == old(self).keep,
            final(self).inserts == old(self).inserts - 1,
            final(self).due == (old(self).due && old(self).inserts % COPY_MEMO_PRUNE_EVERY != 0),
            final(self).wf(),
    {
        self.records.load(key.to_hex().as_str(), found);
        if self.inserts % COPY_MEMO_PRUNE_EVERY == 0 {
            self.due = false;
        }
        self.inserts = self.inserts - 1;
    }

    /// Whether the directory is to be pruned, which it then no longer is.
    pub fn take_due(&mut self) -> (due: bool)
        ensures
            due == old(self).due,
            !final(self).due,
            final(self).records == old(self).records,
            final(self).keep == old(self).keep,
            final(self).inserts == old(self).inserts,
    {
        let due = self.due;
        self.due = false;
        due
    }
}

/// A record that was read says its body only where the digest that it claims
/// is that of the body.
pub proof fn a_record_says_what_it_claims(
    records: Seq<(Seq<char>, RecordV)>,
    name: Seq<char>,
    body: Seq<char>,
)
    requires
        said(records, name) == Some(body),
    ensures
        match ordered::find(records, name) {
            Some(RecordV::Read { claimed, body: b, digest }) => b == body && claimed
                == digest::hex(digest),
            Some(RecordV::Written(b)) => b == body,
            None => false,
        },
{
}

/// A copy's path is one line that is not empty, and all that its record says
/// but for line ends behind it.
pub proof fn a_copied_path_is_one_line(body: Seq<char>, path: Seq<char>)
    requires
        copied_path(body) == Some(path),
    ensures
        path.len() > 0,
        !path.contains('\n'),
        path.len() <= body.len(),
        body.take(path.len() as int) == path,
        forall|i: int| path.len() <= i < body.len() ==> #[trigger] body[i] == '\n',
{
    trimmed_is(body);
}

proof fn trimmed_is(s: Seq<char>)
    ensures
        trimmed(s).len() <= s.len(),
        s.take(trimmed(s).len() as int) == trimmed(s),
        forall|i: int| trimmed(s).len() <= i < s.len() ==> #[trigger] s[i] == '\n',
    decreases s.len(),
{
    if s.len() > 0 && s.last() == '\n' {
        let t = s.drop_last();
        trimmed_is(t);
        assert(s.take(trimmed(t).len() as int) =~= t.take(trimmed(t).len() as int));
        assert forall|i: int| trimmed(s).len() <= i < s.len() implies #[trigger] s[i] == '\n' by {
            if i < t.len() {
                assert(s[i] == t[i]);
            }
        }
    } else {
        assert(s.take(s.len() as int) =~= s);
    }
}

/// A temporary file goes once it is an hour old, and not before; a record is
/// never taken for one.
pub proof fn when_a_temporary_goes(listing: Seq<Listed>, e: Listed, now: u64, keep: usize)
    requires
        text::begins(e.name@, ".tmp-"@),
    ensures
        goes(listing, e, now, keep) <==> now - e.modified > 3_600_000_000_000,
{
}

/// The names that a prune gives are those of the files that go, and no others.
pub proof fn a_prune_names_what_goes(listing: Seq<Listed>, now: u64, keep: usize, n: int, i: int)
    requires
        0 <= n <= listing.len(),
        0 <= i < n,
        names_differ(listing),
    ensures
        going(listing, now, keep, n).contains(listing[i].name@) <==> goes(
            listing,
            listing[i],
            now,
            keep,
        ),
    decreases n,
{
    going_is_of_these(listing, now, keep, n - 1);
    let prior = going(listing, now, keep, n - 1);
    let all = going(listing, now, keep, n);
    if i < n - 1 {
        a_prune_names_what_goes(listing, now, keep, n - 1, i);
        assert(listing[i].name@ != listing[n - 1].name@);
        if prior.contains(listing[i].name@) {
            let k = prior.index_of(listing[i].name@);
            assert(all[k] == listing[i].name@);
        }
        if all.contains(listing[i].name@) {
            let k = all.index_of(listing[i].name@);
            if k < prior.len() {
                assert(prior[k] == listing[i].name@);
            }
        }
    } else if goes(listing, listing[i], now, keep) {
        assert(all.last() == listing[i].name@);
    } else if all.contains(listing[i].name@) {
        let k = all.index_of(listing[i].name@);
        let j = choose|j: int| 0 <= j < n - 1 && (#[trigger] listing[j]).name@ == prior[k];
        assert(listing[j].name@ != listing[i].name@);
    }
}

proof fn going_is_of_these(listing: Seq<Listed>, now: u64, keep: usize, n: int)
    requires
        0 <= n <= listing.len(),
    ensures
        forall|k: int|
            0 <= k < going(listing, now, keep, n).len() ==> exists|j: int|
                0 <= j < n && (#[trigger] listing[j]).name@ == #[trigger] going(
                    listing,
                    now,
                    keep,
                    n,
                )[k],
    decreases n,
{
    if n > 0 {
        going_is_of_these(listing, now, keep, n - 1);
        let prior = going(listing, now, keep, n - 1);
        let all = going(listing, now, keep, n);
        assert forall|k: int| 0 <= k < all.len() implies exists|j: int|
            0 <= j < n && (#[trigger] listing[j]).name@ == #[trigger] all[k] by {
            if k < prior.len() {
                assert(all[k] == prior[k]);
                let j = choose|j: int| 0 <= j < n - 1 && (#[trigger] listing[j]).name@ == prior[k];
                assert(listing[j].name@ == all[k]);
            } else {
                assert(listing[n - 1].name@ == all[k]);
            }
        }
    }
}

/// A record goes only for others that were used after it: the later, or of one
/// moment those whose names stand behind.
pub proof fn the_later_outlives_the_earlier(listing: Seq<Listed>, i: int, j: int, now: u64, keep: usize)
    requires
        names_differ(listing),
        0 <= i < listing.len(),
        0 <= j < listing.len(),
        !listing[i].temporary(),
        !listing[j].temporary(),
        listing[i].modified < listing[j].modified,
        !goes(listing, listing[i], now, keep),
    ensures
        !goes(listing, listing[j], now, keep),
{
    newer_shrinks(listing, i, j, listing.len() as int);
}

proof fn newer_shrinks(listing: Seq<Listed>, i: int, j: int, n: int)
    requires
        0 <= i < listing.len(),
        0 <= j < listing.len(),
        0 <= n <= listing.len(),
        listing[i].older(&listing[j]),
    ensures
        newer(listing, listing[j], n) <= newer(listing, listing[i], n),
    decreases n,
{
    if n > 0 {
        newer_shrinks(listing, i, j, n - 1);
        older_is_an_order(listing[i], listing[j], listing[n - 1]);
    }
}

} // verus!
