//! Filtered copies that need not be made again.
use vstd::prelude::*;
use crate::digest;
use crate::digest::{Part, PartV, Preimage, PreimageV};
use crate::host::{Ask, Host, Links, Reply, Sealed, StoreError, StoreErrorV};
use crate::immutable;
use crate::links;
use crate::links::SymlinkV;
use crate::model;
use crate::model::Plain;
use crate::number;
use crate::ordered;
use crate::ordered::TextMap;
use crate::question::{Question, QuestionV};
use crate::readset;
use crate::records;
use crate::records::{DirCopies, DirSealed, DirSealedV, RecordV};
use crate::task::{FilteredCopy, FilteredCopyV, PathMethod};
use crate::text;
use crate::value::{PathValue, PathValueV, Root};

verus! {

/// The tag of the keys of copies.
pub const COPY_MEMO_TAG: &'static str = "ixe-copy-memo-v1";

/// The key of a copy: what it is of, and in which store.
pub open spec fn copy_key_of(q: QuestionV, dir: Option<Seq<char>>) -> PreimageV {
    PreimageV {
        tag: COPY_MEMO_TAG@,
        parts: readset::byte_parts(q.key_material()).push(
            PartV::Bytes(
                text::utf8(
                    match dir {
                        Some(d) => d,
                        None => ""@,
                    },
                ),
            ),
        ),
    }
}

/// The same copy in another store has another key.
pub proof fn copy_keys_carry_the_store(q: QuestionV, a: Seq<char>, b: Seq<char>)
    requires
        a != b,
    ensures
        copy_key_of(q, Some(a)) != copy_key_of(q, Some(b)),
{
    assert(copy_key_of(q, Some(a)).parts.last() == PartV::Bytes(text::utf8(a)));
    assert(copy_key_of(q, Some(b)).parts.last() == PartV::Bytes(text::utf8(b)));
    if text::utf8(a) == text::utf8(b) {
        text::utf8_injective(a, b);
    }
}

/// What the key of a copy is the hash of.
pub fn copy_key(question: &Question, store_dir: &Option<String>) -> (r: Preimage)
    ensures
        r@ == copy_key_of(question@, store_dir.deep_view()),
{
    let mut parts: Vec<Part> = Vec::new();
    assert(parts.deep_view() =~= Seq::<PartV>::empty());
    readset::material_parts(&mut parts, question);
    let ghost prior = parts.deep_view();
    assert(prior =~= readset::byte_parts(question@.key_material()));
    let dir: &str = match store_dir {
        Some(d) => d.as_str(),
        None => "",
    };
    parts.push(readset::bytes_part(text::bytes(dir)));
    assert(parts.deep_view() =~= prior.push(PartV::Bytes(text::utf8(dir@))));
    Preimage { tag: COPY_MEMO_TAG.to_owned(), parts }
}

/// What the parts of a look cost, in nanoseconds.
#[derive(Clone, Copy, Debug, PartialEq, Eq)]
pub struct CopyCost {
    pub immutable_ns: u64,
    pub key_ns: u64,
    pub get_ns: u64,
    pub valid_ns: u64,
    pub allow_ns: u64,
}

impl Default for CopyCost {
    fn default() -> (r: CopyCost)
        ensures
            r == (CopyCost {
                immutable_ns: 0,
                key_ns: 0,
                get_ns: 0,
                valid_ns: 0,
                allow_ns: 0,
            }),
    {
        CopyCost { immutable_ns: 0, key_ns: 0, get_ns: 0, valid_ns: 0, allow_ns: 0 }
    }
}

impl CopyCost {
    /// The costs, each by its name.
    pub open spec fn shown(self) -> Seq<char> {
        "immutable_ns="@ + number::decimal(self.immutable_ns as nat) + " key_ns="@
            + number::decimal(self.key_ns as nat) + " get_ns="@ + number::decimal(
            self.get_ns as nat,
        ) + " valid_ns="@ + number::decimal(self.valid_ns as nat) + " allow_ns="@
            + number::decimal(self.allow_ns as nat)
    }

    /// The costs, each by its name.
    pub fn to_string(&self) -> (r: String)
        ensures
            r@ == self.shown(),
    {
        let mut s: String = "immutable_ns=".to_owned();
        s.append(number::show(self.immutable_ns).as_str());
        s.append(" key_ns=");
        s.append(number::show(self.key_ns).as_str());
        s.append(" get_ns=");
        s.append(number::show(self.get_ns).as_str());
        s.append(" valid_ns=");
        s.append(number::show(self.valid_ns).as_str());
        s.append(" allow_ns=");
        s.append(number::show(self.allow_ns).as_str());
        s
    }
}

/// How many paths a filter accepted, in words.
pub open spec fn accepted_label(r: FilteredCopyV) -> Seq<char> {
    match r.accepted {
        Some(list) => number::decimal(list.len()),
        None => "unfiltered"@,
    }
}

/// The name of a method as it is declared.
pub open spec fn method_label(m: PathMethod) -> Seq<char> {
    match m {
        PathMethod::Flat => "Flat"@,
        PathMethod::NixArchive => "NixArchive"@,
    }
}

/// The line that traces a filtered copy.
pub open spec fn trace_line(
    route: Seq<char>,
    request: FilteredCopyV,
    cost: CopyCost,
    record_ns: u64,
    total_ns: u64,
    answer: Result<Seq<char>, StoreErrorV>,
) -> Seq<char> {
    "ixe question: StoreFiltered served="@ + route + " root="@ + request.root.path + " accepted="@
        + accepted_label(request) + " method="@ + method_label(request.method) + " "@
        + cost.shown() + " record_ns="@ + number::decimal(record_ns as nat) + " total_ns="@
        + number::decimal(total_ns as nat) + " -> "@ + (match answer {
        Ok(path) => path,
        Err(_) => "error"@,
    })
}

/// The line that traces a filtered copy.
pub fn store_filtered_trace(
    route: &str,
    request: &FilteredCopy,
    cost: &CopyCost,
    record_ns: u64,
    total_ns: u64,
    answer: &Result<String, StoreError>,
) -> (r: String)
    ensures
        r@ == trace_line(
            route@,
            request@,
            *cost,
            record_ns,
            total_ns,
            model::outcome(*answer),
        ),
{
    let mut s: String = "ixe question: StoreFiltered served=".to_owned();
    s.append(route);
    s.append(" root=");
    s.append(request.root.accessor_path());
    s.append(" accepted=");
    match &request.accepted {
        Some(list) => {
            assert(list.deep_view().len() == list@.len());
            s.append(number::show(list.len() as u64).as_str());
        },
        None => {
            s.append("unfiltered");
        },
    }
    s.append(" method=");
    match request.method {
        PathMethod::Flat => {
            s.append("Flat");
        },
        PathMethod::NixArchive => {
            s.append("NixArchive");
        },
    }
    s.append(" ");
    s.append(cost.to_string().as_str());
    s.append(" record_ns=");
    s.append(number::show(record_ns).as_str());
    s.append(" total_ns=");
    s.append(number::show(total_ns).as_str());
    s.append(" -> ");
    match answer {
        Ok(path) => {
            s.append(path.as_str());
        },
        Err(_) => {
            s.append("error");
        },
    }
    s
}

/// What a look for a copy finds.
#[derive(Debug, PartialEq, Eq)]
pub enum CopyLookup {
    /// The source may have changed: the copy is made, and not remembered.
    Mutable,
    /// The copy is made, and remembered under the key.
    Miss(digest::Hash),
    /// The copy was made before, to this path.
    Served(String),
}

/// The model of [`CopyLookup`].
#[verifier::ext_equal]
pub enum CopyLookupV {
    Mutable,
    Miss(Seq<u8>),
    Served(Seq<char>),
}

impl View for CopyLookup {
    type V = CopyLookupV;

    open spec fn view(&self) -> CopyLookupV {
        match self {
            CopyLookup::Mutable => CopyLookupV::Mutable,
            CopyLookup::Miss(k) => CopyLookupV::Miss(k@),
            CopyLookup::Served(p) => CopyLookupV::Served(p@),
        }
    }
}

/// Copies made before. Which sources cannot have changed is known of the
/// sealed objects, and whoever looks lends the one handle on these.
#[derive(Debug, PartialEq, Eq)]
pub struct CopyMemo {
    pub copies: DirCopies,
    pub store_dir: Option<String>,
}

/// What is known of one object, and the memo, after the store was asked about it.
pub open spec fn one_sealed_by(
    memo: DirSealedV,
    object: Seq<char>,
    reply: Result<Seq<(Seq<char>, Seq<SymlinkV>)>, StoreErrorV>,
) -> (Option<Seq<Seq<char>>>, DirSealedV) {
    match reply {
        Err(_) => (None, memo),
        Ok(answered) => match ordered::find(answered, object) {
            None => (None, memo.declining(object)),
            Some(l) => (Some(links::left(l)), memo.sealing(object, links::left(l))),
        },
    }
}

/// The links that leave one object, where it is sealed, and the memo after
/// the store was asked about it, which it is not where it declined before.
pub open spec fn one_sealed<H: Host>(
    h: &H,
    memo: DirSealedV,
    object: Seq<char>,
    r: Option<Seq<Seq<char>>>,
    after: DirSealedV,
) -> bool {
    if memo.declined.contains(object) {
        r is None && after == memo
    } else {
        exists|reply: Result<Seq<(Seq<char>, Seq<SymlinkV>)>, StoreErrorV>| #[trigger]
            h.answers(Ask::SealedPaths(seq![object]), Reply::Links(reply)) && (r, after)
                == one_sealed_by(memo, object, reply)
    }
}

/// Takes in what the store says of one object.
pub fn seal_one_answered(
    object: &str,
    memo: &mut DirSealed,
    reply: Result<Links, StoreError>,
) -> (r: Option<Vec<String>>)
    ensures
        (r.deep_view(), final(memo)@) == one_sealed_by(old(memo)@, object@, model::outcome(reply)),
        old(memo).wf() ==> final(memo).wf(),
{
    let Ok(answered) = reply else {
        return None;
    };
    match answered.get(object) {
        None => {
            memo.decline(object);
            None
        },
        Some(l) => {
            let leaving = links::leaving_links(l);
            proof {
                model::deep_vec(l);
                model::deep_texts(&leaving);
                links::leaving_is_one(l.deep_view(), text::texts(leaving@));
            }
            memo.insert(object, &leaving);
            Some(leaving)
        },
    }
}

/// The links that leave one object, where it is sealed.
pub fn seal_one<H: Host>(object: &str, host: &H, memo: &mut DirSealed) -> (r: Option<Vec<String>>)
    ensures
        one_sealed(host, old(memo)@, object@, r.deep_view(), final(memo)@),
        old(memo).wf() ==> final(memo).wf(),
{
    if memo.declined(object) {
        return None;
    }
    let mut asked: Vec<String> = Vec::new();
    asked.push(object.to_owned());
    assert(asked.deep_view() =~= seq![object@]);
    let reply = host.sealed_paths(&asked);
    let ghost said = model::outcome(reply);
    assert(host.answers(Ask::SealedPaths(seq![object@]), Reply::Links(said)));
    seal_one_answered(object, memo, reply)
}

/// The root's object, sealed with these links, is fixed there.
pub open spec fn fixed_by(
    root: PathValueV,
    object: Seq<char>,
    leaving: Option<Seq<Seq<char>>>,
    dir: Option<Seq<char>>,
) -> bool {
    match leaving {
        Some(l) => immutable::fixed(root, seq![(object, l)], dir),
        None => false,
    }
}

/// The root cannot have changed under its spelling, or may have; and the memo
/// of sealed objects after that was found.
pub open spec fn root_fixed<H: Host>(
    h: &H,
    memo: DirSealedV,
    dir: Option<Seq<char>>,
    root: PathValueV,
    b: bool,
    after: DirSealedV,
) -> bool {
    if root.root is Mounted {
        b && after == memo
    } else {
        match immutable::object_of(dir, root.path) {
            None => !b && after == memo,
            Some(object) => object_fixed(h, memo, dir, root, object, b, after),
        }
    }
}

pub open spec fn object_fixed<H: Host>(
    h: &H,
    memo: DirSealedV,
    dir: Option<Seq<char>>,
    root: PathValueV,
    object: Seq<char>,
    b: bool,
    after: DirSealedV,
) -> bool {
    match memo.leaving(object) {
        Some(l) => b == fixed_by(root, object, Some(l), dir) && after == memo,
        None => exists|leaving: Option<Seq<Seq<char>>>| #[trigger]
            one_sealed(h, memo, object, leaving, after) && b == fixed_by(
                root,
                object,
                leaving,
                dir,
            ),
    }
}

/// A copy made before is served where the store holds it and the host lets it
/// be read.
pub open spec fn copy_served<H: Host>(
    h: &H,
    key: Seq<u8>,
    path: Seq<char>,
    r: CopyLookupV,
) -> bool {
    exists|v: Result<Seq<Seq<char>>, StoreErrorV>| #[trigger]
        h.answers(Ask::ValidPaths(seq![path]), Reply::Valid(v)) && (if (v matches Ok(held)
            && held.contains(path)) {
            copy_allowed(h, key, path, r)
        } else {
            r == CopyLookupV::Miss(key)
        })
}

pub open spec fn copy_allowed<H: Host>(
    h: &H,
    key: Seq<u8>,
    path: Seq<char>,
    r: CopyLookupV,
) -> bool {
    exists|a: Result<(), StoreErrorV>| #[trigger]
        h.answers(Ask::AllowPaths(seq![path]), Reply::Done(a)) && r == (if a is Ok {
            CopyLookupV::Served(path)
        } else {
            CopyLookupV::Miss(key)
        })
}

/// What a look finds for a copy whose source cannot have changed.
pub open spec fn looked_fixed<H: Host>(
    h: &H,
    copies: Seq<(Seq<char>, RecordV)>,
    key: Seq<u8>,
    r: CopyLookupV,
) -> bool {
    match records::copied_to(copies, key) {
        None => r == CopyLookupV::Miss(key),
        Some(path) => copy_served(h, key, path, r),
    }
}

/// What a look for a filtered copy finds, and the memo of sealed objects after it.
pub open spec fn looked<H: Host>(
    h: &H,
    copies: Seq<(Seq<char>, RecordV)>,
    sealed: DirSealedV,
    dir: Option<Seq<char>>,
    q: QuestionV,
    key: Seq<u8>,
    r: CopyLookupV,
    after: DirSealedV,
) -> bool {
    match q {
        QuestionV::StoreFiltered(request) => exists|b: bool| #[trigger]
            root_fixed(h, sealed, dir, request.root, b, after) && (if b {
                looked_fixed(h, copies, key, r)
            } else {
                r == CopyLookupV::Mutable
            }),
        _ => r == CopyLookupV::Mutable && after == sealed,
    }
}

impl CopyMemo {
    pub fn new(copies: DirCopies, store_dir: Option<String>) -> (r: CopyMemo)
        ensures
            r.copies == copies,
            r.store_dir == store_dir,
    {
        CopyMemo { copies, store_dir }
    }

    /// What the key of a copy is the hash of.
    pub fn key_of(&self, question: &Question) -> (r: Preimage)
        ensures
            r@ == copy_key_of(question@, self.store_dir.deep_view()),
    {
        copy_key(question, &self.store_dir)
    }

    /// Whether the root cannot have changed under its spelling.
    pub fn immutable<H: Host>(&self, root: &PathValue, host: &H, sealed: &mut DirSealed) -> (b: bool)
        ensures
            root_fixed(
                host,
                old(sealed)@,
                self.store_dir.deep_view(),
                root@,
                b,
                final(sealed)@,
            ),
            old(sealed).wf() ==> final(sealed).wf(),
    {
        if let Root::Mounted(_) = root.root {
            return true;
        }
        let Some(object) = immutable::store_object_of(&self.store_dir, root.path.as_str()) else {
            return false;
        };
        let ghost before = sealed@;
        let known = sealed.get(object.as_str());
        let leaving = match known {
            Some(l) => Some(l),
            None => seal_one(object.as_str(), host, sealed),
        };
        assert(before.leaving(object@) is None ==> one_sealed(
            host,
            before,
            object@,
            leaving.deep_view(),
            sealed@,
        ));
        let Some(l) = leaving else {
            return false;
        };
        let ghost links = l.deep_view();
        let mut one: Sealed = TextMap::new();
        one.insert(object.clone(), l);
        assert(one@ =~= seq![(object@, links)]);
        immutable::immutable_root(root, &one, &self.store_dir)
    }

    /// Looks for a copy made before of a source that cannot have changed.
    pub fn look_fixed<H: Host>(&self, key: &digest::Hash, host: &H) -> (r: CopyLookup)
        ensures
            looked_fixed(host, self.copies.records@, key@, r@),
    {
        let Some(path) = self.copies.get(key) else {
            return CopyLookup::Miss(*key);
        };
        let mut asked: Vec<String> = Vec::new();
        asked.push(path.clone());
        assert(asked.deep_view() =~= seq![path@]);
        let valid = host.valid_paths(&asked);
        let ghost said = model::outcome(valid);
        assert(host.answers(Ask::ValidPaths(seq![path@]), Reply::Valid(said)));
        let held = match &valid {
            Ok(present) => present.contains(path.as_str()),
            Err(_) => false,
        };
        if !held {
            assert(copy_served(host, key@, path@, CopyLookupV::Miss(key@)));
            return CopyLookup::Miss(*key);
        }
        let allowed = host.allow_paths(&asked);
        let ghost let_in = model::outcome(allowed);
        assert(host.answers(Ask::AllowPaths(seq![path@]), Reply::Done(let_in)));
        if allowed.is_err() {
            assert(copy_allowed(host, key@, path@, CopyLookupV::Miss(key@)));
            assert(copy_served(host, key@, path@, CopyLookupV::Miss(key@)));
            return CopyLookup::Miss(*key);
        }
        assert(copy_allowed(host, key@, path@, CopyLookupV::Served(path@)));
        assert(copy_served(host, key@, path@, CopyLookupV::Served(path@)));
        CopyLookup::Served(path)
    }

    /// Looks for a copy made before, `key` being the hash of its key.
    pub fn look<H: Host>(
        &self,
        question: &Question,
        key: &digest::Hash,
        host: &H,
        sealed: &mut DirSealed,
    ) -> (r: CopyLookup)
        ensures
            looked(
                host,
                self.copies.records@,
                old(sealed)@,
                self.store_dir.deep_view(),
                question@,
                key@,
                r@,
                final(sealed)@,
            ),
            old(sealed).wf() ==> final(sealed).wf(),
    {
        let Question::StoreFiltered(request) = question else {
            return CopyLookup::Mutable;
        };
        let ghost before = sealed@;
        let b = self.immutable(&request.root, host, sealed);
        assert(root_fixed(
            host,
            before,
            self.store_dir.deep_view(),
            request@.root,
            b,
            sealed@,
        ));
        if b {
            self.look_fixed(key, host)
        } else {
            CopyLookup::Mutable
        }
    }

    /// Remembers a copy.
    pub fn remember(&mut self, key: &digest::Hash, path: &str)
        requires
            old(self).copies.inserts < u64::MAX,
        ensures
            old(self).copies.remembering(&final(self).copies, key@, path@),
            old(self).copies.wf() ==> final(self).copies.wf(),
            final(self).store_dir == old(self).store_dir,
    {
        self.copies.insert(key, path);
    }
}

/// Two copies have one key only where they are of the same request in the
/// same store: all that a request names is in its key.
pub proof fn copy_keys_tell_requests_apart(
    p: QuestionV,
    d: Option<Seq<char>>,
    q: QuestionV,
    e: Option<Seq<char>>,
)
    requires
        copy_key_of(p, d) == copy_key_of(q, e),
    ensures
        p.key_material() == q.key_material(),
        named_dir(d) == named_dir(e),
        p.wf() && q.wf() && p is StoreFiltered ==> p == q,
{
    let x = copy_key_of(p, d).parts;
    let y = copy_key_of(q, e).parts;
    let m = p.key_material();
    let n = q.key_material();
    reveal_strlit("");
    assert(""@ =~= Seq::<char>::empty());
    assert(x.last() == PartV::Bytes(text::utf8(named_dir(d))));
    assert(y.last() == PartV::Bytes(text::utf8(named_dir(e))));
    text::utf8_injective(named_dir(d), named_dir(e));
    assert(x.len() == m.len() + 1 && y.len() == n.len() + 1);
    assert forall|i: int| 0 <= i < m.len() implies m[i] == n[i] by {
        assert(x[i] == PartV::Bytes(m[i]));
        assert(y[i] == PartV::Bytes(n[i]));
    }
    assert(m =~= n);
    if p.wf() && q.wf() && p is StoreFiltered {
        crate::codec::material_names_the_question(p, q);
    }
}

/// The store directory as a key names it.
pub open spec fn named_dir(dir: Option<Seq<char>>) -> Seq<char> {
    match dir {
        Some(d) => d,
        None => Seq::empty(),
    }
}

/// What is remembered once the copies of these requests were, one after the
/// other, each in its store, `hash` hashing keys.
pub open spec fn remembered(
    made: Seq<(QuestionV, Option<Seq<char>>, Seq<char>)>,
    hash: spec_fn(PreimageV) -> Seq<u8>,
) -> Seq<(Seq<char>, RecordV)>
    decreases made.len(),
{
    if made.len() == 0 {
        Seq::empty()
    } else {
        let (q, d, path) = made.last();
        records::copying(remembered(made.drop_last(), hash), hash(copy_key_of(q, d)), path)
    }
}

/// A path that is found for a request is one that this very request was
/// copied to before, in this store.
pub proof fn a_remembered_copy_is_of_its_request(
    made: Seq<(QuestionV, Option<Seq<char>>, Seq<char>)>,
    hash: spec_fn(PreimageV) -> Seq<u8>,
    q: QuestionV,
    d: Option<Seq<char>>,
) -> (i: int)
    requires
        forall|a: PreimageV, b: PreimageV| #[trigger] hash(a) == #[trigger] hash(b) ==> a == b,
        q.wf() && q is StoreFiltered,
        forall|k: int|
            0 <= k < made.len() ==> (#[trigger] made[k]).0.wf() && made[k].2.len() > 0
                && !made[k].2.contains('\n'),
        records::copied_to(remembered(made, hash), hash(copy_key_of(q, d))) is Some,
    ensures
        0 <= i < made.len(),
        made[i].0 == q,
        named_dir(made[i].1) == named_dir(d),
        records::copied_to(remembered(made, hash), hash(copy_key_of(q, d))) == Some(made[i].2),
    decreases made.len(),
{
    let key = hash(copy_key_of(q, d));
    if made.len() == 0 {
        assert(false);
        0
    } else {
        let (p, e, path) = made.last();
        let last = hash(copy_key_of(p, e));
        let prior = remembered(made.drop_last(), hash);
        if digest::hex(last) == digest::hex(key) {
            digest::hex_injective(last, key);
            copy_keys_tell_requests_apart(q, d, p, e);
            assert(made[made.len() - 1].2.len() > 0);
            records::copy_reads_back(prior, key, path);
            made.len() - 1
        } else {
            ordered::put_keeps(
                prior,
                digest::hex(last),
                RecordV::Written(path + "\n"@),
                digest::hex(key),
            );
            assert forall|k: int| 0 <= k < made.drop_last().len() implies (#[trigger] made.drop_last()[k]).0.wf()
                && made.drop_last()[k].2.len() > 0 && !made.drop_last()[k].2.contains('\n') by {
                assert(made.drop_last()[k] == made[k]);
            }
            a_remembered_copy_is_of_its_request(made.drop_last(), hash, q, d)
        }
    }
}

/// A copy is served only of a source that cannot have changed, to the path
/// that is remembered under its key, where the store holds that path and the
/// host lets it be read.
pub proof fn a_served_copy_is_held<H: Host>(
    h: &H,
    copies: Seq<(Seq<char>, RecordV)>,
    sealed: DirSealedV,
    dir: Option<Seq<char>>,
    request: FilteredCopyV,
    key: Seq<u8>,
    path: Seq<char>,
    after: DirSealedV,
)
    requires
        looked(
            h,
            copies,
            sealed,
            dir,
            QuestionV::StoreFiltered(request),
            key,
            CopyLookupV::Served(path),
            after,
        ),
    ensures
        records::copied_to(copies, key) == Some(path),
        root_fixed(h, sealed, dir, request.root, true, after),
        request.root.root is Mounted || (exists|object: Seq<char>, l: Seq<Seq<char>>|
            immutable::object_of(dir, request.root.path) == Some(object) && #[trigger]
            immutable::fixed(request.root, seq![(object, l)], dir)),
        exists|held: Seq<Seq<char>>| #[trigger]
            h.answers(Ask::ValidPaths(seq![path]), Reply::Valid(Ok(held))) && held.contains(path),
        exists|a: Result<(), StoreErrorV>| #[trigger]
            h.answers(Ask::AllowPaths(seq![path]), Reply::Done(a)) && a is Ok,
{
    let b = choose|b: bool| #[trigger]
        root_fixed(h, sealed, dir, request.root, b, after) && (if b {
            looked_fixed(h, copies, key, CopyLookupV::Served(path))
        } else {
            CopyLookupV::Served(path) == CopyLookupV::Mutable
        });
    assert(b);
    if !(request.root.root is Mounted) {
        let object = immutable::object_of(dir, request.root.path)->0;
        match sealed.leaving(object) {
            Some(l) => {
                assert(immutable::fixed(request.root, seq![(object, l)], dir));
            },
            None => {
                let leaving = choose|leaving: Option<Seq<Seq<char>>>| #[trigger]
                    one_sealed(h, sealed, object, leaving, after) && b == fixed_by(
                        request.root,
                        object,
                        leaving,
                        dir,
                    );
                assert(immutable::fixed(request.root, seq![(object, leaving->0)], dir));
            },
        }
    }
}

/// Of one object the memo learns what the store says: the links that leave it
/// where it is sealed, that it is declined where the store does not answer for
/// it, and nothing where the store fails.
pub proof fn what_is_learnt_of_an_object(
    memo: DirSealedV,
    object: Seq<char>,
    reply: Result<Seq<(Seq<char>, Seq<SymlinkV>)>, StoreErrorV>,
)
    requires
        text::sorted(memo.declined),
    ensures
        reply is Err ==> one_sealed_by(memo, object, reply) == (
            None::<Seq<Seq<char>>>,
            memo,
        ),
        reply matches Ok(answered) ==> (ordered::find(answered, object) matches Some(l)
            ==> one_sealed_by(memo, object, reply).0 == Some(links::left(l)) && !one_sealed_by(
            memo,
            object,
            reply,
        ).1.declined.contains(object)),
        reply matches Ok(answered) ==> (ordered::find(answered, object) is None ==> one_sealed_by(
            memo,
            object,
            reply,
        ).0 is None && one_sealed_by(memo, object, reply).1.declined.contains(object)
            && one_sealed_by(memo, object, reply).1.records == memo.records),
{
    ordered::add_sorted(memo.declined, object);
    ordered::excluded_sorted(memo.declined, object);
}

} // verus!
