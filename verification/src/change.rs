//! What a replay may answer without asking, and how a changed world is noticed.
use vstd::prelude::*;
use crate::digest;
use crate::digest::{DigestV, HashFn, WriteDrvAnswerV};
use crate::host::{Ask, Host, ImportedSourceV, LookupErrorV, Reply, StoreErrorV};
use crate::immutable;
use crate::ordered;
use crate::purity::PathReads;
use crate::question;
use crate::question::{QuestionV, RecordedV};
use crate::recorder;
use crate::replay;
use crate::replay::{ReplayFailureV, SceneV};
use crate::validity;
use crate::validity::{StandsOnV, ValidityV};
use crate::value::{ContextElemV, PathValueV, RootV};

verus! {

/// The host says, to some question, that its store holds the path.
pub open spec fn says_held<H: Host>(h: &H, path: Seq<char>) -> bool {
    exists|paths: Seq<Seq<char>>, held: Seq<Seq<char>>| #[trigger]
        h.answers(Ask::ValidPaths(paths), Reply::Valid(Ok(held))) && held.contains(path)
}

/// The host says, to some question, that the path may be read.
pub open spec fn lets_in<H: Host>(h: &H, path: Seq<char>) -> bool {
    exists|a: Result<(), StoreErrorV>| #[trigger]
        h.answers(Ask::AllowPaths(seq![path]), Reply::Done(a)) && a is Ok
}

/// What is known of the store is what the host says.
pub open spec fn as_said<H: Host>(h: &H, s: ValidityV) -> bool {
    forall|path: Seq<char>| #[trigger] s.present.contains(path) ==> says_held(h, path)
}

/// The row comes to something else than what is recorded: neither what the
/// store holds nor an answer that the host gives has the digest that is
/// recorded.
pub open spec fn changed_row<H: Host>(
    h: &H,
    e: SceneV,
    q: QuestionV,
    recorded: RecordedV,
    hash: HashFn,
) -> bool {
    &&& !q.replays(e.sealed, e.dir)
    &&& forall|s: ValidityV, t: ValidityV, d: DigestV|
        as_said(h, s) && #[trigger] replay::checked(h, e, s, q, recorded, t, Some(d))
            ==> d.settled(hash) != recorded.digest().settled(hash)
    &&& answered_otherwise(h, e, q, recorded, hash)
}

/// No answer that the host gives has the digest that is recorded.
pub open spec fn answered_otherwise<H: Host>(
    h: &H,
    e: SceneV,
    q: QuestionV,
    recorded: RecordedV,
    hash: HashFn,
) -> bool {
    forall|d: DigestV| #[trigger]
        replay::asked(h, e.given.objects, q, Ok(d)) ==> d.settled(hash)
            != recorded.digest().settled(hash)
}

/// A read is asked: one that is answered otherwise changed.
pub proof fn a_read_that_changed<H: Host>(
    h: &H,
    e: SceneV,
    q: QuestionV,
    recorded: RecordedV,
    hash: HashFn,
)
    requires
        !q.replays(e.sealed, e.dir),
        !(q is WriteDrv) && !(q is Realise),
        recorded is Digest || replay::may_have_changed(e, q),
        answered_otherwise(h, e, q, recorded, hash),
    ensures
        changed_row(h, e, q, recorded, hash),
{
}

/// A derivation that the store lost is written again: one that is answered
/// otherwise, or not at all, changed.
pub proof fn a_derivation_that_changed<H: Host>(
    h: &H,
    e: SceneV,
    name: Seq<char>,
    path: Seq<char>,
    aterm: Seq<u8>,
    recorded: RecordedV,
    hash: HashFn,
)
    requires
        !says_held(h, path),
        answered_otherwise(
            h,
            e,
            QuestionV::WriteDrv { name, answer: WriteDrvAnswerV::Written(path), aterm },
            recorded,
            hash,
        ),
    ensures
        changed_row(
            h,
            e,
            QuestionV::WriteDrv { name, answer: WriteDrvAnswerV::Written(path), aterm },
            recorded,
            hash,
        ),
{
    let q = QuestionV::WriteDrv { name, answer: WriteDrvAnswerV::Written(path), aterm };
    assert forall|s: ValidityV, t: ValidityV, d: DigestV|
        as_said(h, s) && #[trigger] replay::checked(h, e, s, q, recorded, t, Some(d)) implies false by {
        assert(validity::held(h, s, path, t, true));
        held_is_said(h, s, path, t, true);
    }
}

/// A kept answer is asked for again where the store lost what it names or the
/// host does not let it be read: one that is answered otherwise changed.
pub proof fn a_kept_answer_that_changed<H: Host>(
    h: &H,
    e: SceneV,
    q: QuestionV,
    answer: Seq<char>,
    object: Seq<char>,
    hash: HashFn,
)
    requires
        !q.replays(e.sealed, e.dir),
        !(q is WriteDrv) && !(q is Realise),
        q.named_object(answer) == Some(object),
        !lets_in(h, object) || (!(q is FetchTree) && !says_held(h, object)),
        answered_otherwise(h, e, q, RecordedV::Answer(answer), hash),
    ensures
        changed_row(h, e, q, RecordedV::Answer(answer), hash),
{
    let recorded = RecordedV::Answer(answer);
    assert forall|s: ValidityV, t: ValidityV, d: DigestV|
        as_said(h, s) && #[trigger] replay::checked(h, e, s, q, recorded, t, Some(d)) implies false by {
        if !(q is FetchTree) {
            assert(validity::held(h, s, object, t, true));
            held_is_said(h, s, object, t, true);
        }
        assert(lets_in(h, object));
    }
}

/// A realisation is asked again where the store lost a path that an output or
/// a derivation of it stands on: one that is answered otherwise changed.
pub proof fn a_realisation_that_changed<H: Host>(
    h: &H,
    e: SceneV,
    context: Seq<ContextElemV>,
    k: int,
    path: Seq<char>,
    recorded: RecordedV,
    hash: HashFn,
)
    requires
        0 <= k < context.len(),
        !(context[k] is Opaque),
        validity::stands(e.rows, e.given.objects, context[k]) matches Some(on)
            ==> on.needs.contains(path) && !says_held(h, path),
        answered_otherwise(h, e, QuestionV::Realise(context), recorded, hash),
    ensures
        changed_row(h, e, QuestionV::Realise(context), recorded, hash),
{
    let q = QuestionV::Realise(context);
    assert forall|s: ValidityV, t: ValidityV, d: DigestV|
        as_said(h, s) && #[trigger] replay::checked(h, e, s, q, recorded, t, Some(d)) implies false by {
        let resolved = replay::resolved_in(e, context);
        assert(resolved[k] == validity::stands(e.rows, e.given.objects, context[k]));
        if validity::all_resolved(resolved) {
            let on = validity::unwrapped(resolved);
            let n = context.len() as int;
            assert(resolved[k] is Some);
            assert(on[k].needs.contains(path));
            needs_has(context, on, s.mounted, n, k, path);
            let needs = validity::needs_of(context, on, s.mounted, n);
            assert(validity::all_held(h, s, needs, t, true));
            upto_is_said(h, s, needs, needs.len() as int, t);
            assert(says_held(h, path));
        }
    }
}

proof fn included_of(s: Seq<Seq<char>>, t: Seq<char>, x: Seq<char>)
    ensures
        ordered::included(s, t).contains(x) == (s.contains(x) || x == t),
    decreases s.len(),
{
    let p = ordered::included(s, t);
    if s.len() == 0 {
        assert(p[0] == t);
        assert(p.contains(x) ==> x == t);
    } else if s[0] == t {
        assert(s.contains(t));
    } else if crate::text::lt(t, s[0]) {
        assert(p[0] == t);
        if s.contains(x) {
            let i = s.index_of(x);
            assert(p[i + 1] == x);
        }
        if p.contains(x) && x != t {
            let i = p.index_of(x);
            assert(s[i - 1] == x);
        }
    } else {
        let d = s.drop_first();
        let q = ordered::included(d, t);
        included_of(d, t, x);
        assert(p[0] == s[0]);
        if p.contains(x) && x != s[0] {
            let i = p.index_of(x);
            assert(q[i - 1] == x);
            if d.contains(x) {
                let j = d.index_of(x);
                assert(s[j + 1] == x);
            }
        }
        if s.contains(x) && x != s[0] {
            let i = s.index_of(x);
            assert(d[i - 1] == x);
        }
        if q.contains(x) {
            let i = q.index_of(x);
            assert(p[i + 1] == x);
        }
        assert(s.contains(s[0]));
    }
}

proof fn including_has(set: Seq<Seq<char>>, v: Seq<Seq<char>>, n: int, x: Seq<char>)
    requires
        0 <= n <= v.len(),
        set.contains(x) || v.take(n).contains(x),
    ensures
        validity::including(set, v, n).contains(x),
    decreases n,
{
    if n > 0 {
        let prior = validity::including(set, v, n - 1);
        included_of(prior, v[n - 1], x);
        if x != v[n - 1] {
            if !set.contains(x) {
                let i = v.take(n).index_of(x);
                assert(v.take(n - 1)[i] == x);
            }
            including_has(set, v, n - 1, x);
        }
    }
}

proof fn needs_has(
    context: Seq<ContextElemV>,
    on: Seq<StandsOnV>,
    mounted: Seq<Seq<char>>,
    n: int,
    k: int,
    path: Seq<char>,
)
    requires
        0 <= k < n,
        !(context[k] is Opaque),
        on[k].needs.contains(path),
    ensures
        validity::needs_of(context, on, mounted, n).contains(path),
    decreases n,
{
    let needs = on[n - 1].needs;
    let prior = validity::needs_of(context, on, mounted, n - 1);
    assert(needs.take(needs.len() as int) =~= needs);
    if k < n - 1 {
        needs_has(context, on, mounted, n - 1, k, path);
    }
    if k == n - 1 || prior.contains(path) {
        including_has(prior, needs, needs.len() as int, path);
    }
}

proof fn held_is_said<H: Host>(h: &H, s: ValidityV, path: Seq<char>, t: ValidityV, b: bool)
    requires
        as_said(h, s),
        validity::held(h, s, path, t, b),
    ensures
        as_said(h, t),
        b ==> says_held(h, path) && t.present.contains(path),
{
    if !s.present.contains(path) && s.store_answers {
        let reply = choose|reply: Result<Seq<Seq<char>>, StoreErrorV>| #[trigger]
            h.answers(Ask::ValidPaths(seq![path]), Reply::Valid(reply)) && (t, b) == s.told(
                path,
                reply,
            );
        if let Ok(held) = reply {
            if held.contains(path) {
                assert(says_held(h, path));
                assert forall|x: Seq<char>| #[trigger] t.present.contains(x) implies says_held(h, x) by {
                    included_of(s.present, path, x);
                }
                included_of(s.present, path, path);
            }
        }
    }
}

proof fn upto_is_said<H: Host>(
    h: &H,
    s: ValidityV,
    paths: Seq<Seq<char>>,
    n: int,
    t: ValidityV,
)
    requires
        as_said(h, s),
        0 <= n <= paths.len(),
        validity::held_upto(h, s, paths, n, t),
    ensures
        as_said(h, t),
        forall|i: int| 0 <= i < n ==> says_held(h, #[trigger] paths[i]),
    decreases n,
{
    if n > 0 {
        let u = choose|u: ValidityV|
            validity::held_upto(h, s, paths, n - 1, u) && #[trigger] validity::held(
                h,
                u,
                paths[n - 1],
                t,
                true,
            );
        upto_is_said(h, s, paths, n - 1, u);
        held_is_said(h, u, paths[n - 1], t, true);
    }
}

proof fn checked_is_said<H: Host>(
    h: &H,
    e: SceneV,
    s: ValidityV,
    q: QuestionV,
    recorded: RecordedV,
    t: ValidityV,
    c: Option<DigestV>,
)
    requires
        as_said(h, s),
        replay::checked(h, e, s, q, recorded, t, c),
    ensures
        as_said(h, t),
{
    match q {
        QuestionV::WriteDrv { name, answer: WriteDrvAnswerV::Written(path), aterm } => {
            let b = choose|b: bool| #[trigger]
                validity::held(h, s, path, t, b) && c == (if b {
                    Some(crate::digest::store_outcome("write-drv"@, Ok(path)))
                } else {
                    None
                });
            held_is_said(h, s, path, t, b);
        },
        QuestionV::Realise(context) => {
            let resolved = replay::resolved_in(e, context);
            if validity::all_resolved(resolved) {
                let on = validity::unwrapped(resolved);
                let needs = validity::needs_of(context, on, s.mounted, context.len() as int);
                if validity::all_held(h, s, needs, t, true) {
                    upto_is_said(h, s, needs, needs.len() as int, t);
                } else {
                    assert(validity::all_held(h, s, needs, t, false));
                    let (k, u) = choose|k: int, u: ValidityV|
                        0 <= k < needs.len() && #[trigger] validity::held_upto(h, s, needs, k, u)
                            && validity::held(h, u, needs[k], t, false);
                    upto_is_said(h, s, needs, k, u);
                    held_is_said(h, u, needs[k], t, false);
                }
            }
        },
        _ => {
            if !replay::may_have_changed(e, q) {
                if let RecordedV::Answer(answer) = recorded {
                    if let Some(object) = q.named_object(answer) {
                        if !(q is FetchTree) {
                            if validity::held(h, s, object, t, true) {
                                held_is_said(h, s, object, t, true);
                            } else {
                                held_is_said(h, s, object, t, false);
                            }
                        }
                    }
                }
            }
        },
    }
}

proof fn row_at<H: Host>(
    h: &H,
    e: SceneV,
    s: ValidityV,
    n: int,
    t: ValidityV,
    out: Seq<RecordedV>,
    i: int,
) -> (w: (ValidityV, ValidityV))
    requires
        as_said(h, s),
        0 <= i < n <= e.rows.len(),
        replay::rows_to(h, e, s, n, t, out),
    ensures
        out.len() == n,
        as_said(h, w.0),
        as_said(h, t),
        replay::row_step(h, e, w.0, e.rows[i].0, e.rows[i].1, w.1, Ok(out[i])),
    decreases n,
{
    let q = e.rows[n - 1].0;
    let recorded = e.rows[n - 1].1;
    let u = choose|u: ValidityV|
        replay::rows_to(h, e, s, n - 1, u, out.drop_last()) && #[trigger] replay::row_step(
            h,
            e,
            u,
            q,
            recorded,
            t,
            Ok(out.last()),
        );
    let w = if i == n - 1 {
        if n > 1 {
            let _ = row_at(h, e, s, n - 1, u, out.drop_last(), 0);
        }
        (u, t)
    } else {
        let w = row_at(h, e, s, n - 1, u, out.drop_last(), i);
        assert(out[i] == out.drop_last()[i]);
        w
    };
    if !q.replays(e.sealed, e.dir) {
        let c = choose|c: Option<DigestV>| #[trigger]
            replay::checked(h, e, u, q, recorded, t, c) && (match c {
                Some(d) => Ok::<RecordedV, ReplayFailureV>(out.last()) == Ok::<
                    RecordedV,
                    ReplayFailureV,
                >(RecordedV::Digest(d)),
                None => replay::asked_to(h, e, q, Ok(out.last())),
            });
        checked_is_said(h, e, u, q, recorded, t, c);
    }
    w
}

/// What is known of the store before the first row is what the host says.
pub proof fn a_beginning_is_as_said<H: Host>(h: &H, lines: Seq<Seq<char>>, s: ValidityV)
    requires
        replay::begins_with(h, lines, s),
    ensures
        as_said(h, s),
{
}

/// A row whose answer changed does not come to what is recorded.
pub proof fn a_changed_row_is_noticed<H: Host>(
    h: &H,
    e: SceneV,
    s: ValidityV,
    out: Seq<RecordedV>,
    i: int,
    hash: HashFn,
)
    requires
        as_said(h, s),
        replay::replayed_in(h, e, s, Ok(Some(out))),
        0 <= i < e.rows.len(),
        changed_row(h, e, e.rows[i].0, e.rows[i].1, hash),
    ensures
        out.len() == e.rows.len(),
        out[i].digest().settled(hash) != e.rows[i].1.digest().settled(hash),
{
    let t = choose|t: ValidityV| #[trigger] replay::rows_done(h, e, s, t, out);
    let w = row_at(h, e, s, e.rows.len() as int, t, out, i);
    let q = e.rows[i].0;
    let recorded = e.rows[i].1;
    let c = choose|c: Option<DigestV>| #[trigger]
        replay::checked(h, e, w.0, q, recorded, w.1, c) && (match c {
            Some(d) => Ok::<RecordedV, ReplayFailureV>(out[i]) == Ok::<RecordedV, ReplayFailureV>(
                RecordedV::Digest(d),
            ),
            None => replay::asked_to(h, e, q, Ok(out[i])),
        });
    if c is None {
        assert(replay::asked(h, e.given.objects, q, Ok(out[i].digest())));
    }
}

/// The hash tells different fields apart.
pub open spec fn collision_free(hash: HashFn) -> bool {
    forall|a: Seq<Seq<u8>>, b: Seq<Seq<u8>>| #[trigger] hash(a) == #[trigger] hash(b) ==> a == b
}

/// An answer whose parts can be told from one another once they are written
/// side by side: mount points have a name, and what is followed by a null
/// character has none.
pub open spec fn plain_answer(reply: Reply) -> bool {
    match reply {
        Reply::Import(a) => a matches Ok(ImportedSourceV::Nix { path, text }) ==> path.wf(),
        Reply::Found(a) => a matches Ok(path) ==> path.wf(),
        Reply::Flake(a) => a matches Ok(c) ==> digest::without_null(c.lock_file),
        Reply::StorePath(a) => a matches Ok(c) ==> digest::without_null(c.path),
        Reply::Rewrites(a) => a matches Ok(r) ==> digest::plain_rewrites(r),
        _ => true,
    }
}

/// Two answers to one question are not the same. Failures to give the search
/// path are told apart by what they say.
pub open spec fn answers_differ(a: Reply, b: Reply) -> bool {
    match (a, b) {
        (Reply::Done(x), Reply::Done(y)) => x is Ok != y is Ok || (x is Err && x->Err_0
            != y->Err_0),
        (Reply::SearchPath(Err(d)), Reply::SearchPath(Err(e))) => digest::lookup_says(d)
            != digest::lookup_says(e),
        _ => a != b,
    }
}

proof fn same_settled(a: DigestV, b: DigestV, hash: HashFn)
    requires
        collision_free(hash),
        a is Read,
        b is Read,
        a.settled(hash) == b.settled(hash),
    ensures
        a == b,
{
}

proof fn another_read_digests_otherwise<H: Host>(
    h: &H,
    ask: Ask,
    old: Reply,
    q: QuestionV,
    r: RecordedV,
    d: DigestV,
    hash: HashFn,
)
    requires
        collision_free(hash),
        plain_answer(old),
        recorder::row_of(ask, old) == Some((q, r)),
        forall|now: Reply| #[trigger]
            h.answers(ask, now) ==> plain_answer(now) && answers_differ(old, now),
        replay::asked_read(h, q, d),
    ensures
        d.settled(hash) != r.digest().settled(hash),
{
    if d.settled(hash) == r.digest().settled(hash) {
        match (ask, old) {
            (Ask::ImportSource(x), Reply::Import(b)) => {
                let a = choose|a: Result<ImportedSourceV, Seq<char>>| #[trigger]
                    h.answers(Ask::ImportSource(x), Reply::Import(a)) && d == digest::import(a);
                assert(plain_answer(Reply::Import(a)));
                same_settled(d, r.digest(), hash);
                digest::imports_digest_apart(a, b);
            },
            (Ask::ReadFile(x), Reply::Text(b)) => {
                let a = choose|a: Result<Seq<char>, Seq<char>>| #[trigger]
                    h.answers(Ask::ReadFile(x), Reply::Text(a)) && d == digest::file_text(a);
                same_settled(d, r.digest(), hash);
                digest::file_answers_digest_apart(a, b);
            },
            (Ask::ReadFileBytes(x), Reply::Bytes(b)) => {
                let a = choose|a: Result<Seq<u8>, Seq<char>>| #[trigger]
                    h.answers(Ask::ReadFileBytes(x), Reply::Bytes(a)) && d == digest::file_bytes(a);
                same_settled(d, r.digest(), hash);
                digest::byte_answers_digest_apart(a, b);
            },
            (Ask::ReadDir(x), Reply::Entries(b)) => {
                let a = choose|a: Result<Seq<(Seq<char>, crate::host::FileType)>, Seq<char>>| #[trigger]
                    h.answers(Ask::ReadDir(x), Reply::Entries(a)) && d == digest::entries(a);
                same_settled(d, r.digest(), hash);
                digest::listings_digest_apart(a, b);
            },
            (Ask::PathExists(x), Reply::Exists(b)) => {
                let a = choose|a: Result<bool, Seq<char>>| #[trigger]
                    h.answers(Ask::PathExists(x), Reply::Exists(a)) && d
                        == digest::exists_answer(a);
                same_settled(d, r.digest(), hash);
                digest::existence_digests_apart(a, b);
            },
            (Ask::DirExists(x), Reply::Exists(b)) => {
                let a = choose|a: Result<bool, Seq<char>>| #[trigger]
                    h.answers(Ask::DirExists(x), Reply::Exists(a)) && d == digest::exists_answer(a);
                same_settled(d, r.digest(), hash);
                digest::existence_digests_apart(a, b);
            },
            (Ask::FileType(x), Reply::Kind(b)) => {
                let a = choose|a: Result<Option<crate::host::FileType>, Seq<char>>| #[trigger]
                    h.answers(Ask::FileType(x), Reply::Kind(a)) && d == digest::kind(a);
                same_settled(d, r.digest(), hash);
                digest::kinds_digest_apart(a, b);
            },
            (Ask::FileTypeResolved(x), Reply::Resolved(b)) => {
                let a = choose|a: Result<crate::host::FileType, Seq<char>>| #[trigger]
                    h.answers(Ask::FileTypeResolved(x), Reply::Resolved(a)) && d
                        == digest::kind_resolved(a);
                same_settled(d, r.digest(), hash);
                digest::resolved_kinds_digest_apart(a, b);
            },
            (Ask::GetEnv(x), Reply::Env(b)) => {
                let a = choose|a: Option<Seq<char>>| #[trigger]
                    h.answers(Ask::GetEnv(x), Reply::Env(a)) && d == digest::env(a);
                same_settled(d, r.digest(), hash);
                digest::variables_digest_apart(a, b);
            },
            (Ask::FindFile { entries, name }, Reply::Found(b)) => {
                let a = choose|a: Result<PathValueV, LookupErrorV>| #[trigger]
                    h.answers(Ask::FindFile { entries, name }, Reply::Found(a)) && d
                        == digest::find_file(a);
                assert(plain_answer(Reply::Found(a)));
                same_settled(d, r.digest(), hash);
                digest::lookups_digest_apart(a, b);
            },
            (Ask::NixPath, Reply::SearchPath(b)) => {
                let a = choose|a: Result<Seq<crate::task::SearchPathEntryV>, LookupErrorV>| #[trigger]
                    h.answers(Ask::NixPath, Reply::SearchPath(a)) && d == digest::nix_path(a);
                assert(answers_differ(old, Reply::SearchPath(a)));
                same_settled(d, r.digest(), hash);
                digest::search_paths_digest_apart(a, b);
            },
            _ => {},
        }
    }
}

proof fn another_effect_digests_otherwise<H: Host>(
    h: &H,
    ask: Ask,
    old: Reply,
    q: QuestionV,
    r: RecordedV,
    d: DigestV,
    hash: HashFn,
)
    requires
        collision_free(hash),
        plain_answer(old),
        recorder::row_of(ask, old) == Some((q, r)),
        forall|now: Reply| #[trigger]
            h.answers(ask, now) ==> plain_answer(now) && answers_differ(old, now),
        replay::asked_store(h, q, d),
    ensures
        d.settled(hash) != r.digest().settled(hash),
{
    if d.settled(hash) == r.digest().settled(hash) {
        if let Reply::Store(b) = old {
            question::kept_answer_digests_as_recorded(q, b);
            let kind = if ask is StoreText {
                "text"@
            } else {
                "store"@
            };
            assert(r.digest() == digest::store_outcome(kind, b));
            let a = choose|a: Result<Seq<char>, StoreErrorV>| #[trigger]
                h.answers(ask, Reply::Store(a)) && d == digest::store_outcome(kind, a);
            same_settled(d, r.digest(), hash);
            digest::store_outcome_injective(kind, a, b);
        }
        match (ask, old) {
            (Ask::StorePath(x), Reply::StorePath(b)) => {
                let a = choose|a: Result<crate::host::StorePathResultV, StoreErrorV>| #[trigger]
                    h.answers(Ask::StorePath(x), Reply::StorePath(a)) && d
                        == digest::store_path(a);
                assert(plain_answer(Reply::StorePath(a)));
                same_settled(d, r.digest(), hash);
                digest::store_paths_digest_apart(a, b);
            },
            (Ask::EnsurePath(x), Reply::Done(b)) => {
                let a = choose|a: Result<(), StoreErrorV>| #[trigger]
                    h.answers(Ask::EnsurePath(x), Reply::Done(a)) && d == digest::ensure(a);
                assert(answers_differ(old, Reply::Done(a)));
                same_settled(d, r.digest(), hash);
                digest::ensured_paths_digest_apart(a, b);
            },
            (Ask::LockFlake(x), Reply::Flake(b)) => {
                let a = choose|a: Result<crate::host::FlakeCallV, StoreErrorV>| #[trigger]
                    h.answers(Ask::LockFlake(x), Reply::Flake(a)) && d == digest::flake_call(a);
                assert(plain_answer(Reply::Flake(a)));
                same_settled(d, r.digest(), hash);
                digest::flakes_digest_apart(a, b);
            },
            _ => {},
        }
    }
}

/// A question whose host now answers anything else than what was recorded of
/// it is answered otherwise, up to collisions of the hash.
pub proof fn another_answer_is_answered_otherwise<H: Host>(
    h: &H,
    e: SceneV,
    ask: Ask,
    old: Reply,
    hash: HashFn,
)
    requires
        collision_free(hash),
        plain_answer(old),
        recorder::row_of(ask, old) is Some,
        forall|now: Reply| #[trigger]
            h.answers(ask, now) ==> plain_answer(now) && answers_differ(old, now),
    ensures
        recorder::row_of(ask, old) matches Some((q, r)) && answered_otherwise(h, e, q, r, hash),
{
    let (q, r) = recorder::row_of(ask, old)->0;
    assert forall|d: DigestV| #[trigger] replay::asked(h, e.given.objects, q, Ok(d)) implies d.settled(
        hash,
    ) != r.digest().settled(hash) by {
        if replay::asked_read(h, q, d) {
            another_read_digests_otherwise(h, ask, old, q, r, d, hash);
        } else {
            another_effect_digests_otherwise(h, ask, old, q, r, d, hash);
        }
    }
}

/// The same for a realisation.
pub proof fn another_realisation_is_answered_otherwise<H: Host>(
    h: &H,
    e: SceneV,
    context: Seq<ContextElemV>,
    old: Result<Seq<(Seq<char>, Seq<char>)>, StoreErrorV>,
    hash: HashFn,
)
    requires
        collision_free(hash),
        plain_answer(Reply::Rewrites(old)),
        forall|now: Result<Seq<(Seq<char>, Seq<char>)>, StoreErrorV>| #[trigger]
            h.answers(Ask::Realise(context), Reply::Rewrites(now)) ==> plain_answer(
                Reply::Rewrites(now),
            ) && now != old,
    ensures
        answered_otherwise(
            h,
            e,
            QuestionV::Realise(context),
            RecordedV::Digest(digest::realise(old)),
            hash,
        ),
{
    let q = QuestionV::Realise(context);
    assert forall|d: DigestV| #[trigger] replay::asked(h, e.given.objects, q, Ok(d)) implies d.settled(
        hash,
    ) != digest::realise(old).settled(hash) by {
        let a = choose|a: Result<Seq<(Seq<char>, Seq<char>)>, StoreErrorV>| #[trigger]
            h.answers(Ask::Realise(context), Reply::Rewrites(a)) && d == digest::realise(a);
        assert(plain_answer(Reply::Rewrites(a)));
        if d.settled(hash) == digest::realise(old).settled(hash) {
            same_settled(d, digest::realise(old), hash);
            digest::realisations_digest_apart(a, old);
        }
    }
}

/// The ambient source of a copy: the path, where the question is a copy of one.
pub open spec fn ambient_source(q: QuestionV) -> Option<PathValueV> {
    match q {
        QuestionV::CopyToStore(p) => if p.root == RootV::Ambient {
            Some(p)
        } else {
            None
        },
        QuestionV::StoreFiltered(r) => if r.root.root == RootV::Ambient {
            Some(r.root)
        } else {
            None
        },
        _ => None,
    }
}

/// A copy of an ambient source that is not fixed is always made again: what
/// the row comes to is the digest of an answer that the host gives to the copy
/// now, whatever is recorded and whatever the store holds.
pub proof fn a_copy_of_what_may_change_is_made_again<H: Host>(
    h: &H,
    e: SceneV,
    s: ValidityV,
    q: QuestionV,
    recorded: RecordedV,
    t: ValidityV,
    r: Result<RecordedV, ReplayFailureV>,
)
    requires
        ambient_source(q) matches Some(p) && !immutable::fixed(p, e.sealed, e.dir),
        replay::row_step(h, e, s, q, recorded, t, r),
    ensures
        r matches Ok(RecordedV::Digest(d)) && (match q {
            QuestionV::CopyToStore(p) => exists|a: Result<Seq<char>, StoreErrorV>| #[trigger]
                h.answers(Ask::CopyToStore(p), Reply::Store(a)) && d == digest::store_outcome(
                    "store"@,
                    a,
                ),
            QuestionV::StoreFiltered(x) => exists|a: Result<Seq<char>, StoreErrorV>| #[trigger]
                h.answers(Ask::StoreFiltered(x), Reply::Store(a)) && d == digest::store_outcome(
                    "store"@,
                    a,
                ),
            _ => false,
        }),
        t == s,
{
}

/// Where an ambient source that is not fixed is now copied to another path
/// than the one recorded, the key is another one.
pub proof fn a_source_that_changed_makes_another_key<H: Host>(
    h: &H,
    rows: validity::RowsV,
    given: validity::GivenV,
    settings: replay::Settings,
    memo: Option<crate::records::DirSealedV>,
    after: Option<crate::records::DirSealedV>,
    identity: Seq<u8>,
    r: Result<Option<digest::Preimage>, replay::ReplayFailure>,
    i: int,
    path: Seq<char>,
    hash: HashFn,
)
    requires
        collision_free(hash),
        crate::readset::key_replayed(h, rows, given, settings, memo, after, identity, r),
        0 <= i < rows.len(),
        rows[i].1 == RecordedV::Answer(path),
        ambient_source(rows[i].0) matches Some(p) && (forall|sealed: immutable::SealedV| #[trigger]
            replay::sealed_for(h, rows, settings.store_dir.deep_view(), memo, sealed, after)
                ==> !immutable::fixed(p, sealed, settings.store_dir.deep_view())),
        match rows[i].0 {
            QuestionV::CopyToStore(p) => !h.answers(Ask::CopyToStore(p), Reply::Store(Ok(path))),
            QuestionV::StoreFiltered(x) => !h.answers(
                Ask::StoreFiltered(x),
                Reply::Store(Ok(path)),
            ),
            _ => false,
        },
    ensures
        r matches Ok(Some(k)) ==> k@.settled(hash) != crate::readset::key(rows, identity).settled(
            hash,
        ),
{
    let q = rows[i].0;
    assert forall|sealed: immutable::SealedV| #[trigger]
        replay::sealed_for(h, rows, settings.store_dir.deep_view(), memo, sealed, after) implies changed_row(
        h,
        crate::readset::scene(rows, given, settings, sealed),
        q,
        rows[i].1,
        hash,
    ) by {
        let e = crate::readset::scene(rows, given, settings, sealed);
        assert forall|d: DigestV| #[trigger] replay::asked(h, e.given.objects, q, Ok(d)) implies d.settled(
            hash,
        ) != rows[i].1.digest().settled(hash) by {
            let ask = match q {
                QuestionV::CopyToStore(p) => Ask::CopyToStore(p),
                QuestionV::StoreFiltered(x) => Ask::StoreFiltered(x),
                _ => arbitrary(),
            };
            let a = choose|a: Result<Seq<char>, StoreErrorV>| #[trigger]
                h.answers(ask, Reply::Store(a)) && d == digest::store_outcome("store"@, a);
            if d.settled(hash) == rows[i].1.digest().settled(hash) {
                same_settled(d, rows[i].1.digest(), hash);
                digest::store_outcome_injective("store"@, a, Ok(path));
            }
        }
        a_read_that_changed(h, e, q, rows[i].1, hash);
    }
    crate::readset::replaying_a_changed_world_makes_another_key(
        h,
        rows,
        given,
        settings,
        memo,
        after,
        identity,
        r,
        i,
        hash,
    );
}

/// What the store must hold for a realisation to be answered without asking.
pub open spec fn all_there<H: Host>(
    h: &H,
    e: SceneV,
    mounted: Seq<Seq<char>>,
    context: Seq<ContextElemV>,
) -> bool {
    &&& context.len() > 0
    &&& forall|k: int|
        0 <= k < context.len() ==> (match #[trigger] context[k] {
            ContextElemV::Opaque(path) => says_held(h, path) || mounted.contains(path),
            ContextElemV::DrvDeep(path) => says_held(h, path),
            ContextElemV::Built { drv, output } => says_held(h, drv) && (validity::stands(
                e.rows,
                e.given.objects,
                context[k],
            ) matches Some(on) && (on.output matches Some(path) && says_held(h, path))),
        })
}

proof fn needs_hold<H: Host>(
    h: &H,
    e: SceneV,
    s: ValidityV,
    context: Seq<ContextElemV>,
    t: ValidityV,
    d: DigestV,
)
    requires
        as_said(h, s),
        replay::checked_realise(h, e, s, context, t, Some(d)),
    ensures
        all_there(h, e, s.mounted, context),
{
    let resolved = replay::resolved_in(e, context);
    let on = validity::unwrapped(resolved);
    let n = context.len() as int;
    assert(validity::all_resolved(resolved));
    let needs = validity::needs_of(context, on, s.mounted, n);
    assert(validity::all_held(h, s, needs, t, true));
    upto_is_said(h, s, needs, needs.len() as int, t);
    assert forall|k: int| 0 <= k < context.len() implies (match #[trigger] context[k] {
        ContextElemV::Opaque(path) => says_held(h, path) || s.mounted.contains(path),
        ContextElemV::DrvDeep(path) => says_held(h, path),
        ContextElemV::Built { drv, output } => says_held(h, drv) && (validity::stands(
            e.rows,
            e.given.objects,
            context[k],
        ) matches Some(o) && (o.output matches Some(path) && says_held(h, path))),
    }) by {
        assert(resolved[k] is Some);
        assert(on[k] == resolved[k]->0);
        match context[k] {
            ContextElemV::Opaque(path) => {
                assert(on[k].needs =~= seq![path]);
                if !s.mounted.contains(path) {
                    assert(on[k].needs[0] == path);
                    assert(!validity::all_in(on[k].needs, s.mounted)) by {
                        if validity::all_in(on[k].needs, s.mounted) {
                            assert(s.mounted.contains(on[k].needs[0]));
                        }
                    }
                    needs_has_any(context, on, s.mounted, n, k, path);
                    let j = needs.index_of(path);
                    assert(says_held(h, needs[j]));
                }
            },
            ContextElemV::DrvDeep(path) => {
                assert(on[k].needs[0] == path);
                needs_has(context, on, s.mounted, n, k, path);
                let j = needs.index_of(path);
                assert(says_held(h, needs[j]));
            },
            ContextElemV::Built { drv, output } => {
                assert(on[k].needs[0] == drv);
                needs_has(context, on, s.mounted, n, k, drv);
                let j = needs.index_of(drv);
                assert(says_held(h, needs[j]));
                let path = on[k].output->0;
                assert(on[k].needs[1] == path);
                needs_has(context, on, s.mounted, n, k, path);
                let i = needs.index_of(path);
                assert(says_held(h, needs[i]));
            },
        }
    }
}

proof fn needs_has_any(
    context: Seq<ContextElemV>,
    on: Seq<StandsOnV>,
    mounted: Seq<Seq<char>>,
    n: int,
    k: int,
    path: Seq<char>,
)
    requires
        0 <= k < n,
        !validity::all_in(on[k].needs, mounted),
        on[k].needs.contains(path),
    ensures
        validity::needs_of(context, on, mounted, n).contains(path),
    decreases n,
{
    let needs = on[n - 1].needs;
    let prior = validity::needs_of(context, on, mounted, n - 1);
    assert(needs.take(needs.len() as int) =~= needs);
    if k < n - 1 {
        needs_has_any(context, on, mounted, n - 1, k, path);
    }
    if k == n - 1 || prior.contains(path) {
        including_has(prior, needs, needs.len() as int, path);
    }
}

/// The read is one whose answer cannot have changed: of a path that is fixed,
/// and for an import of the file that a directory stands for too.
pub open spec fn fixed_read(e: SceneV, q: QuestionV) -> bool {
    let at = |p: PathValueV| immutable::fixed(p, e.sealed, e.dir);
    match q {
        QuestionV::Import(p) => at(p) && at(
            PathValueV { root: p.root, path: p.path + "/default.nix"@ },
        ),
        QuestionV::ReadFile(p) => at(p),
        QuestionV::ReadFileBytes(p) => at(p),
        QuestionV::ReadDir(p) => at(p),
        QuestionV::PathExists(p) => at(p),
        QuestionV::DirExists(p) => at(p),
        QuestionV::FileType(p) => at(p),
        QuestionV::FileTypeResolved(p) => at(p),
        QuestionV::Tree(p) => at(p),
        _ => false,
    }
}

/// What a row can come to without the question being asked: only where its
/// answer is pinned and what it names is there.
pub open spec fn pinned<H: Host>(
    h: &H,
    e: SceneV,
    mounted: Seq<Seq<char>>,
    q: QuestionV,
    recorded: RecordedV,
    o: RecordedV,
) -> bool {
    ||| fixed_read(e, q) && o == recorded
    ||| match q {
        QuestionV::WriteDrv { name, answer: WriteDrvAnswerV::Written(path), aterm } => says_held(
            h,
            path,
        ) && o == RecordedV::Digest(digest::store_outcome("write-drv"@, Ok(path))),
        QuestionV::Realise(context) => all_there(h, e, mounted, context),
        QuestionV::CopyToStore(p) => immutable::fixed(p, e.sealed, e.dir) && (
        recorded matches RecordedV::Answer(path) && says_held(h, path) && lets_in(h, path) && o
            == RecordedV::Digest(digest::store_outcome("store"@, Ok(path)))),
        QuestionV::StoreFiltered(x) => immutable::fixed(x.root, e.sealed, e.dir) && (
        recorded matches RecordedV::Answer(path) && says_held(h, path) && lets_in(h, path) && o
            == RecordedV::Digest(digest::store_outcome("store"@, Ok(path)))),
        QuestionV::Fetch(x) => x.expected_sha256 is Some && (
        recorded matches RecordedV::Answer(path) && says_held(h, path) && lets_in(h, path) && o
            == RecordedV::Digest(digest::store_outcome("store"@, Ok(path)))),
        QuestionV::FetchTree(x) => x.fetcher is FinalTree && ordered::find(x.attrs, "narHash"@)
            is Some && (recorded matches RecordedV::Answer(t) && (question::out_path(
            t,
        ) matches Some(path) && lets_in(h, path)) && o == RecordedV::Digest(
            digest::store_outcome("store"@, Ok(t)),
        )),
        _ => false,
    }
}

/// A row comes to an answer that the host gives now, or to one that is pinned.
pub proof fn a_row_is_asked_unless_it_is_pinned<H: Host>(
    h: &H,
    e: SceneV,
    s: ValidityV,
    q: QuestionV,
    recorded: RecordedV,
    t: ValidityV,
    o: RecordedV,
)
    requires
        as_said(h, s),
        replay::row_step(h, e, s, q, recorded, t, Ok(o)),
    ensures
        replay::asked(h, e.given.objects, q, Ok(o.digest())) || pinned(
            h,
            e,
            s.mounted,
            q,
            recorded,
            o,
        ),
{
    if !q.replays(e.sealed, e.dir) {
        let c = choose|c: Option<DigestV>| #[trigger]
            replay::checked(h, e, s, q, recorded, t, c) && (match c {
                Some(d) => Ok::<RecordedV, ReplayFailureV>(o) == Ok::<RecordedV, ReplayFailureV>(
                    RecordedV::Digest(d),
                ),
                None => replay::asked_to(h, e, q, Ok(o)),
            });
        if c is Some {
            let d = c->0;
            match q {
                QuestionV::WriteDrv { name, answer: WriteDrvAnswerV::Written(path), aterm } => {
                    assert(validity::held(h, s, path, t, true));
                    held_is_said(h, s, path, t, true);
                },
                QuestionV::Realise(context) => {
                    needs_hold(h, e, s, context, t, d);
                },
                QuestionV::FetchTree(x) => {
                    let path = q.named_object(recorded->Answer_0)->0;
                    assert(lets_in(h, path));
                },
                _ => {
                    let path = q.named_object(recorded->Answer_0)->0;
                    assert(validity::held(h, s, path, t, true));
                    held_is_said(h, s, path, t, true);
                    assert(lets_in(h, path));
                },
            }
        }
    }
}

/// The reads that come to their record without being asked are those of fixed
/// paths, and nothing else.
pub proof fn what_replays(e: SceneV, q: QuestionV)
    ensures
        q.replays(e.sealed, e.dir) == fixed_read(e, q),
{
}

/// Under the settings the question is not one to ask: a realisation that may
/// build where that is not allowed; under a purity setting a variable, and
/// without an embedder any read of a path; in pure evaluation a store path,
/// and a fetch without a pin.
pub open spec fn barred(q: QuestionV, settings: replay::Settings) -> bool {
    let restricted = settings.pure_eval || settings.restrict_eval;
    match q {
        QuestionV::Realise(context) => !settings.allow_import_from_derivation && exists|k: int|
            0 <= k < context.len() && (#[trigger] context[k]) is Built,
        QuestionV::GetEnv(_) => restricted,
        QuestionV::StorePath(_) => settings.pure_eval,
        QuestionV::Fetch(r) => settings.pure_eval && r.expected_sha256 is None,
        QuestionV::Import(_) => restricted && settings.path_reads == PathReads::Direct,
        QuestionV::ReadFile(_) => restricted && settings.path_reads == PathReads::Direct,
        QuestionV::ReadFileBytes(_) => restricted && settings.path_reads == PathReads::Direct,
        QuestionV::ReadDir(_) => restricted && settings.path_reads == PathReads::Direct,
        QuestionV::PathExists(_) => restricted && settings.path_reads == PathReads::Direct,
        QuestionV::DirExists(_) => restricted && settings.path_reads == PathReads::Direct,
        QuestionV::FileType(_) => restricted && settings.path_reads == PathReads::Direct,
        QuestionV::FileTypeResolved(_) => restricted && settings.path_reads == PathReads::Direct,
        QuestionV::Tree(_) => restricted && settings.path_reads == PathReads::Direct,
        _ => false,
    }
}

/// Rows are not replayed exactly where one of them is not one to ask.
pub proof fn what_is_forbidden(rows: validity::RowsV, settings: replay::Settings)
    ensures
        replay::forbidden(rows, settings) == (exists|i: int|
            0 <= i < rows.len() && barred((#[trigger] rows[i]).0, settings)),
{
    if replay::forbidden(rows, settings) {
        if !settings.allow_import_from_derivation && exists|i: int|
            0 <= i < rows.len() && ((#[trigger] rows[i]).0 matches QuestionV::Realise(context)
                && validity::requires_ifd(context)) {
            let i = choose|i: int|
                0 <= i < rows.len() && ((#[trigger] rows[i]).0 matches QuestionV::Realise(context)
                    && validity::requires_ifd(context));
            assert(barred(rows[i].0, settings));
        } else {
            let i = choose|i: int|
                0 <= i < rows.len() && crate::purity::judged(
                    (#[trigger] rows[i]).0.need(),
                    settings.spec_purity(),
                    settings.path_reads,
                ) !is Ask;
            assert(barred(rows[i].0, settings));
        }
    }
    if exists|i: int| 0 <= i < rows.len() && barred((#[trigger] rows[i]).0, settings) {
        let i = choose|i: int| 0 <= i < rows.len() && barred((#[trigger] rows[i]).0, settings);
        if rows[i].0 is Realise {
            assert(validity::requires_ifd(rows[i].0->Realise_0));
        } else {
            assert(crate::purity::judged(
                rows[i].0.need(),
                settings.spec_purity(),
                settings.path_reads,
            ) !is Ask);
        }
    }
}

/// What the memo says of an object.
pub open spec fn memo_says(
    memo: Option<crate::records::DirSealedV>,
    object: Seq<char>,
) -> Option<Seq<Seq<char>>> {
    match memo {
        Some(m) => m.leaving(object),
        None => None,
    }
}

proof fn survey_is_known(
    rows: validity::RowsV,
    dir: Option<Seq<char>>,
    memo: Option<crate::records::DirSealedV>,
    n: int,
    object: Seq<char>,
)
    requires
        0 <= n <= rows.len(),
    ensures
        ({
            let (known, unknown) = replay::surveyed(rows, dir, memo, n);
            &&& ordered::find(known, object) matches Some(l) ==> memo_says(memo, object) == Some(l)
            &&& unknown.contains(object) ==> memo_says(memo, object) is None
                && (memo matches Some(m) ==> !m.declined.contains(object)) && exists|i: int|
                0 <= i < n && ((#[trigger] rows[i]).0.ambient_path() matches Some(p)
                    && immutable::object_of(dir, p.path) == Some(object))
            &&& forall|i: int|
                0 <= i < n ==> ((#[trigger] rows[i]).0.ambient_path() matches Some(p) ==> (
                immutable::object_of(dir, p.path) == Some(object) ==> ordered::find(known, object)
                    is Some || unknown.contains(object) || (memo matches Some(m)
                    && m.declined.contains(object))))
        }),
    decreases n,
{
    if n > 0 {
        survey_is_known(rows, dir, memo, n - 1, object);
        let (known, unknown) = replay::surveyed(rows, dir, memo, n - 1);
        let now = replay::surveyed(rows, dir, memo, n);
        match replay::object_at(rows[n - 1].0, dir) {
            None => {},
            Some(o) => {
                included_of(unknown, o, object);
                if let Some(l) = memo_says(memo, o) {
                    if o == object {
                        ordered::put_found(known, o, l);
                    } else {
                        ordered::put_keeps(known, o, l, object);
                    }
                }
            },
        }
        if now.1.contains(object) && !unknown.contains(object) {
            assert(rows[n - 1].0.ambient_path() is Some);
        }
    }
}

proof fn sealing_found(
    known: immutable::SealedV,
    answered: Seq<(Seq<char>, Seq<crate::links::SymlinkV>)>,
    n: int,
    object: Seq<char>,
)
    requires
        0 <= n <= answered.len(),
    ensures
        ordered::find(replay::sealing(known, answered, n), object) == ordered::find(known, object)
            || exists|i: int|
            0 <= i < n && (#[trigger] answered[i]).0 == object && ordered::find(
                replay::sealing(known, answered, n),
                object,
            ) == Some(crate::links::left(answered[i].1)),
        (exists|i: int| 0 <= i < n && (#[trigger] answered[i]).0 == object) ==> exists|i: int|
            0 <= i < n && (#[trigger] answered[i]).0 == object && ordered::find(
                replay::sealing(known, answered, n),
                object,
            ) == Some(crate::links::left(answered[i].1)),
    decreases n,
{
    if n > 0 {
        sealing_found(known, answered, n - 1, object);
        let prior = replay::sealing(known, answered, n - 1);
        let l = crate::links::left(answered[n - 1].1);
        if answered[n - 1].0 == object {
            ordered::put_found(prior, object, l);
        } else {
            ordered::put_keeps(prior, answered[n - 1].0, l, object);
        }
    }
}

/// An object is taken to be sealed, with the links that leave it, only where
/// the memo says so or the host now says so; and the host is asked only about
/// objects that a row's ambient path lies in, of which the memo says nothing
/// and which were not declined.
pub proof fn an_object_is_sealed_by_its_store<H: Host>(
    h: &H,
    rows: validity::RowsV,
    dir: Option<Seq<char>>,
    memo: Option<crate::records::DirSealedV>,
    sealed: immutable::SealedV,
    after: Option<crate::records::DirSealedV>,
    object: Seq<char>,
    l: Seq<Seq<char>>,
)
    requires
        replay::sealed_for(h, rows, dir, memo, sealed, after),
        ordered::find(sealed, object) == Some(l),
    ensures
        memo_says(memo, object) == Some(l) || exists|
            asked: Seq<Seq<char>>,
            answered: Seq<(Seq<char>, Seq<crate::links::SymlinkV>)>,
            i: int,
        |
            #![trigger h.answers(Ask::SealedPaths(asked), Reply::Links(Ok(answered))), answered[i]]
            h.answers(Ask::SealedPaths(asked), Reply::Links(Ok(answered))) && 0 <= i
                < answered.len() && answered[i].0 == object && l == crate::links::left(
                answered[i].1,
            ),
{
    let n = rows.len() as int;
    let (known, unknown) = replay::surveyed(rows, dir, memo, n);
    survey_is_known(rows, dir, memo, n, object);
    if unknown.len() > 0 {
        let reply = choose|
            reply: Result<Seq<(Seq<char>, Seq<crate::links::SymlinkV>)>, StoreErrorV>,
        | #[trigger]
            h.answers(Ask::SealedPaths(unknown), Reply::Links(reply)) && (sealed, after)
                == replay::sealed_by(known, unknown, memo, reply);
        if let Ok(answered) = reply {
            sealing_found(known, answered, answered.len() as int, object);
            if ordered::find(sealed, object) != ordered::find(known, object) {
                let i = choose|i: int|
                    0 <= i < answered.len() && (#[trigger] answered[i]).0 == object
                        && ordered::find(sealed, object) == Some(crate::links::left(answered[i].1));
                assert(h.answers(Ask::SealedPaths(unknown), Reply::Links(Ok(answered))));
                assert(answered[i].0 == object);
            }
        }
    }
}

/// The store is asked, once and about all of them, of exactly the objects that
/// the rows' ambient paths lie in of which nothing is known.
pub proof fn which_objects_are_asked_about(
    rows: validity::RowsV,
    dir: Option<Seq<char>>,
    memo: Option<crate::records::DirSealedV>,
    object: Seq<char>,
)
    ensures
        replay::surveyed(rows, dir, memo, rows.len() as int).1.contains(object) == (memo_says(
            memo,
            object,
        ) is None && (memo matches Some(m) ==> !m.declined.contains(object)) && exists|i: int|
            0 <= i < rows.len() && ((#[trigger] rows[i]).0.ambient_path() matches Some(p)
                && immutable::object_of(dir, p.path) == Some(object))),
{
    survey_is_known(rows, dir, memo, rows.len() as int, object);
}

/// The paths that a question reads or copies, where they are ambient.
pub proof fn what_is_ambient(q: QuestionV)
    ensures
        q.ambient_path() == (match q {
            QuestionV::Import(p) => ambient_only(p),
            QuestionV::ReadFile(p) => ambient_only(p),
            QuestionV::ReadFileBytes(p) => ambient_only(p),
            QuestionV::ReadDir(p) => ambient_only(p),
            QuestionV::PathExists(p) => ambient_only(p),
            QuestionV::DirExists(p) => ambient_only(p),
            QuestionV::FileType(p) => ambient_only(p),
            QuestionV::FileTypeResolved(p) => ambient_only(p),
            QuestionV::Tree(p) => ambient_only(p),
            QuestionV::CopyToStore(p) => ambient_only(p),
            QuestionV::StoreFiltered(r) => ambient_only(r.root),
            _ => None,
        }),
{
}

pub open spec fn ambient_only(p: PathValueV) -> Option<PathValueV> {
    if p.root == RootV::Ambient {
        Some(p)
    } else {
        None
    }
}

/// Where the host says that it holds all that a realisation needs, with nothing
/// mounted, it holds each path that an element stands on.
pub proof fn needs_are_said<H: Host>(
    h: &H,
    context: Seq<ContextElemV>,
    on: Seq<StandsOnV>,
    needs: Seq<Seq<char>>,
    k: int,
)
    requires
        0 <= k < context.len() == on.len(),
        on[k].needs.len() > 0,
        needs == validity::needs_of(context, on, Seq::empty(), context.len() as int),
        recorder::all_valid(h, needs, true),
    ensures
        forall|i: int| 0 <= i < on[k].needs.len() ==> says_held(h, #[trigger] on[k].needs[i]),
{
    let n = context.len() as int;
    let none = Seq::<Seq<char>>::empty();
    assert(!validity::all_in(on[k].needs, none)) by {
        if validity::all_in(on[k].needs, none) {
            assert(none.contains(on[k].needs[0]));
        }
    }
    assert forall|i: int| 0 <= i < on[k].needs.len() implies says_held(
        h,
        #[trigger] on[k].needs[i],
    ) by {
        needs_has_any(context, on, none, n, k, on[k].needs[i]);
        let j = needs.index_of(on[k].needs[i]);
        let a = choose|a: Result<Seq<Seq<char>>, StoreErrorV>| #[trigger]
            h.answers(Ask::ValidPaths(needs), Reply::Valid(a)) && (a matches Ok(held)
                && validity::all_in(needs, held));
        assert(h.answers(Ask::ValidPaths(needs), Reply::Valid(Ok(a->Ok_0))));
        assert(a->Ok_0.contains(needs[j]));
    }
}

/// A derivation that is written again comes to an answer only where the object
/// store has the text of its name, and the host writes that text, under that
/// name, with the answer that is recorded; each other outcome is a failure.
pub proof fn how_a_derivation_is_written_again<H: Host>(
    h: &H,
    objects: Seq<(Seq<u8>, validity::FetchedV)>,
    name: Seq<char>,
    answer: WriteDrvAnswerV,
    aterm: Seq<u8>,
    r: Result<DigestV, ReplayFailureV>,
)
    requires
        replay::asked(h, objects, QuestionV::WriteDrv { name, answer, aterm }, r),
    ensures
        r matches Ok(d) ==> exists|t: Seq<char>, a: Result<Seq<char>, StoreErrorV>| #[trigger]
            h.answers(Ask::WriteDerivation { name, aterm: t }, Reply::Store(a))
                && validity::object(objects, aterm) == validity::FetchedV::Found(
                crate::text::utf8(t),
            ) && (match a {
                Ok(path) => answer == WriteDrvAnswerV::Written(path) && d == digest::store_outcome(
                    "write-drv"@,
                    Ok(path),
                ),
                Err(e) => answer is Failed && d == digest::store_outcome("write-drv"@, Err(e)),
            }),
        validity::object(objects, aterm) is Missing ==> r == Err::<DigestV, ReplayFailureV>(
            ReplayFailureV::MissingAterm(aterm),
        ),
        validity::object(objects, aterm) is Corrupt ==> r == Err::<DigestV, ReplayFailureV>(
            ReplayFailureV::CorruptAterm(aterm),
        ),
        r matches Err(ReplayFailureV::DrvPathMismatch { expected, written }) ==> expected
            == answer.shown() && answer != WriteDrvAnswerV::Written(written),
{
    if let validity::FetchedV::Found(bytes) = validity::object(objects, aterm) {
        if let Some(t) = crate::text::utf8_text_of(bytes) {
            let a = choose|a: Result<Seq<char>, StoreErrorV>| #[trigger]
                h.answers(Ask::WriteDerivation { name, aterm: t }, Reply::Store(a)) && r
                    == replay::rewritten(answer, a);
            crate::text::utf8_text_is(bytes, t);
            assert(h.answers(Ask::WriteDerivation { name, aterm: t }, Reply::Store(a)));
        }
    }
}

/// What is mounted is what the host lets in: nothing else is taken to be there
/// without the store's saying so.
pub proof fn what_is_mounted_was_let_in<H: Host>(
    h: &H,
    e: SceneV,
    s: ValidityV,
    q: QuestionV,
    recorded: RecordedV,
    t: ValidityV,
    c: Option<DigestV>,
    path: Seq<char>,
)
    requires
        replay::checked(h, e, s, q, recorded, t, c),
        t.mounted.contains(path),
        !s.mounted.contains(path),
    ensures
        q is FetchTree,
        lets_in(h, path),
        recorded matches RecordedV::Answer(a) && question::out_path(a) == Some(path),
        c is Some,
{
    match q {
        QuestionV::WriteDrv { name, answer: WriteDrvAnswerV::Written(p), aterm } => {
            held_keeps_mounts(h, s, p, t);
        },
        QuestionV::Realise(context) => {
            let resolved = replay::resolved_in(e, context);
            if validity::all_resolved(resolved) {
                let on = validity::unwrapped(resolved);
                let needs = validity::needs_of(context, on, s.mounted, context.len() as int);
                if validity::all_held(h, s, needs, t, true) {
                    upto_keeps_mounts(h, s, needs, needs.len() as int, t);
                } else {
                    assert(validity::all_held(h, s, needs, t, false));
                    let (k, u) = choose|k: int, u: ValidityV|
                        0 <= k < needs.len() && #[trigger] validity::held_upto(h, s, needs, k, u)
                            && validity::held(h, u, needs[k], t, false);
                    upto_keeps_mounts(h, s, needs, k, u);
                    held_keeps_mounts(h, u, needs[k], t);
                }
            }
        },
        QuestionV::FetchTree(x) => {
            let object = q.named_object(recorded->Answer_0)->0;
            let a = choose|a: Result<(), StoreErrorV>| #[trigger]
                h.answers(Ask::AllowPaths(seq![object]), Reply::Done(a)) && (if a is Ok {
                    t == s.mounting(object) && c == Some(recorded.digest())
                } else {
                    t == s && c is None
                });
            included_of(s.mounted, object, path);
        },
        _ => {
            if !replay::may_have_changed(e, q) {
                if let RecordedV::Answer(answer) = recorded {
                    if let Some(object) = q.named_object(answer) {
                        held_keeps_mounts(h, s, object, t);
                    }
                }
            }
        },
    }
}

proof fn held_keeps_mounts<H: Host>(h: &H, s: ValidityV, path: Seq<char>, t: ValidityV)
    requires
        validity::held(h, s, path, t, true) || validity::held(h, s, path, t, false),
    ensures
        t.mounted == s.mounted,
{
}

proof fn upto_keeps_mounts<H: Host>(
    h: &H,
    s: ValidityV,
    paths: Seq<Seq<char>>,
    n: int,
    t: ValidityV,
)
    requires
        0 <= n <= paths.len(),
        validity::held_upto(h, s, paths, n, t),
    ensures
        t.mounted == s.mounted,
    decreases n,
{
    if n > 0 {
        let u = choose|u: ValidityV|
            validity::held_upto(h, s, paths, n - 1, u) && #[trigger] validity::held(
                h,
                u,
                paths[n - 1],
                t,
                true,
            );
        upto_keeps_mounts(h, s, paths, n - 1, u);
        held_keeps_mounts(h, u, paths[n - 1], t);
    }
}

/// What the memo learns when the store is asked of objects: of each that it
/// answers for, the links that leave it; each other that it was asked about is
/// declined; and where the store fails, nothing.
pub proof fn what_is_learnt_of_objects(
    known: immutable::SealedV,
    asked: Seq<Seq<char>>,
    memo: crate::records::DirSealedV,
    reply: Result<Seq<(Seq<char>, Seq<crate::links::SymlinkV>)>, StoreErrorV>,
    object: Seq<char>,
)
    requires
        crate::text::sorted(memo.declined),
    ensures
        reply is Err ==> replay::sealed_by(known, asked, Some(memo), reply) == (
            known,
            Some(memo),
        ),
        reply matches Ok(answered) ==> (replay::sealed_by(
            known,
            asked,
            Some(memo),
            reply,
        ).1 matches Some(after) && {
            &&& asked.contains(object) && ordered::find(answered, object) is None
                ==> after.declined.contains(object)
            &&& after.declined.contains(object) ==> ordered::find(answered, object) is None && (
            memo.declined.contains(object) || asked.contains(object))
        }),
{
    if let Ok(answered) = reply {
        let middle = replay::declining(memo, asked, answered, asked.len() as int);
        declining_is(memo, asked, answered, asked.len() as int, object);
        sealing_undeclines(middle, answered, answered.len() as int, object);
        assert(asked.take(asked.len() as int) =~= asked);
        assert(answered.take(answered.len() as int) =~= answered);
        ordered::find_iff(answered, object);
        if ordered::find(answered, object) is Some {
            let i = ordered::keys(answered).index_of(object);
            assert(answered[i].0 == object);
        } else {
            assert forall|i: int| 0 <= i < answered.len() implies (#[trigger] answered[i]).0
                != object by {
                assert(ordered::keys(answered)[i] == answered[i].0);
            }
        }
    }
}

proof fn declining_is(
    memo: crate::records::DirSealedV,
    asked: Seq<Seq<char>>,
    answered: Seq<(Seq<char>, Seq<crate::links::SymlinkV>)>,
    n: int,
    object: Seq<char>,
)
    requires
        0 <= n <= asked.len(),
        crate::text::sorted(memo.declined),
    ensures
        crate::text::sorted(replay::declining(memo, asked, answered, n).declined),
        replay::declining(memo, asked, answered, n).declined.contains(object) == (
        memo.declined.contains(object) || (asked.take(n).contains(object) && ordered::find(
            answered,
            object,
        ) is None)),
    decreases n,
{
    if n > 0 {
        declining_is(memo, asked, answered, n - 1, object);
        let prior = replay::declining(memo, asked, answered, n - 1);
        ordered::add_sorted(prior.declined, asked[n - 1]);
        assert(asked.take(n) =~= asked.take(n - 1).push(asked[n - 1]));
        if asked.take(n - 1).contains(object) {
            let i = asked.take(n - 1).index_of(object);
            assert(asked.take(n)[i] == object);
        }
        if asked[n - 1] == object {
            assert(asked.take(n)[n - 1] == object);
        }
        if asked.take(n).contains(object) && asked[n - 1] != object {
            let i = asked.take(n).index_of(object);
            assert(asked.take(n - 1)[i] == object);
        }
    }
}

proof fn sealing_undeclines(
    memo: crate::records::DirSealedV,
    answered: Seq<(Seq<char>, Seq<crate::links::SymlinkV>)>,
    n: int,
    object: Seq<char>,
)
    requires
        0 <= n <= answered.len(),
        crate::text::sorted(memo.declined),
    ensures
        crate::text::sorted(replay::memo_sealing(memo, answered, n).declined),
        replay::memo_sealing(memo, answered, n).declined.contains(object) == (
        memo.declined.contains(object) && forall|i: int|
            0 <= i < n ==> (#[trigger] answered[i]).0 != object),
    decreases n,
{
    if n > 0 {
        sealing_undeclines(memo, answered, n - 1, object);
        ordered::excluded_sorted(
            replay::memo_sealing(memo, answered, n - 1).declined,
            answered[n - 1].0,
        );
    }
}

/// The path is one by whose being there the row can be answered: that of a
/// derivation that was written, one that an element of a realisation stands on,
/// or the one that a copy or a pinned fetch was answered with.
pub open spec fn answers_by(
    rows: validity::RowsV,
    objects: Seq<(Seq<u8>, validity::FetchedV)>,
    row: (QuestionV, RecordedV),
    path: Seq<char>,
) -> bool {
    match row.0 {
        QuestionV::WriteDrv { name, answer, aterm } => answer == WriteDrvAnswerV::Written(path),
        QuestionV::Realise(context) => exists|k: int|
            0 <= k < context.len() && (validity::stands(
                rows,
                objects,
                #[trigger] context[k],
            ) matches Some(on) && on.needs.contains(path)),
        QuestionV::CopyToStore(_) => row.1 == RecordedV::Answer(path),
        QuestionV::StoreFiltered(_) => row.1 == RecordedV::Answer(path),
        QuestionV::Fetch(r) => r.expected_sha256 is Some && row.1 == RecordedV::Answer(path),
        _ => false,
    }
}

proof fn elem_lines_are(
    rows: validity::RowsV,
    objects: Seq<(Seq<u8>, validity::FetchedV)>,
    context: Seq<ContextElemV>,
    n: int,
    path: Seq<char>,
)
    requires
        0 <= n <= context.len(),
    ensures
        replay::elem_lines(rows, objects, context, n).contains(path) == (exists|k: int|
            0 <= k < n && (validity::stands(rows, objects, #[trigger] context[k]) matches Some(on)
                && on.needs.contains(path))),
    decreases n,
{
    if n > 0 {
        elem_lines_are(rows, objects, context, n - 1, path);
        let prior = replay::elem_lines(rows, objects, context, n - 1);
        let all = replay::elem_lines(rows, objects, context, n);
        let own = match validity::stands(rows, objects, context[n - 1]) {
            Some(on) => on.needs,
            None => Seq::empty(),
        };
        assert(all =~= prior + own);
        if prior.contains(path) {
            let i = prior.index_of(path);
            assert(all[i] == path);
        }
        if own.contains(path) {
            let i = own.index_of(path);
            assert(all[prior.len() + i] == path);
            assert(validity::stands(rows, objects, context[n - 1]) is Some);
        }
        if all.contains(path) {
            let i = all.index_of(path);
            if i < prior.len() {
                assert(prior[i] == path);
            } else {
                assert(own[i - prior.len()] == path);
                assert(validity::stands(rows, objects, context[n - 1]) is Some);
            }
        }
    }
}

proof fn row_lines_are(
    rows: validity::RowsV,
    objects: Seq<(Seq<u8>, validity::FetchedV)>,
    row: (QuestionV, RecordedV),
    path: Seq<char>,
)
    ensures
        replay::row_lines(rows, objects, row.0, row.1).contains(path) == answers_by(
            rows,
            objects,
            row,
            path,
        ),
{
    let lines = replay::row_lines(rows, objects, row.0, row.1);
    if let QuestionV::Realise(context) = row.0 {
        elem_lines_are(rows, objects, context, context.len() as int, path);
    } else if lines.len() == 1 {
        assert(lines[0] == lines[0]);
        assert(lines.contains(lines[0]));
    }
}

proof fn including_of(set: Seq<Seq<char>>, v: Seq<Seq<char>>, n: int, x: Seq<char>)
    requires
        0 <= n <= v.len(),
    ensures
        validity::including(set, v, n).contains(x) == (set.contains(x) || v.take(n).contains(x)),
    decreases n,
{
    if n > 0 {
        including_of(set, v, n - 1, x);
        included_of(validity::including(set, v, n - 1), v[n - 1], x);
        assert(v.take(n) =~= v.take(n - 1).push(v[n - 1]));
        if v.take(n - 1).contains(x) {
            let i = v.take(n - 1).index_of(x);
            assert(v.take(n)[i] == x);
        }
        if v[n - 1] == x {
            assert(v.take(n)[n - 1] == x);
        }
        if v.take(n).contains(x) && v[n - 1] != x {
            let i = v.take(n).index_of(x);
            assert(v.take(n - 1)[i] == x);
        }
    }
}

/// Before the first row the store is asked, once, for exactly the paths by whose
/// being there a row can be answered.
pub proof fn which_paths_are_asked_for(
    rows: validity::RowsV,
    objects: Seq<(Seq<u8>, validity::FetchedV)>,
    n: int,
    path: Seq<char>,
)
    requires
        0 <= n <= rows.len(),
    ensures
        replay::lines_of(rows, objects, n).contains(path) == (exists|i: int|
            0 <= i < n && answers_by(rows, objects, #[trigger] rows[i], path)),
    decreases n,
{
    if n > 0 {
        which_paths_are_asked_for(rows, objects, n - 1, path);
        let own = replay::row_lines(rows, objects, rows[n - 1].0, rows[n - 1].1);
        row_lines_are(rows, objects, rows[n - 1], path);
        including_of(replay::lines_of(rows, objects, n - 1), own, own.len() as int, path);
        assert(own.take(own.len() as int) =~= own);
    }
}

/// Where the store does not answer at the beginning, it is not asked again, and
/// nothing is taken to be there.
pub proof fn a_store_that_fails_holds_nothing(reply: Result<Seq<Seq<char>>, StoreErrorV>)
    ensures
        reply is Err ==> replay::begun(reply).present.len() == 0 && !replay::begun(
            reply,
        ).store_answers,
        reply matches Ok(held) ==> replay::begun(reply).present == held && replay::begun(
            reply,
        ).store_answers,
        replay::begun(reply).mounted.len() == 0,
{
}

} // verus!
