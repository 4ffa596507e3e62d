//! Paths whose contents cannot change under their spelling.
use vstd::prelude::*;
use crate::host::Sealed;
use crate::links;
use crate::model::Plain;
use crate::ordered;
use crate::question::{Question, QuestionV};
use crate::text;
use crate::value::{PathValue, PathValueV, Root, RootV};

verus! {

/// A character of the hash part of a store object's name.
pub open spec fn hash_char(c: char) -> bool {
    ('0' <= c <= '9') || ('a' <= c <= 'z' && c != 'e' && c != 'o' && c != 't' && c != 'u')
}

/// A character of the rest of a store object's name.
pub open spec fn name_char(c: char) -> bool {
    ('0' <= c <= '9') || ('a' <= c <= 'z') || ('A' <= c <= 'Z') || c == '+' || c == '-' || c == '.'
        || c == '_' || c == '?' || c == '='
}

/// `s` names a store object: thirty-two characters of hash, a hyphen, and a
/// name of one to 211 characters that is not `.` or `..`, alone or before a
/// hyphen.
pub open spec fn object_name(s: Seq<char>) -> bool {
    let name = s.skip(33);
    &&& 34 <= s.len() <= 244
    &&& s[32] == '-'
    &&& forall|i: int| 0 <= i < 32 ==> hash_char(#[trigger] s[i])
    &&& forall|i: int| 33 <= i < s.len() ==> name_char(#[trigger] s[i])
    &&& !dotted(name)
}

/// The name is `.` or `..`, alone or before a hyphen.
pub open spec fn dotted(name: Seq<char>) -> bool {
    name.len() > 0 && name[0] == '.' && (name.len() == 1 || name[1] == '-' || (name[1] == '.' && (
    name.len() == 2 || name[2] == '-')))
}

/// The store object that an ambient path lies in.
pub open spec fn object_of(dir: Option<Seq<char>>, path: Seq<char>) -> Option<Seq<char>> {
    match dir {
        None => None,
        Some(d) => if text::begins(path, d) && path.len() > d.len() && path[d.len() as int] == '/' {
            let below = path.skip(d.len() as int + 1);
            let object = below.take(text::first(below, '/'));
            if object_name(object) {
                Some(object)
            } else {
                None
            }
        } else {
            None
        },
    }
}

/// The models of the entries of [`Sealed`].
pub type SealedV = Seq<(Seq<char>, Seq<Seq<char>>)>;

/// The path is not at or below any of the links under `root`.
pub open spec fn clear(path: Seq<char>, root: Seq<char>, leaving: Seq<Seq<char>>) -> bool {
    forall|i: int|
        0 <= i < leaving.len() ==> !links::below(path, root + #[trigger] leaving[i])
}

/// Nothing can change what is read at the path: it is mounted, or lies in a
/// sealed object and not at or below a link that leaves it.
pub open spec fn fixed(p: PathValueV, sealed: SealedV, dir: Option<Seq<char>>) -> bool {
    match p.root {
        RootV::Mounted(_) => true,
        RootV::Ambient => match object_of(dir, p.path) {
            None => false,
            Some(object) => match ordered::find(sealed, object) {
                None => false,
                Some(leaving) => clear(p.path, dir->0 + "/"@ + object + "/"@, leaving),
            },
        },
    }
}

impl QuestionV {
    /// The question is a plain read whose answer cannot have changed. An
    /// import reads `default.nix` where the path is a directory.
    pub open spec fn replays(self, sealed: SealedV, dir: Option<Seq<char>>) -> bool {
        match self.read_path() {
            None => false,
            Some(p) => fixed(p, sealed, dir) && (self is Import ==> fixed(
                PathValueV { root: p.root, path: p.path + "/default.nix"@ },
                sealed,
                dir,
            )),
        }
    }

    /// The root of the tree that a fixed read lies in.
    pub open spec fn tree(self, sealed: SealedV, dir: Option<Seq<char>>) -> Option<PathValueV> {
        if !self.replays(sealed, dir) {
            None
        } else {
            let p = self.read_path()->0;
            match p.root {
                RootV::Mounted(mount) => Some(PathValueV { root: p.root, path: mount }),
                RootV::Ambient => Some(
                    PathValueV {
                        root: RootV::Ambient,
                        path: dir->0 + "/"@ + object_of(dir, p.path)->0,
                    },
                ),
            }
        }
    }
}

fn is_hash_char(c: char) -> (r: bool)
    ensures
        r == hash_char(c),
{
    ('0' <= c && c <= '9') || ('a' <= c && c <= 'z' && c != 'e' && c != 'o' && c != 't' && c != 'u')
}

fn is_name_char(c: char) -> (r: bool)
    ensures
        r == name_char(c),
{
    ('0' <= c && c <= '9') || ('a' <= c && c <= 'z') || ('A' <= c && c <= 'Z') || c == '+' || c
        == '-' || c == '.' || c == '_' || c == '?' || c == '='
}

/// Whether `s` names a store object.
pub fn is_object_name(s: &str) -> (r: bool)
    ensures
        r == object_name(s@),
{
    let c = text::chars(s);
    let n: usize = c.len();
    if n < 34 || n > 244 || c[32] != '-' {
        return false;
    }
    let mut i: usize = 0;
    while i < n
        invariant
            i <= n == c.len(),
            34 <= n,
            c@ == s@,
            forall|j: int| 0 <= j < i && j < 32 ==> hash_char(#[trigger] s@[j]),
            forall|j: int| 33 <= j < i ==> name_char(#[trigger] s@[j]),
        decreases n - i,
    {
        if i < 32 && !is_hash_char(c[i]) {
            assert(!hash_char(s@[i as int]));
            return false;
        }
        if i > 32 && !is_name_char(c[i]) {
            assert(!name_char(s@[i as int]));
            return false;
        }
        i += 1;
    }
    let ghost name = s@.skip(33);
    assert(name[0] == s@[33]);
    assert(n > 34 ==> name[1] == s@[34]);
    assert(n > 35 ==> name[2] == s@[35]);
    !(c[33] == '.' && (n == 34 || c[34] == '-' || (c[34] == '.' && (n == 35 || c[35] == '-'))))
}

/// The store object that an ambient path lies in.
pub fn store_object_of(store_dir: &Option<String>, path: &str) -> (r: Option<String>)
    ensures
        r.deep_view() == object_of(store_dir.deep_view(), path@),
{
    let Some(dir) = store_dir else {
        return None;
    };
    let Some(rest) = text::after(path, dir.as_str()) else {
        return None;
    };
    let rest = text::chars(rest.as_str());
    if rest.len() == 0 || rest[0] != '/' {
        return None;
    }
    let below = text::chars(text::spell(&rest, 1, rest.len()).as_str());
    assert(below@ =~= path@.skip(dir@.len() as int + 1));
    let end = text::before(&below, '/');
    let object = text::spell(&below, 0, end);
    assert(object@ =~= below@.take(end as int));
    if is_object_name(object.as_str()) {
        Some(object)
    } else {
        None
    }
}

/// Whether nothing can change what is read at the path.
pub fn immutable_root(path: &PathValue, sealed: &Sealed, store_dir: &Option<String>) -> (r: bool)
    ensures
        r == fixed(path@, sealed@, store_dir.deep_view()),
{
    if let Root::Mounted(_) = path.root {
        return true;
    }
    let Some(object) = store_object_of(store_dir, path.path.as_str()) else {
        return false;
    };
    let Some(leaving) = sealed.get(object.as_str()) else {
        return false;
    };
    let Some(dir) = store_dir else {
        return false;
    };
    let mut root = dir.clone();
    root.append("/");
    root.append(object.as_str());
    root.append("/");
    let ghost all = leaving.deep_view();
    let ghost stem = dir@ + "/"@ + object@ + "/"@;
    let mut i: usize = 0;
    while i < leaving.len()
        invariant
            i <= leaving.len(),
            all == leaving.deep_view(),
            root@ == stem,
            stem == dir@ + "/"@ + object@ + "/"@,
            store_dir.deep_view() == Some(dir@),
            path@.root is Ambient,
            object_of(store_dir.deep_view(), path@.path) == Some(object@),
            ordered::find(sealed@, object@) == Some(all),
            forall|j: int| 0 <= j < i ==> !links::below(path@.path, stem + #[trigger] all[j]),
        decreases leaving.len() - i,
    {
        let mut at = root.clone();
        at.append(leaving[i].as_str());
        assert(at@ == stem + all[i as int]);
        if links::at_or_below(path.path.as_str(), at.as_str()) {
            proof {
                assert(!clear(path@.path, stem, all));
            }
            return false;
        }
        i += 1;
    }
    true
}

impl Question {
    /// Whether the question is a plain read whose answer cannot have changed.
    pub fn replays_from_record(&self, sealed: &Sealed, store_dir: &Option<String>) -> (r: bool)
        ensures
            r == self@.replays(sealed@, store_dir.deep_view()),
    {
        let Some(path) = self.read_path() else {
            return false;
        };
        if !immutable_root(path, sealed, store_dir) {
            return false;
        }
        match self {
            Question::Import(path) => {
                let mut at = path.path.clone();
                at.append("/default.nix");
                immutable_root(
                    &PathValue { root: path.root.copied(), path: at },
                    sealed,
                    store_dir,
                )
            },
            _ => true,
        }
    }

    /// The root of the tree that a fixed read lies in.
    pub fn tree(&self, sealed: &Sealed, store_dir: &Option<String>) -> (r: Option<PathValue>)
        ensures
            r.deep_view() == self@.tree(sealed@, store_dir.deep_view()),
    {
        if !self.replays_from_record(sealed, store_dir) {
            return None;
        }
        let Some(path) = self.read_path() else {
            return None;
        };
        match &path.root {
            Root::Mounted(mount) => Some(
                PathValue { root: path.root.copied(), path: mount.clone() },
            ),
            Root::Ambient => {
                let Some(object) = store_object_of(store_dir, path.path.as_str()) else {
                    return None;
                };
                let Some(dir) = store_dir else {
                    return None;
                };
                let mut at = dir.clone();
                at.append("/");
                at.append(object.as_str());
                Some(PathValue { root: Root::Ambient, path: at })
            },
        }
    }
}

/// A read under a mounted root always replays.
pub proof fn mounted_reads_replay(q: QuestionV, sealed: SealedV, dir: Option<Seq<char>>)
    requires
        q.read_path() matches Some(p) && p.root is Mounted,
    ensures
        q.replays(sealed, dir),
{
}

/// An effect never replays from its record alone.
pub proof fn effects_do_not_replay(q: QuestionV, sealed: SealedV, dir: Option<Seq<char>>)
    requires
        q.read_path() is None,
    ensures
        !q.replays(sealed, dir),
{
}

/// An ambient path is fixed exactly where it lies in an object of the store
/// that is sealed, and neither is nor goes on behind a link that leaves it.
pub proof fn what_is_fixed(path: Seq<char>, sealed: SealedV, dir: Seq<char>)
    ensures
        fixed(PathValueV { root: RootV::Ambient, path }, sealed, Some(dir)) == (exists|
            object: Seq<char>,
            rest: Seq<char>,
        | #[trigger]
            lies(path, dir, object, rest) && (ordered::find(sealed, object) matches Some(leaving)
                && forall|i: int|
                0 <= i < leaving.len() ==> path != dir + "/"@ + object + "/"@
                    + #[trigger] leaving[i] && !text::begins(
                    path,
                    dir + "/"@ + object + "/"@ + leaving[i] + "/"@,
                ))),
        !fixed(PathValueV { root: RootV::Ambient, path }, sealed, None),
{
    reveal_strlit("/");
    let p = PathValueV { root: RootV::Ambient, path };
    if fixed(p, sealed, Some(dir)) {
        let below = path.skip(dir.len() as int + 1);
        let n = text::first(below, '/');
        let object = object_of(Some(dir), path)->0;
        first_within(below, '/');
        let rest = below.skip(n);
        assert(path =~= dir + "/"@ + object + rest) by {
            assert(path.take(dir.len() as int) == dir);
            assert(below =~= object + rest);
        }
        object_holds_no_slash(object);
        assert(lies(path, dir, object, rest));
        let leaving = ordered::find(sealed, object)->0;
        let root = dir + "/"@ + object + "/"@;
        assert forall|i: int| 0 <= i < leaving.len() implies path != root + #[trigger] leaving[i]
            && !text::begins(path, root + leaving[i] + "/"@) by {
            assert(!links::below(path, root + leaving[i]));
            links::what_is_below(path, root + leaving[i]);
        }
    }
    if exists|object: Seq<char>, rest: Seq<char>| #[trigger]
        lies(path, dir, object, rest) && (ordered::find(sealed, object) matches Some(leaving)
            && forall|i: int|
            0 <= i < leaving.len() ==> path != dir + "/"@ + object + "/"@ + #[trigger] leaving[i]
                && !text::begins(path, dir + "/"@ + object + "/"@ + leaving[i] + "/"@)) {
        let (object, rest) = choose|object: Seq<char>, rest: Seq<char>| #[trigger]
            lies(path, dir, object, rest) && (ordered::find(sealed, object) matches Some(leaving)
                && forall|i: int|
                0 <= i < leaving.len() ==> path != dir + "/"@ + object + "/"@
                    + #[trigger] leaving[i] && !text::begins(
                    path,
                    dir + "/"@ + object + "/"@ + leaving[i] + "/"@,
                ));
        assert(path.take(dir.len() as int) =~= dir);
        assert(path[dir.len() as int] == '/');
        let below = path.skip(dir.len() as int + 1);
        assert(below =~= object + rest);
        object_holds_no_slash(object);
        assert forall|i: int| 0 <= i < object.len() implies below[i] != '/' by {
            assert(below[i] == object[i]);
            assert(object.contains(object[i]));
        }
        text::first_is(below, '/', object.len() as int);
        assert(below.take(object.len() as int) =~= object);
        assert(object_of(Some(dir), path) == Some(object));
        let leaving = ordered::find(sealed, object)->0;
        let root = dir + "/"@ + object + "/"@;
        assert forall|i: int| 0 <= i < leaving.len() implies !links::below(
            path,
            root + #[trigger] leaving[i],
        ) by {
            links::what_is_below(path, root + leaving[i]);
        }
        assert(clear(path, root, leaving));
    }
}

/// The path lies in an object of the store directory: at its root, or behind
/// it with a slash.
pub open spec fn lies(path: Seq<char>, dir: Seq<char>, object: Seq<char>, rest: Seq<char>) -> bool {
    &&& path == dir + "/"@ + object + rest
    &&& object_name(object)
    &&& rest.len() == 0 || rest[0] == '/'
}

proof fn object_holds_no_slash(object: Seq<char>)
    requires
        object_name(object),
    ensures
        !object.contains('/'),
{
    if object.contains('/') {
        let i = object.index_of('/');
        if i < 32 {
            assert(hash_char(object[i]));
        } else if i > 32 {
            assert(name_char(object[i]));
        }
    }
}

proof fn first_within(s: Seq<char>, c: char)
    ensures
        0 <= text::first(s, c) <= s.len(),
        text::first(s, c) < s.len() ==> s[text::first(s, c)] == c,
    decreases s.len(),
{
    if s.len() > 0 && s[0] != c {
        first_within(s.drop_first(), c);
    }
}

/// A path under a mounted root is fixed.
pub proof fn what_is_mounted_is_fixed(
    mount: Seq<char>,
    path: Seq<char>,
    sealed: SealedV,
    dir: Option<Seq<char>>,
)
    ensures
        fixed(PathValueV { root: RootV::Mounted(mount), path }, sealed, dir),
{
}

/// A tree is rooted where the reads in it are, and these lie at or below it:
/// it is the mount point, or an object of the store.
pub proof fn a_tree_holds_its_reads(
    q: QuestionV,
    sealed: SealedV,
    dir: Option<Seq<char>>,
    t: PathValueV,
)
    requires
        q.tree(sealed, dir) == Some(t),
    ensures
        q.read_path() matches Some(p) && t.root == p.root && (match p.root {
            RootV::Mounted(mount) => t.path == mount,
            RootV::Ambient => p.path == t.path || text::begins(p.path, t.path + "/"@),
        }),
        fixed(q.read_path()->0, sealed, dir),
        t.root is Ambient ==> exists|object: Seq<char>|
            #[trigger] object_name(object) && dir is Some && t.path == dir->0 + "/"@ + object
                && ordered::find(sealed, object) is Some,
{
    reveal_strlit("/");
    let p = q.read_path()->0;
    if p.root is Ambient {
        let d = dir->0;
        let below = p.path.skip(d.len() as int + 1);
        let object = object_of(dir, p.path)->0;
        first_within(below, '/');
        let n = text::first(below, '/');
        assert(p.path.take(d.len() as int) == d);
        let rest = below.skip(n);
        assert(p.path =~= d + "/"@ + object + rest) by {
            assert(below =~= object + rest);
        }
        if rest.len() == 0 {
            assert(p.path =~= t.path);
        } else {
            assert(p.path.take(t.path.len() as int + 1) =~= t.path + "/"@);
        }
        assert(object_name(object));
    }
}

/// What names a store object: thirty-two digits of the store's own base, which
/// leaves out four letters, a hyphen, and one to 211 characters that are
/// letters, digits or one of a few signs.
pub proof fn what_names_an_object(s: Seq<char>, i: int)
    requires
        object_name(s),
        0 <= i < s.len(),
    ensures
        s.len() > 33 && s.len() - 33 <= 211,
        i == 32 ==> s[i] == '-',
        i < 32 ==> s[i] != 'e' && s[i] != 'o' && s[i] != 't' && s[i] != 'u' && (('0' <= s[i]
            <= '9') || ('a' <= s[i] <= 'z')),
        s[i] != '/' && s[i] != '\0' && s[i] != ' ' && s[i] != '\n',
        s.skip(33) != seq!['.'] && s.skip(33) != seq!['.', '.'],
{
    if i < 32 {
        assert(hash_char(s[i]));
    } else if i > 32 {
        assert(name_char(s[i]));
    }
    let name = s.skip(33);
    assert(name.len() == s.len() - 33);
}

} // verus!
