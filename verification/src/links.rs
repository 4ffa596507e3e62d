//! Symbolic links of a store object: which of them lead out of it.
use vstd::prelude::*;
use crate::ordered::TextMap;
use crate::ordered;
use crate::model;
use crate::model::Plain;
use crate::text;

verus! {

/// A symbolic link: where it stands below its object's root, and its target.
#[derive(Debug, PartialEq, Eq)]
pub struct Symlink {
    pub path: String,
    pub target: String,
}

/// The model of a [`Symlink`].
pub struct SymlinkV {
    pub path: Seq<char>,
    pub target: Seq<char>,
}

impl View for Symlink {
    type V = SymlinkV;

    open spec fn view(&self) -> SymlinkV {
        SymlinkV { path: self.path@, target: self.target@ }
    }
}

impl DeepView for Symlink {
    type V = SymlinkV;

    open spec fn deep_view(&self) -> SymlinkV {
        self@
    }
}

impl Plain for Symlink {
    fn copied(&self) -> (r: Self) {
        Symlink { path: self.path.clone(), target: self.target.clone() }
    }

    fn same(&self, other: &Self) -> (r: bool) {
        let a = self.path.same(&other.path);
        let b = self.target.same(&other.target);
        a && b
    }
}

/// `path` is `prefix` or stands below it. Everything stands below the empty prefix.
pub open spec fn below(path: Seq<char>, prefix: Seq<char>) -> bool {
    prefix.len() == 0 || (text::begins(path, prefix) && (path.len() == prefix.len()
        || path[prefix.len() as int] == '/'))
}

/// The components of a target that move: neither empty nor `.`.
pub open spec fn moving(v: Seq<Seq<char>>) -> Seq<Seq<char>>
    decreases v.len(),
{
    if v.len() == 0 {
        Seq::empty()
    } else {
        let head = moving(v.drop_last());
        if v.last() == ""@ || v.last() == "."@ {
            head
        } else {
            head.push(v.last())
        }
    }
}

/// Where the components lead from the directory `stack`: `None` where they
/// climb past the root, or pass through a link before the last component.
pub open spec fn walk(
    stack: Seq<Seq<char>>,
    components: Seq<Seq<char>>,
    link: Set<Seq<char>>,
) -> Option<Seq<char>>
    decreases components.len(),
{
    if components.len() == 0 {
        Some(text::join(stack, "/"@))
    } else if components[0] == ".."@ {
        if stack.len() == 0 {
            None
        } else {
            walk(stack.drop_last(), components.drop_first(), link)
        }
    } else {
        let next = stack.push(components[0]);
        if components.len() > 1 && link.contains(text::join(next, "/"@)) {
            None
        } else {
            walk(next, components.drop_first(), link)
        }
    }
}

/// Where a link leads inside its object, if it stays there.
pub open spec fn resolved(l: SymlinkV, link: Set<Seq<char>>) -> Option<Seq<char>> {
    if l.target.len() == 0 || l.target[0] == '/' {
        None
    } else {
        walk(text::split(l.path, '/').drop_last(), moving(text::split(l.target, '/')), link)
    }
}

/// The places of the links.
pub open spec fn places(links: Seq<SymlinkV>) -> Set<Seq<char>> {
    Set::new(|p: Seq<char>| exists|i: int| 0 <= i < links.len() && (#[trigger] links[i]).path == p)
}

/// Where each link leads; the last of two at one place counts.
pub open spec fn leads(links: Seq<SymlinkV>, n: int) -> Seq<(Seq<char>, Option<Seq<char>>)>
    decreases n,
{
    if n <= 0 {
        Seq::empty()
    } else {
        ordered::put(leads(links, n - 1), links[n - 1].path, resolved(links[n - 1], places(links)))
    }
}

/// A place at or below `a` is at or below `b`, or the other way round.
pub open spec fn touch(a: Seq<char>, b: Seq<char>) -> bool {
    below(a, b) || below(b, a)
}

/// `s` holds each link that leads out, and each that leads to, into or around
/// a place in `s`.
pub open spec fn closed(to: Seq<(Seq<char>, Option<Seq<char>>)>, s: Set<Seq<char>>) -> bool {
    forall|i: int| 0 <= i < to.len() ==> taken(#[trigger] to[i], s)
}

/// A link that leads out of `s`'s complement is in `s`.
pub open spec fn taken(entry: (Seq<char>, Option<Seq<char>>), s: Set<Seq<char>>) -> bool {
    match entry.1 {
        None => s.contains(entry.0),
        Some(t) => (exists|l: Seq<char>| #[trigger] s.contains(l) && touch(t, l)) ==> s.contains(entry.0),
    }
}

/// `out` lists, in order, the least closed set: the links that leave.
pub open spec fn leaving(links: Seq<SymlinkV>, out: Seq<Seq<char>>) -> bool {
    let to = leads(links, links.len() as int);
    &&& text::sorted(out)
    &&& forall|i: int| 0 <= i < out.len() ==> ordered::keys(to).contains(#[trigger] out[i])
    &&& closed(to, out.to_set())
    &&& forall|s: Set<Seq<char>>| #[trigger] closed(to, s) ==> out.to_set().subset_of(s)
}

/// Whether `path` is `prefix` or stands below it.
pub fn at_or_below(path: &str, prefix: &str) -> (r: bool)
    ensures
        r == below(path@, prefix@),
{
    let c = text::chars(path);
    let p = text::chars(prefix);
    if p.len() == 0 {
        return true;
    }
    if !text::starts(path, prefix) {
        return false;
    }
    c.len() == p.len() || c[p.len()] == '/'
}

fn moving_components(v: &Vec<String>) -> (r: Vec<String>)
    ensures
        text::texts(r@) == moving(text::texts(v@)),
{
    let mut r: Vec<String> = Vec::new();
    let ghost all = text::texts(v@);
    let mut i: usize = 0;
    assert(text::texts(r@) =~= moving(all.take(0)));
    while i < v.len()
        invariant
            i <= v.len(),
            all == text::texts(v@),
            text::texts(r@) == moving(all.take(i as int)),
        decreases v.len() - i,
    {
        proof {
            assert(all.take(i + 1).drop_last() =~= all.take(i as int));
            assert(all.take(i + 1).last() == v[i as int]@);
        }
        if !text::same(v[i].as_str(), "") && !text::same(v[i].as_str(), ".") {
            let ghost prior = r@;
            r.push(v[i].clone());
            assert(text::texts(r@) =~= text::texts(prior).push(v[i as int]@));
        }
        i += 1;
    }
    assert(all.take(i as int) =~= all);
    r
}

fn walked(from: Vec<String>, components: &Vec<String>, link: &Vec<Symlink>) -> (r: Option<String>)
    ensures
        (match r {
            Some(s) => Some(s@),
            None => None,
        }) == walk(text::texts(from@), text::texts(components@), places(model::deep(link@))),
{
    let ghost start = text::texts(from@);
    let mut stack = from;
    let ghost all = text::texts(components@);
    let ghost whole = walk(start, all, places(model::deep(link@)));
    let mut i: usize = 0;
    assert(all.skip(0) =~= all);
    while i < components.len()
        invariant
            i <= components.len(),
            all == text::texts(components@),
            start == text::texts(from@),
            whole == walk(start, all, places(model::deep(link@))),
            whole == walk(text::texts(stack@), all.skip(i as int), places(model::deep(link@))),
        decreases components.len() - i,
    {
        proof {
            assert(all.skip(i as int).drop_first() =~= all.skip(i + 1));
            assert(all.skip(i as int)[0] == components[i as int]@);
        }
        let ghost prior = text::texts(stack@);
        if text::same(components[i].as_str(), "..") {
            if stack.pop().is_none() {
                return None;
            }
            assert(text::texts(stack@) =~= prior.drop_last());
            i += 1;
            continue;
        }
        stack.push(components[i].clone());
        assert(text::texts(stack@) =~= prior.push(components[i as int]@));
        if i + 1 < components.len() {
            let at = text::joined(&stack, "/");
            if is_link(link, at.as_str()) {
                return None;
            }
        }
        i += 1;
    }
    assert(all.skip(i as int).len() == 0);
    Some(text::joined(&stack, "/"))
}

fn is_link(links: &Vec<Symlink>, at: &str) -> (r: bool)
    ensures
        r == places(model::deep(links@)).contains(at@),
{
    let ghost all = model::deep(links@);
    let mut i: usize = 0;
    while i < links.len()
        invariant
            i <= links.len(),
            all == model::deep(links@),
            forall|j: int| 0 <= j < i ==> (#[trigger] all[j]).path != at@,
        decreases links.len() - i,
    {
        if text::same(links[i].path.as_str(), at) {
            assert(all[i as int].path == at@);
            return true;
        }
        i += 1;
    }
    false
}

fn resolve(l: &Symlink, links: &Vec<Symlink>) -> (r: Option<String>)
    ensures
        r.deep_view() == resolved(l@, places(model::deep(links@))),
{
    let target = text::chars(l.target.as_str());
    if target.len() == 0 || target[0] == '/' {
        return None;
    }
    let mut stack = text::pieces(l.path.as_str(), '/');
    let ghost prior = text::texts(stack@);
    proof {
        text::split_nonempty(l.path@, '/');
    }
    stack.pop();
    assert(text::texts(stack@) =~= prior.drop_last());
    let components = moving_components(&text::pieces(l.target.as_str(), '/'));
    walked(stack, &components, links)
}

fn leads_to(links: &Vec<Symlink>) -> (to: TextMap<Option<String>>)
    ensures
        to@ == leads(model::deep(links@), links@.len() as int),
        to.wf(),
{
    let mut to: TextMap<Option<String>> = TextMap::new();
    let mut i: usize = 0;
    while i < links.len()
        invariant
            i <= links.len(),
            to@ == leads(model::deep(links@), i as int),
            to.wf(),
        decreases links.len() - i,
    {
        let r = resolve(&links[i], links);
        to.insert(links[i].path.clone(), r);
        i += 1;
    }
    to
}

spec fn flagged(to: Seq<(Seq<char>, Option<Seq<char>>)>, flags: Seq<bool>) -> Set<Seq<char>> {
    Set::new(
        |p: Seq<char>| exists|i: int| 0 <= i < to.len() && #[trigger] flags[i] && to[i].0 == p,
    )
}

/// `p` is the place of one of the first `i` links that is flagged.
spec fn listed(
    to: Seq<(Seq<char>, Option<Seq<char>>)>,
    flags: Seq<bool>,
    i: int,
    p: Seq<char>,
) -> bool {
    exists|k: int| 0 <= k < i && (#[trigger] flags[k]) && to[k].0 == p
}

/// Whether a flagged link's place touches `t`.
fn touches(to: &TextMap<Option<String>>, flags: &Vec<bool>, t: &str) -> (r: bool)
    requires
        flags.len() == to@.len(),
    ensures
        r == exists|l: Seq<char>| #[trigger] flagged(to@, flags@).contains(l) && touch(t@, l),
{
    let mut i: usize = 0;
    while i < flags.len()
        invariant
            i <= flags.len() == to@.len(),
            forall|j: int| 0 <= j < i && #[trigger] flags@[j] ==> !touch(t@, to@[j].0),
        decreases flags.len() - i,
    {
        if flags[i] {
            let at = to.entries[i].0.as_str();
            if at_or_below(t, at) || at_or_below(at, t) {
                assert(flagged(to@, flags@).contains(to@[i as int].0));
                return true;
            }
        }
        i += 1;
    }
    false
}

spec fn count(flags: Seq<bool>) -> int
    decreases flags.len(),
{
    if flags.len() == 0 {
        0
    } else {
        count(flags.drop_last()) + if flags.last() { 1int } else { 0 }
    }
}

proof fn count_bound(flags: Seq<bool>)
    ensures
        0 <= count(flags) <= flags.len(),
    decreases flags.len(),
{
    if flags.len() > 0 {
        count_bound(flags.drop_last());
    }
}

proof fn count_set(flags: Seq<bool>, i: int)
    requires
        0 <= i < flags.len(),
        !flags[i],
    ensures
        count(flags.update(i, true)) == count(flags) + 1,
    decreases flags.len(),
{
    let f = flags.update(i, true);
    if i == flags.len() - 1 {
        assert(f.drop_last() =~= flags.drop_last());
    } else {
        assert(f.drop_last() =~= flags.drop_last().update(i, true));
        count_set(flags.drop_last(), i);
    }
}

/// The links that leave their object: the least set that holds each link
/// whose target is absolute or climbs out, each that passes through another
/// link, and each that leads to, into or around a leaving one.
pub fn leaving_links(links: &Vec<Symlink>) -> (out: Vec<String>)
    ensures
        leaving(model::deep(links@), text::texts(out@)),
{
    let to = leads_to(links);
    let ghost t = to@;
    let n: usize = to.len();
    let mut flags: Vec<bool> = Vec::new();
    let mut i: usize = 0;
    while i < n
        invariant
            i <= n == t.len(),
            t == to@,
            flags.len() == i,
            forall|j: int| 0 <= j < i ==> (#[trigger] flags@[j] == (t[j].1 is None)),
        decreases n - i,
    {
        let out = to.entries[i].1.is_none();
        assert(t[i as int].1 is None == out);
        flags.push(out);
        i += 1;
    }
    let mut changed = true;
    while changed
        invariant
            n == t.len() == flags.len(),
            t == to@,
            forall|j: int| 0 <= j < n && t[j].1 is None ==> #[trigger] flags@[j],
            forall|s: Set<Seq<char>>| #[trigger] closed(t, s) ==> flagged(t, flags@).subset_of(s),
            !changed ==> forall|j: int|
                0 <= j < n && !(#[trigger] flags@[j]) ==> (t[j].1 matches Some(x) && !(exists|
                    l: Seq<char>,
                | #[trigger] flagged(t, flags@).contains(l) && touch(x, l))),
        decreases n - count(flags@), (if changed { 1int } else { 0int }),
    {
        changed = false;
        let ghost begun = flags@;
        let mut i: usize = 0;
        while i < n
            invariant
                i <= n == t.len() == flags.len(),
                t == to@,
                forall|j: int| 0 <= j < n && t[j].1 is None ==> #[trigger] flags@[j],
                forall|s: Set<Seq<char>>| #[trigger]
                    closed(t, s) ==> flagged(t, flags@).subset_of(s),
                !changed ==> flags@ == begun,
                changed ==> count(flags@) > count(begun),
                !changed ==> forall|j: int|
                    0 <= j < i && !(#[trigger] flags@[j]) ==> (t[j].1 matches Some(x) && !(exists|
                        l: Seq<char>,
                    | #[trigger] flagged(t, flags@).contains(l) && touch(x, l))),
            decreases n - i,
        {
            if !flags[i] {
                if let Some(x) = &to.entries[i].1 {
                    if touches(&to, &flags, x.as_str()) {
                        let ghost prior = flags@;
                        proof {
                            count_set(prior, i as int);
                        }
                        flags.set(i, true);
                        changed = true;
                        proof {
                            let f = flags@;
                            assert forall|s: Set<Seq<char>>| #[trigger] closed(t, s) implies flagged(
                                t,
                                f,
                            ).subset_of(s) by {
                                let l = choose|l: Seq<char>| #[trigger]
                                    flagged(t, prior).contains(l) && touch(x@, l);
                                assert(flagged(t, prior).subset_of(s));
                                assert(s.contains(l) && touch(x@, l));
                                assert(taken(t[i as int], s));
                                assert(t[i as int].1 == Some(x@));
                                assert(s.contains(t[i as int].0));
                                assert forall|p: Seq<char>| flagged(t, f).contains(p) implies s.contains(
                                    p,
                                ) by {
                                    let k = choose|k: int|
                                        0 <= k < t.len() && #[trigger] f[k] && t[k].0 == p;
                                    if k != i {
                                        assert(prior[k]);
                                        assert(flagged(t, prior).contains(p));
                                    }
                                }
                            }
                        }
                    }
                }
            }
            i += 1;
        }
        proof {
            count_bound(flags@);
        }
    }
    let mut out: Vec<String> = Vec::new();
    let mut i: usize = 0;
    assert(text::texts(out@) =~= Seq::<Seq<char>>::empty());
    while i < n
        invariant
            i <= n == t.len() == flags.len(),
            t == to@,
            to.wf(),
            text::sorted(text::texts(out@)),
            forall|j: int|
                0 <= j < text::texts(out@).len() ==> listed(
                    t,
                    flags@,
                    i as int,
                    #[trigger] text::texts(out@)[j],
                ),
            forall|k: int|
                0 <= k < i && (#[trigger] flags@[k]) ==> text::texts(out@).contains(t[k].0),
        decreases n - i,
    {
        if flags[i] {
            let ghost prior = text::texts(out@);
            out.push(to.entries[i].0.clone());
            proof {
                let now = text::texts(out@);
                let here = t[i as int].0;
                assert(now =~= prior.push(here));
                assert forall|a: int, b: int| 0 <= a < b < now.len() implies text::lt(
                    #[trigger] now[a],
                    #[trigger] now[b],
                ) by {
                    if b == prior.len() {
                        assert(listed(t, flags@, i as int, prior[a]));
                        let k = choose|k: int|
                            0 <= k < i && (#[trigger] flags@[k]) && t[k].0 == prior[a];
                        assert(text::lt(ordered::keys(t)[k], ordered::keys(t)[i as int]));
                    } else {
                        assert(text::lt(prior[a], prior[b]));
                    }
                }
                assert forall|j: int| 0 <= j < now.len() implies listed(
                    t,
                    flags@,
                    i + 1,
                    #[trigger] now[j],
                ) by {
                    if j < prior.len() {
                        assert(listed(t, flags@, i as int, prior[j]));
                        let k = choose|k: int|
                            0 <= k < i && (#[trigger] flags@[k]) && t[k].0 == prior[j];
                        assert(flags@[k]);
                    } else {
                        assert(flags@[i as int]);
                    }
                }
                assert forall|k: int| 0 <= k < i + 1 && (#[trigger] flags@[k]) implies now.contains(
                    t[k].0,
                ) by {
                    if k < i {
                        let j = prior.index_of(t[k].0);
                        assert(now[j] == t[k].0);
                    } else {
                        assert(now[prior.len() as int] == here);
                    }
                }
            }
        } else {
            proof {
                let o = text::texts(out@);
                assert forall|j: int| 0 <= j < o.len() implies listed(
                    t,
                    flags@,
                    i + 1,
                    #[trigger] o[j],
                ) by {
                    let k = choose|k: int| 0 <= k < i && (#[trigger] flags@[k]) && t[k].0 == o[j];
                    assert(flags@[k]);
                }
            }
        }
        i += 1;
    }
    proof {
        let o = text::texts(out@);
        assert(o.to_set() =~= flagged(t, flags@)) by {
            assert forall|p: Seq<char>| o.to_set().contains(p) == flagged(t, flags@).contains(p) by {
                if o.contains(p) {
                    let j = o.index_of(p);
                    assert(listed(t, flags@, n as int, o[j]));
                    let k = choose|k: int| 0 <= k < n && (#[trigger] flags@[k]) && t[k].0 == o[j];
                    assert(flags@[k]);
                }
            }
        }
        assert forall|j: int| 0 <= j < o.len() implies ordered::keys(t).contains(#[trigger] o[j]) by {
            assert(listed(t, flags@, n as int, o[j]));
            let k = choose|k: int| 0 <= k < n && (#[trigger] flags@[k]) && t[k].0 == o[j];
            assert(ordered::keys(t)[k] == o[j]);
        }
        assert forall|j: int| 0 <= j < t.len() implies taken(#[trigger] t[j], o.to_set()) by {
            if flags@[j] {
                assert(flagged(t, flags@).contains(t[j].0));
            }
        }
    }
    out
}

/// The links that leave, in order.
pub open spec fn left(links: Seq<SymlinkV>) -> Seq<Seq<char>> {
    choose|out: Seq<Seq<char>>| leaving(links, out)
}

/// There is one list of the links that leave.
pub proof fn leaving_is_one(links: Seq<SymlinkV>, out: Seq<Seq<char>>)
    requires
        leaving(links, out),
    ensures
        left(links) == out,
{
    let other = left(links);
    let to = leads(links, links.len() as int);
    assert(closed(to, out.to_set()));
    assert(closed(to, other.to_set()));
    assert(out.to_set() =~= other.to_set());
    text::sorted_is_one(out, other);
}

/// A link whose target is absolute, empty, or climbs past the root leaves.
pub proof fn a_link_that_leads_out_leaves(links: Seq<SymlinkV>, out: Seq<Seq<char>>, i: int)
    requires
        leaving(links, out),
        0 <= i < links.len(),
        resolved(links[i], places(links)) is None,
        forall|j: int| i < j < links.len() ==> (#[trigger] links[j]).path != links[i].path,
    ensures
        out.contains(links[i].path),
{
    let n = links.len() as int;
    let to = leads(links, n);
    let p = links[i].path;
    leads_found(links, n, i);
    ordered::find_iff(to, p);
    let k = choose|k: int| 0 <= k < to.len() && to[k] == (p, None::<Seq<char>>);
    assert(taken(to[k], out.to_set()));
}

/// A link that leads to, into or around a leaving one leaves.
pub proof fn a_link_to_a_leaving_one_leaves(
    links: Seq<SymlinkV>,
    out: Seq<Seq<char>>,
    i: int,
    target: Seq<char>,
    l: Seq<char>,
)
    requires
        leaving(links, out),
        0 <= i < links.len(),
        resolved(links[i], places(links)) == Some(target),
        forall|j: int| i < j < links.len() ==> (#[trigger] links[j]).path != links[i].path,
        out.contains(l),
        touch(target, l),
    ensures
        out.contains(links[i].path),
{
    let n = links.len() as int;
    let to = leads(links, n);
    let p = links[i].path;
    leads_found(links, n, i);
    ordered::find_iff(to, p);
    let k = choose|k: int| 0 <= k < to.len() && to[k] == (p, Some(target));
    assert(taken(to[k], out.to_set()));
    assert(out.to_set().contains(l));
}

proof fn leads_found(links: Seq<SymlinkV>, n: int, i: int)
    requires
        0 <= i < n <= links.len(),
        forall|j: int| i < j < n ==> (#[trigger] links[j]).path != links[i].path,
    ensures
        ordered::find(leads(links, n), links[i].path) == Some(
            resolved(links[i], places(links)),
        ),
    decreases n,
{
    let prior = leads(links, n - 1);
    let r = resolved(links[n - 1], places(links));
    if i == n - 1 {
        ordered::put_found(prior, links[i].path, r);
    } else {
        leads_found(links, n - 1, i);
        ordered::put_keeps(prior, links[n - 1].path, r, links[i].path);
    }
}

/// A path is below a prefix where it is the prefix, or goes on behind it with
/// a slash; `a/bc` is not below `a/b`.
pub proof fn what_is_below(path: Seq<char>, prefix: Seq<char>)
    requires
        prefix.len() > 0,
    ensures
        below(path, prefix) == (path == prefix || text::begins(path, prefix + "/"@)),
{
    reveal_strlit("/");
    let x = prefix + "/"@;
    if below(path, prefix) {
        if path.len() == prefix.len() {
            assert(path.take(prefix.len() as int) =~= path);
        } else {
            assert(path.take(x.len() as int) =~= x);
        }
    }
    if text::begins(path, x) {
        assert(path.take(prefix.len() as int) =~= path.take(x.len() as int).take(
            prefix.len() as int,
        ));
        assert(x.take(prefix.len() as int) =~= prefix);
        assert(path[prefix.len() as int] == path.take(x.len() as int)[prefix.len() as int]);
    }
    if path == prefix {
        assert(path.take(prefix.len() as int) =~= prefix);
    }
}

proof fn leads_sorted(links: Seq<SymlinkV>, n: int)
    requires
        0 <= n <= links.len(),
    ensures
        text::sorted(ordered::keys(leads(links, n))),
    decreases n,
{
    if n > 0 {
        leads_sorted(links, n - 1);
        ordered::put_sorted(
            leads(links, n - 1),
            links[n - 1].path,
            resolved(links[n - 1], places(links)),
        );
    }
}

/// A link that leads to a place of its object, and there to, into and around
/// no link that leaves, does not leave.
pub proof fn a_link_that_stays_inside_does_not_leave(
    links: Seq<SymlinkV>,
    out: Seq<Seq<char>>,
    i: int,
    target: Seq<char>,
)
    requires
        leaving(links, out),
        0 <= i < links.len(),
        resolved(links[i], places(links)) == Some(target),
        forall|j: int| i < j < links.len() ==> (#[trigger] links[j]).path != links[i].path,
        forall|l: Seq<char>| #[trigger] out.contains(l) && l != links[i].path ==> !touch(target, l),
    ensures
        !out.contains(links[i].path),
{
    let n = links.len() as int;
    let to = leads(links, n);
    let p = links[i].path;
    leads_found(links, n, i);
    leads_sorted(links, n);
    let s = out.to_set().remove(p);
    assert(closed(to, s)) by {
        assert forall|k: int| 0 <= k < to.len() implies taken(#[trigger] to[k], s) by {
            assert(taken(to[k], out.to_set()));
            assert(ordered::keys(to)[k] == to[k].0);
            if to[k].0 == p {
                ordered::find_iff(to, p);
                let m = choose|m: int| 0 <= m < to.len() && to[m] == (p, Some(target));
                assert(ordered::keys(to)[m] == p);
                if m != k {
                    text::lt_irreflexive(p);
                }
                assert(to[k].1 == Some(target));
            } else if to[k].1 is Some {
                let t = to[k].1->0;
                if exists|l: Seq<char>| #[trigger] s.contains(l) && touch(t, l) {
                    let l = choose|l: Seq<char>| #[trigger] s.contains(l) && touch(t, l);
                    assert(out.to_set().contains(l));
                }
            }
        }
    }
    assert(out.to_set().subset_of(s));
    if out.contains(p) {
        assert(out.to_set().contains(p));
    }
}

/// A link with no target, or an absolute one, leads out.
pub proof fn an_absolute_link_leads_out(l: SymlinkV, link: Set<Seq<char>>)
    requires
        l.target.len() == 0 || l.target[0] == '/',
    ensures
        resolved(l, link) is None,
{
}

/// A link to a name beside it leads to that name in its own directory.
pub proof fn a_link_to_a_name_leads_beside_it(l: SymlinkV, link: Set<Seq<char>>)
    requires
        l.target.len() > 0,
        !l.target.contains('/'),
        l.target != "."@,
        l.target != ".."@,
    ensures
        resolved(l, link) == Some(
            text::join(text::split(l.path, '/').drop_last().push(l.target), "/"@),
        ),
{
    let v = text::split(l.target, '/');
    text::split_of_join(seq![l.target], '/');
    assert(v =~= seq![l.target]);
    assert(v.drop_last() =~= Seq::<Seq<char>>::empty());
    reveal_strlit("");
    assert(l.target[0] == l.target[0]);
    assert(l.target.contains(l.target[0]));
    reveal_with_fuel(moving, 2);
    assert(moving(v) =~= seq![l.target]);
    reveal_with_fuel(walk, 2);
    assert(moving(v).drop_first() =~= Seq::<Seq<char>>::empty());
}

/// A link that climbs past the root of its object leads out.
pub proof fn a_link_that_climbs_out_leads_out(
    stack: Seq<Seq<char>>,
    components: Seq<Seq<char>>,
    link: Set<Seq<char>>,
)
    requires
        components.len() > stack.len(),
        forall|i: int| 0 <= i <= stack.len() ==> #[trigger] components[i] == ".."@,
    ensures
        walk(stack, components, link) is None,
    decreases stack.len(),
{
    assert(components[0] == ".."@);
    if stack.len() > 0 {
        let rest = components.drop_first();
        assert forall|i: int| 0 <= i <= stack.drop_last().len() implies #[trigger] rest[i]
            == ".."@ by {
            assert(rest[i] == components[i + 1]);
        }
        a_link_that_climbs_out_leads_out(stack.drop_last(), rest, link);
    }
}

/// Of a target's components those that are empty or a single dot lead nowhere:
/// without them it leads to the same place.
pub proof fn dots_lead_nowhere(v: Seq<Seq<char>>, x: Seq<char>)
    requires
        x == ""@ || x == "."@,
    ensures
        moving(v.push(x)) == moving(v),
        moving(seq![x] + v) == moving(v),
    decreases v.len(),
{
    assert(v.push(x).drop_last() =~= v);
    let w = seq![x] + v;
    if v.len() == 0 {
        assert(w.drop_last() =~= v);
        assert(w.last() == x);
    } else {
        assert(w.drop_last() =~= seq![x] + v.drop_last());
        assert(w.last() == v.last());
        dots_lead_nowhere(v.drop_last(), x);
    }
}

/// A component that is neither empty nor a single dot moves.
pub proof fn other_components_move(v: Seq<Seq<char>>, x: Seq<char>)
    requires
        x != ""@,
        x != "."@,
    ensures
        moving(v.push(x)) == moving(v).push(x),
{
    assert(v.push(x).drop_last() =~= v);
}

} // verus!
