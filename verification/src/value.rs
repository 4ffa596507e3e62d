//! Paths and string contexts as the evaluator holds them.
use vstd::prelude::*;
use std::rc::Rc;
use crate::model::Plain;
use crate::text;

verus! {

/// Where a path is rooted.
#[derive(Debug, PartialEq, Eq)]
pub enum Root {
    /// The machine's own file system.
    Ambient,
    /// A tree mounted at a store path; its name fixes its contents.
    Mounted(String),
}

/// The model of [`Root`].
#[verifier::ext_equal]
pub enum RootV {
    Ambient,
    Mounted(Seq<char>),
}

impl View for Root {
    type V = RootV;

    open spec fn view(&self) -> RootV {
        match self {
            Root::Ambient => RootV::Ambient,
            Root::Mounted(a) => RootV::Mounted(a@),
        }
    }
}

impl DeepView for Root {
    type V = RootV;

    open spec fn deep_view(&self) -> RootV {
        self@
    }
}

impl Clone for Root {
    fn clone(&self) -> (r: Self)
        ensures
            r@ == self@,
    {
        self.copied()
    }
}

impl Plain for Root {
    fn copied(&self) -> (r: Self) {
        match self {
            Root::Ambient => Root::Ambient,
            Root::Mounted(a) => Root::Mounted(a.copied()),
        }
    }

    fn same(&self, other: &Self) -> (r: bool) {
        match (self, other) {
            (Root::Ambient, Root::Ambient) => true,
            (Root::Mounted(a), Root::Mounted(b)) => a.same(b),
            _ => false,
        }
    }
}

impl RootV {
    /// How a root is written beside a path: nothing for the ambient one, else
    /// the mount point.
    pub open spec fn wire(self) -> Seq<char> {
        match self {
            RootV::Ambient => ""@,
            RootV::Mounted(mount) => mount,
        }
    }

    /// The root that is written so.
    pub open spec fn read(wire: Seq<char>) -> RootV {
        if wire == ""@ {
            RootV::Ambient
        } else {
            RootV::Mounted(wire)
        }
    }

    /// A mount point has a name.
    pub open spec fn wf(self) -> bool {
        self matches RootV::Mounted(mount) ==> mount != ""@
    }
}

impl Root {
    pub fn mounted(mount: &str) -> (r: Root)
        ensures
            r@ == RootV::Mounted(mount@),
    {
        Root::Mounted(mount.to_owned())
    }

    pub fn wire_name(&self) -> (r: &str)
        ensures
            r@ == self@.wire(),
    {
        match self {
            Root::Ambient => "",
            Root::Mounted(mount) => mount.as_str(),
        }
    }
}

/// A path and where it is rooted.
#[derive(Debug, PartialEq, Eq)]
pub struct PathValue {
    pub root: Root,
    pub path: String,
}

/// The model of [`PathValue`].
#[verifier::ext_equal]
pub struct PathValueV {
    pub root: RootV,
    pub path: Seq<char>,
}

impl View for PathValue {
    type V = PathValueV;

    open spec fn view(&self) -> PathValueV {
        PathValueV {
            root: self.root@,
            path: self.path@,
        }
    }
}

impl DeepView for PathValue {
    type V = PathValueV;

    open spec fn deep_view(&self) -> PathValueV {
        self@
    }
}

impl Clone for PathValue {
    fn clone(&self) -> (r: Self)
        ensures
            r@ == self@,
    {
        self.copied()
    }
}

impl Plain for PathValue {
    fn copied(&self) -> (r: Self) {
        PathValue {
            root: self.root.copied(),
            path: self.path.copied(),
        }
    }

    fn same(&self, other: &Self) -> (r: bool) {
        let s0 = self.root.same(&other.root);
        let s1 = self.path.same(&other.path);
        s0 && s1
    }
}

impl PathValueV {
    /// The root can be written and read back.
    pub open spec fn wf(self) -> bool {
        self.root.wf()
    }
}

impl PathValue {
    pub fn new(root: Root, path: &str) -> (r: PathValue)
        ensures
            r@ == (PathValueV { root: root@, path: path@ }),
    {
        PathValue { root, path: path.to_owned() }
    }

    pub fn ambient(path: &str) -> (r: PathValue)
        ensures
            r@ == (PathValueV { root: RootV::Ambient, path: path@ }),
    {
        PathValue { root: Root::Ambient, path: path.to_owned() }
    }

    /// The path as its accessor spells it.
    pub fn accessor_path(&self) -> (r: &str)
        ensures
            r@ == self@.path,
    {
        self.path.as_str()
    }

    /// The path at `path` under the root written as `root`.
    pub fn from_wire(root: &str, path: &str) -> (r: PathValue)
        ensures
            r@ == (PathValueV { root: RootV::read(root@), path: path@ }),
    {
        let root = if text::same(root, "") {
            Root::Ambient
        } else {
            Root::Mounted(root.to_owned())
        };
        PathValue { root, path: path.to_owned() }
    }
}

/// An ambient path, shared.
pub fn ambient_path(path: &str) -> (r: Rc<PathValue>)
    ensures
        r@ == (PathValueV { root: RootV::Ambient, path: path@ }),
{
    Rc::new(PathValue::ambient(path))
}

/// A root is read back as it was written.
pub proof fn root_reads_back(root: RootV)
    requires
        root.wf(),
    ensures
        RootV::read(root.wire()) == root,
{
}

/// What a string depends on.
#[derive(Debug, PartialEq, Eq)]
pub enum ContextElem {
    /// A store path as it stands.
    Opaque(String),
    /// A derivation with its whole closure.
    DrvDeep(String),
    /// An output of a derivation.
    Built { drv: String, output: String },
}

/// The model of [`ContextElem`].
#[verifier::ext_equal]
pub enum ContextElemV {
    Opaque(Seq<char>),
    DrvDeep(Seq<char>),
    Built { drv: Seq<char>, output: Seq<char> },
}

impl View for ContextElem {
    type V = ContextElemV;

    open spec fn view(&self) -> ContextElemV {
        match self {
            ContextElem::Opaque(a) => ContextElemV::Opaque(a@),
            ContextElem::DrvDeep(a) => ContextElemV::DrvDeep(a@),
            ContextElem::Built { drv, output } => ContextElemV::Built { drv: drv@, output: output@ },
        }
    }
}

impl DeepView for ContextElem {
    type V = ContextElemV;

    open spec fn deep_view(&self) -> ContextElemV {
        self@
    }
}

impl Clone for ContextElem {
    fn clone(&self) -> (r: Self)
        ensures
            r@ == self@,
    {
        self.copied()
    }
}

impl Plain for ContextElem {
    fn copied(&self) -> (r: Self) {
        match self {
            ContextElem::Opaque(a) => ContextElem::Opaque(a.copied()),
            ContextElem::DrvDeep(a) => ContextElem::DrvDeep(a.copied()),
            ContextElem::Built { drv, output } => ContextElem::Built { drv: drv.copied(), output: output.copied() },
        }
    }

    fn same(&self, other: &Self) -> (r: bool) {
        match (self, other) {
            (ContextElem::Opaque(a), ContextElem::Opaque(b)) => a.same(b),
            (ContextElem::DrvDeep(a), ContextElem::DrvDeep(b)) => a.same(b),
            (ContextElem::Built { drv: drv_a, output: output_a }, ContextElem::Built { drv: drv_b, output: output_b }) => {
                let s0 = drv_a.same(drv_b);
                let s1 = output_a.same(output_b);
                s0 && s1
            },
            _ => false,
        }
    }
}

impl ContextElemV {
    /// An element as one text: `path`, `=path` or `!output!drv`.
    pub open spec fn shown(self) -> Seq<char> {
        match self {
            ContextElemV::Opaque(path) => path,
            ContextElemV::DrvDeep(path) => "="@ + path,
            ContextElemV::Built { drv, output } => "!"@ + output + "!"@ + drv,
        }
    }

    /// The element that a text spells; an output name ends at the first `!`.
    pub open spec fn read(s: Seq<char>) -> Option<ContextElemV> {
        if s.len() > 0 && s[0] == '=' {
            Some(ContextElemV::DrvDeep(s.skip(1)))
        } else if s.len() > 0 && s[0] == '!' {
            let rest = s.skip(1);
            let i = text::first(rest, '!');
            if i < rest.len() {
                Some(ContextElemV::Built { drv: rest.skip(i + 1), output: rest.take(i) })
            } else {
                None
            }
        } else {
            Some(ContextElemV::Opaque(s))
        }
    }

    /// The element's text spells this element and no other.
    pub open spec fn wf(self) -> bool {
        match self {
            ContextElemV::Opaque(path) => path.len() == 0 || (path[0] != '=' && path[0] != '!'),
            ContextElemV::DrvDeep(path) => true,
            ContextElemV::Built { drv, output } => !output.contains('!'),
        }
    }
}

/// An element is read back as it was shown.
pub proof fn elem_reads_back(e: ContextElemV)
    requires
        e.wf(),
    ensures
        ContextElemV::read(e.shown()) == Some(e),
{
    reveal_strlit("=");
    reveal_strlit("!");
    let s = e.shown();
    match e {
        ContextElemV::Opaque(path) => {},
        ContextElemV::DrvDeep(path) => {
            assert(s.skip(1) =~= path);
        },
        ContextElemV::Built { drv, output } => {
            let rest = s.skip(1);
            assert(rest =~= output + "!"@ + drv);
            assert forall|j: int| 0 <= j < output.len() implies rest[j] != '!' by {
                assert(output[j] == rest[j]);
                assert(output.contains(output[j]));
            }
            text::first_is(rest, '!', output.len() as int);
            assert(rest.take(output.len() as int) =~= output);
            assert(rest.skip(output.len() as int + 1) =~= drv);
        },
    }
}

impl ContextElem {
    pub fn display(&self) -> (r: String)
        ensures
            r@ == self@.shown(),
    {
        let mut r: String = String::new();
        match self {
            ContextElem::Opaque(path) => {
                r.append(path.as_str());
                assert(r@ =~= path@);
            },
            ContextElem::DrvDeep(path) => {
                r.append("=");
                r.append(path.as_str());
                assert(r@ =~= "="@ + path@);
            },
            ContextElem::Built { drv, output } => {
                r.append("!");
                r.append(output.as_str());
                r.append("!");
                r.append(drv.as_str());
                assert(r@ =~= "!"@ + output@ + "!"@ + drv@);
            },
        }
        r
    }

    pub fn parse(s: &str) -> (r: Option<ContextElem>)
        ensures
            r.deep_view() == ContextElemV::read(s@),
    {
        let c = text::chars(s);
        if c.len() > 0 && c[0] == '=' {
            let path = text::spell(&c, 1, c.len());
            assert(path@ =~= s@.skip(1));
            return Some(ContextElem::DrvDeep(path));
        }
        if c.len() > 0 && c[0] == '!' {
            let rest = text::chars(text::spell(&c, 1, c.len()).as_str());
            assert(rest@ =~= s@.skip(1));
            let i = text::before(&rest, '!');
            if i < rest.len() {
                let output = text::spell(&rest, 0, i);
                let drv = text::spell(&rest, i + 1, rest.len());
                assert(output@ =~= rest@.take(i as int));
                assert(drv@ =~= rest@.skip(i + 1));
                return Some(ContextElem::Built { drv, output });
            }
            return None;
        }
        Some(ContextElem::Opaque(s.to_owned()))
    }
}

} // verus!
