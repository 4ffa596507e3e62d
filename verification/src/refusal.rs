//! Why the evaluator refuses, as stable tokens.
use vstd::prelude::*;
use crate::model::Plain;
use crate::text;

verus! {

/// Why an evaluation was refused.
#[derive(Debug, Clone, Copy, PartialEq, Eq, PartialOrd, Ord, Hash, Structural)]
pub enum RefusalToken {
    UnsupportedSyntax,
    UnsupportedOperator,
    EffectDomain,
    AccessControl,
    StoreUnavailable,
    SearchPath,
    DerivationStrict,
    UnreadableInput,
    UnimplementedBuiltin,
    NonUtf8Source,
    LazyPrint,
    NonUtf8Boundary,
    AddPath,
    UnorderedComparison,
    UnsupportedRender,
    UnsupportedOp,
    CommandWriteTo,
    CommandXmlOutput,
    CommandStdin,
    CommandInstallable,
    CommandOutputSelection,
    CommandFile,
    CommandUnsupported,
    CommandNotADerivation,
    CommandOutputsToInstall,
    CommandNotAnApp,
    /// A refusal that nothing classified.
    Unrecorded,
}

/// Who raises a refusal.
#[derive(Debug, Clone, Copy, PartialEq, Eq, Structural)]
pub enum RaisedBy {
    Evaluator,
    CommandLayer,
    Either,
    Sentinel,
}

impl View for RefusalToken {
    type V = RefusalToken;

    open spec fn view(&self) -> RefusalToken {
        *self
    }
}

impl DeepView for RefusalToken {
    type V = RefusalToken;

    open spec fn deep_view(&self) -> RefusalToken {
        *self
    }
}

impl Plain for RefusalToken {
    fn copied(&self) -> (r: Self) {
        *self
    }

    fn same(&self, other: &Self) -> (r: bool) {
        *self == *other
    }
}

impl RefusalToken {
    /// The name of the token.
    pub open spec fn name(self) -> Seq<char> {
        match self {
            RefusalToken::UnsupportedSyntax => "unsupported-syntax"@,
            RefusalToken::UnsupportedOperator => "unsupported-operator"@,
            RefusalToken::EffectDomain => "effect-domain"@,
            RefusalToken::AccessControl => "access-control"@,
            RefusalToken::StoreUnavailable => "store-unavailable"@,
            RefusalToken::SearchPath => "search-path"@,
            RefusalToken::DerivationStrict => "derivation-strict"@,
            RefusalToken::UnreadableInput => "unreadable-input"@,
            RefusalToken::UnimplementedBuiltin => "unimplemented-builtin"@,
            RefusalToken::NonUtf8Source => "non-utf8-source"@,
            RefusalToken::LazyPrint => "lazy-print"@,
            RefusalToken::NonUtf8Boundary => "non-utf8-boundary"@,
            RefusalToken::AddPath => "add-path"@,
            RefusalToken::UnorderedComparison => "unordered-comparison"@,
            RefusalToken::UnsupportedRender => "unsupported-render"@,
            RefusalToken::UnsupportedOp => "unsupported-op"@,
            RefusalToken::CommandWriteTo => "command-write-to"@,
            RefusalToken::CommandXmlOutput => "command-xml-output"@,
            RefusalToken::CommandStdin => "command-stdin"@,
            RefusalToken::CommandInstallable => "command-installable"@,
            RefusalToken::CommandOutputSelection => "command-output-selection"@,
            RefusalToken::CommandFile => "command-file"@,
            RefusalToken::CommandUnsupported => "command-unsupported"@,
            RefusalToken::CommandNotADerivation => "command-not-a-derivation"@,
            RefusalToken::CommandOutputsToInstall => "command-outputs-to-install"@,
            RefusalToken::CommandNotAnApp => "command-not-an-app"@,
            RefusalToken::Unrecorded => "unrecorded"@,
        }
    }

    /// The place of the token in the list of all.
    pub open spec fn index(self) -> int {
        match self {
            RefusalToken::UnsupportedSyntax => 0,
            RefusalToken::UnsupportedOperator => 1,
            RefusalToken::EffectDomain => 2,
            RefusalToken::AccessControl => 3,
            RefusalToken::StoreUnavailable => 4,
            RefusalToken::SearchPath => 5,
            RefusalToken::DerivationStrict => 6,
            RefusalToken::UnreadableInput => 7,
            RefusalToken::UnimplementedBuiltin => 8,
            RefusalToken::NonUtf8Source => 9,
            RefusalToken::LazyPrint => 10,
            RefusalToken::NonUtf8Boundary => 11,
            RefusalToken::AddPath => 12,
            RefusalToken::UnorderedComparison => 13,
            RefusalToken::UnsupportedRender => 14,
            RefusalToken::UnsupportedOp => 15,
            RefusalToken::CommandWriteTo => 16,
            RefusalToken::CommandXmlOutput => 17,
            RefusalToken::CommandStdin => 18,
            RefusalToken::CommandInstallable => 19,
            RefusalToken::CommandOutputSelection => 20,
            RefusalToken::CommandFile => 21,
            RefusalToken::CommandUnsupported => 22,
            RefusalToken::CommandNotADerivation => 23,
            RefusalToken::CommandOutputsToInstall => 24,
            RefusalToken::CommandNotAnApp => 25,
            RefusalToken::Unrecorded => 26,
        }
    }

    /// The token of that name.
    pub open spec fn named(name: Seq<char>) -> Option<RefusalToken> {
        if exists|t: RefusalToken| #[trigger] t.name() == name {
            Some(choose|t: RefusalToken| #[trigger] t.name() == name)
        } else {
            None
        }
    }

    /// The token is one of invocation.
    pub open spec fn of_command(self) -> bool {
        match self {
            RefusalToken::CommandWriteTo => true,
            RefusalToken::CommandXmlOutput => true,
            RefusalToken::CommandStdin => true,
            RefusalToken::CommandInstallable => true,
            RefusalToken::CommandOutputSelection => true,
            RefusalToken::CommandFile => true,
            RefusalToken::CommandUnsupported => true,
            RefusalToken::CommandNotADerivation => true,
            RefusalToken::CommandOutputsToInstall => true,
            RefusalToken::CommandNotAnApp => true,
            _ => false,
        }
    }

    pub fn as_str(self) -> (r: &'static str)
        ensures
            r@ == self.name(),
    {
        match self {
            RefusalToken::UnsupportedSyntax => "unsupported-syntax",
            RefusalToken::UnsupportedOperator => "unsupported-operator",
            RefusalToken::EffectDomain => "effect-domain",
            RefusalToken::AccessControl => "access-control",
            RefusalToken::StoreUnavailable => "store-unavailable",
            RefusalToken::SearchPath => "search-path",
            RefusalToken::DerivationStrict => "derivation-strict",
            RefusalToken::UnreadableInput => "unreadable-input",
            RefusalToken::UnimplementedBuiltin => "unimplemented-builtin",
            RefusalToken::NonUtf8Source => "non-utf8-source",
            RefusalToken::LazyPrint => "lazy-print",
            RefusalToken::NonUtf8Boundary => "non-utf8-boundary",
            RefusalToken::AddPath => "add-path",
            RefusalToken::UnorderedComparison => "unordered-comparison",
            RefusalToken::UnsupportedRender => "unsupported-render",
            RefusalToken::UnsupportedOp => "unsupported-op",
            RefusalToken::CommandWriteTo => "command-write-to",
            RefusalToken::CommandXmlOutput => "command-xml-output",
            RefusalToken::CommandStdin => "command-stdin",
            RefusalToken::CommandInstallable => "command-installable",
            RefusalToken::CommandOutputSelection => "command-output-selection",
            RefusalToken::CommandFile => "command-file",
            RefusalToken::CommandUnsupported => "command-unsupported",
            RefusalToken::CommandNotADerivation => "command-not-a-derivation",
            RefusalToken::CommandOutputsToInstall => "command-outputs-to-install",
            RefusalToken::CommandNotAnApp => "command-not-an-app",
            RefusalToken::Unrecorded => "unrecorded",
        }
    }

    /// Every token, once.
    pub fn all() -> (r: Vec<RefusalToken>)
        ensures
            r@.len() == 27,
            forall|t: RefusalToken| r@[#[trigger] t.index()] == t,
    {
        let mut r: Vec<RefusalToken> = Vec::new();
        r.push(RefusalToken::UnsupportedSyntax);
        r.push(RefusalToken::UnsupportedOperator);
        r.push(RefusalToken::EffectDomain);
        r.push(RefusalToken::AccessControl);
        r.push(RefusalToken::StoreUnavailable);
        r.push(RefusalToken::SearchPath);
        r.push(RefusalToken::DerivationStrict);
        r.push(RefusalToken::UnreadableInput);
        r.push(RefusalToken::UnimplementedBuiltin);
        r.push(RefusalToken::NonUtf8Source);
        r.push(RefusalToken::LazyPrint);
        r.push(RefusalToken::NonUtf8Boundary);
        r.push(RefusalToken::AddPath);
        r.push(RefusalToken::UnorderedComparison);
        r.push(RefusalToken::UnsupportedRender);
        r.push(RefusalToken::UnsupportedOp);
        r.push(RefusalToken::CommandWriteTo);
        r.push(RefusalToken::CommandXmlOutput);
        r.push(RefusalToken::CommandStdin);
        r.push(RefusalToken::CommandInstallable);
        r.push(RefusalToken::CommandOutputSelection);
        r.push(RefusalToken::CommandFile);
        r.push(RefusalToken::CommandUnsupported);
        r.push(RefusalToken::CommandNotADerivation);
        r.push(RefusalToken::CommandOutputsToInstall);
        r.push(RefusalToken::CommandNotAnApp);
        r.push(RefusalToken::Unrecorded);
        r
    }

    pub fn raised_by(self) -> (r: RaisedBy)
        ensures
            r == (if self.of_command() {
                RaisedBy::CommandLayer
            } else if self == RefusalToken::Unrecorded {
                RaisedBy::Sentinel
            } else {
                RaisedBy::Evaluator
            }),
    {
        match self {
            RefusalToken::CommandWriteTo => RaisedBy::CommandLayer,
            RefusalToken::CommandXmlOutput => RaisedBy::CommandLayer,
            RefusalToken::CommandStdin => RaisedBy::CommandLayer,
            RefusalToken::CommandInstallable => RaisedBy::CommandLayer,
            RefusalToken::CommandOutputSelection => RaisedBy::CommandLayer,
            RefusalToken::CommandFile => RaisedBy::CommandLayer,
            RefusalToken::CommandUnsupported => RaisedBy::CommandLayer,
            RefusalToken::CommandNotADerivation => RaisedBy::CommandLayer,
            RefusalToken::CommandOutputsToInstall => RaisedBy::CommandLayer,
            RefusalToken::CommandNotAnApp => RaisedBy::CommandLayer,
            RefusalToken::Unrecorded => RaisedBy::Sentinel,
            _ => RaisedBy::Evaluator,
        }
    }

    pub fn parse(name: &str) -> (r: Option<RefusalToken>)
        ensures
            r == RefusalToken::named(name@),
    {
        let all = RefusalToken::all();
        let mut i: usize = 0;
        while i < all.len()
            invariant
                i <= all.len() == 27,
                forall|t: RefusalToken| all@[#[trigger] t.index()] == t,
                forall|j: int| 0 <= j < i ==> (#[trigger] all@[j]).name() != name@,
            decreases all.len() - i,
        {
            if text::same(all[i].as_str(), name) {
                proof {
                    let t = all@[i as int];
                    assert(t.name() == name@);
                    named_is(t);
                }
                return Some(all[i]);
            }
            i += 1;
        }
        assert forall|t: RefusalToken| #[trigger] t.name() != name@ by {
            assert(all@[t.index()] == t);
            assert(all@[t.index()].name() != name@);
        }
        None
    }
}

/// No two tokens share a name.
pub proof fn names_are_distinct(a: RefusalToken, b: RefusalToken)
    requires
        a.name() == b.name(),
    ensures
        a == b,
{
    reveal_strlit("unsupported-syntax");
    reveal_strlit("unsupported-operator");
    reveal_strlit("effect-domain");
    reveal_strlit("access-control");
    reveal_strlit("store-unavailable");
    reveal_strlit("search-path");
    reveal_strlit("derivation-strict");
    reveal_strlit("unreadable-input");
    reveal_strlit("unimplemented-builtin");
    reveal_strlit("non-utf8-source");
    reveal_strlit("lazy-print");
    reveal_strlit("non-utf8-boundary");
    reveal_strlit("add-path");
    reveal_strlit("unordered-comparison");
    reveal_strlit("unsupported-render");
    reveal_strlit("unsupported-op");
    reveal_strlit("command-write-to");
    reveal_strlit("command-xml-output");
    reveal_strlit("command-stdin");
    reveal_strlit("command-installable");
    reveal_strlit("command-output-selection");
    reveal_strlit("command-file");
    reveal_strlit("command-unsupported");
    reveal_strlit("command-not-a-derivation");
    reveal_strlit("command-outputs-to-install");
    reveal_strlit("command-not-an-app");
    reveal_strlit("unrecorded");
    assert("unsupported-syntax"@.len() == 18);
    assert("unsupported-operator"@.len() == 20);
    assert("effect-domain"@.len() == 13);
    assert("access-control"@.len() == 14);
    assert("store-unavailable"@.len() == 17);
    assert("search-path"@.len() == 11);
    assert("derivation-strict"@.len() == 17);
    assert("unreadable-input"@.len() == 16);
    assert("unimplemented-builtin"@.len() == 21);
    assert("non-utf8-source"@.len() == 15);
    assert("lazy-print"@.len() == 10);
    assert("non-utf8-boundary"@.len() == 17);
    assert("add-path"@.len() == 8);
    assert("unordered-comparison"@.len() == 20);
    assert("unsupported-render"@.len() == 18);
    assert("unsupported-op"@.len() == 14);
    assert("command-write-to"@.len() == 16);
    assert("command-xml-output"@.len() == 18);
    assert("command-stdin"@.len() == 13);
    assert("command-installable"@.len() == 19);
    assert("command-output-selection"@.len() == 24);
    assert("command-file"@.len() == 12);
    assert("command-unsupported"@.len() == 19);
    assert("command-not-a-derivation"@.len() == 24);
    assert("command-outputs-to-install"@.len() == 26);
    assert("command-not-an-app"@.len() == 18);
    assert("unrecorded"@.len() == 10);
    assert("store-unavailable"@[0] != "derivation-strict"@[0]);
    assert("store-unavailable"@[0] != "non-utf8-boundary"@[0]);
    assert("derivation-strict"@[0] != "non-utf8-boundary"@[0]);
    assert("unsupported-operator"@[2] != "unordered-comparison"@[2]);
    assert("unsupported-syntax"@[12] != "unsupported-render"@[12]);
    assert("access-control"@[0] != "unsupported-op"@[0]);
    assert("unreadable-input"@[0] != "command-write-to"@[0]);
    assert("unsupported-syntax"@[0] != "command-xml-output"@[0]);
    assert("unsupported-render"@[0] != "command-xml-output"@[0]);
    assert("effect-domain"@[0] != "command-stdin"@[0]);
    assert("command-installable"@[8] != "command-unsupported"@[8]);
    assert("command-output-selection"@[8] != "command-not-a-derivation"@[8]);
    assert("unsupported-syntax"@[0] != "command-not-an-app"@[0]);
    assert("unsupported-render"@[0] != "command-not-an-app"@[0]);
    assert("command-xml-output"@[8] != "command-not-an-app"@[8]);
    assert("lazy-print"@[0] != "unrecorded"@[0]);
}

/// A token is read back from its name.
pub proof fn named_is(t: RefusalToken)
    ensures
        RefusalToken::named(t.name()) == Some(t),
{
    let u = choose|u: RefusalToken| #[trigger] u.name() == t.name();
    names_are_distinct(u, t);
}

/// A character that needs no quoting as part of a key.
pub open spec fn bare(c: char) -> bool {
    ('a' <= c <= 'z') || c == '-' || ('0' <= c <= '9')
}

/// A name can stand as a bare key: it is not empty, and lower-case letters,
/// digits and hyphens alone.
pub proof fn names_are_bare(t: RefusalToken)
    ensures
        t.name().len() > 0,
        forall|i: int| 0 <= i < t.name().len() ==> bare(#[trigger] t.name()[i]),
{
    reveal_strlit("unsupported-syntax");
    reveal_strlit("unsupported-operator");
    reveal_strlit("effect-domain");
    reveal_strlit("access-control");
    reveal_strlit("store-unavailable");
    reveal_strlit("search-path");
    reveal_strlit("derivation-strict");
    reveal_strlit("unreadable-input");
    reveal_strlit("unimplemented-builtin");
    reveal_strlit("non-utf8-source");
    reveal_strlit("lazy-print");
    reveal_strlit("non-utf8-boundary");
    reveal_strlit("add-path");
    reveal_strlit("unordered-comparison");
    reveal_strlit("unsupported-render");
    reveal_strlit("unsupported-op");
    reveal_strlit("command-write-to");
    reveal_strlit("command-xml-output");
    reveal_strlit("command-stdin");
    reveal_strlit("command-installable");
    reveal_strlit("command-output-selection");
    reveal_strlit("command-file");
    reveal_strlit("command-unsupported");
    reveal_strlit("command-not-a-derivation");
    reveal_strlit("command-outputs-to-install");
    reveal_strlit("command-not-an-app");
    reveal_strlit("unrecorded");
    let s = t.name();
    assert forall|i: int| 0 <= i < s.len() implies bare(#[trigger] s[i]) by {
    }
}

/// A refusal: its token, and what the user is told.
#[derive(Debug, PartialEq, Eq)]
pub struct Refusal {
    pub token: RefusalToken,
    pub detail: String,
}

impl Refusal {
    pub fn new(token: RefusalToken, detail: &str) -> (r: Refusal)
        ensures
            r.token == token,
            r.detail@ == detail@,
    {
        Refusal { token, detail: detail.to_owned() }
    }

    /// What the user is told, and nothing else.
    pub fn to_string(&self) -> (r: String)
        ensures
            r@ == self.detail@,
    {
        self.detail.clone()
    }
}

/// The tokens of invocation are those whose names begin with `command-`.
pub proof fn which_tokens_are_of_invocation(t: RefusalToken)
    ensures
        t.of_command() ==> text::begins(t.name(), "command-"@),
{
    reveal_strlit("command-");
    reveal_strlit("command-write-to");
    reveal_strlit("command-xml-output");
    reveal_strlit("command-stdin");
    reveal_strlit("command-installable");
    reveal_strlit("command-output-selection");
    reveal_strlit("command-file");
    reveal_strlit("command-unsupported");
    reveal_strlit("command-not-a-derivation");
    reveal_strlit("command-outputs-to-install");
    reveal_strlit("command-not-an-app");
    if t.of_command() {
        assert(t.name().take(8) =~= "command-"@);
    }
}

} // verus!
