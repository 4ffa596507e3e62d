//! What pure and restricted evaluation let an evaluation ask.
use vstd::prelude::*;
use crate::model::Plain;
use crate::task::{NeedPath, NeedPathV};

verus! {

/// Which purity settings are on.
#[derive(Clone, Copy, Debug, PartialEq, Eq, Structural)]
pub struct Purity {
    pub pure_eval: bool,
    pub restrict_eval: bool,
}

impl Default for Purity {
    fn default() -> (r: Purity)
        ensures
            r == (Purity { pure_eval: false, restrict_eval: false }),
    {
        Purity { pure_eval: false, restrict_eval: false }
    }
}

impl Purity {
    /// The settings that are in force.
    pub fn current(pure_eval: bool, restrict_eval: bool) -> (r: Purity)
        ensures
            r.pure_eval == pure_eval,
            r.restrict_eval == restrict_eval,
    {
        Purity { pure_eval, restrict_eval }
    }

    /// A setting is on.
    pub open spec fn on(self) -> bool {
        self.pure_eval || self.restrict_eval
    }

    pub fn any(self) -> (r: bool)
        ensures
            r == self.on(),
    {
        self.pure_eval || self.restrict_eval
    }

    /// The settings that are on, in words.
    pub fn names(self) -> (r: &'static str)
        ensures
            r@ == (match (self.pure_eval, self.restrict_eval) {
                (true, true) => "pure-eval and restrict-eval"@,
                (true, false) => "pure-eval"@,
                (false, true) => "restrict-eval"@,
                (false, false) => "no purity setting"@,
            }),
    {
        match (self.pure_eval, self.restrict_eval) {
            (true, true) => "pure-eval and restrict-eval",
            (true, false) => "pure-eval",
            (false, true) => "restrict-eval",
            (false, false) => "no purity setting",
        }
    }
}

/// Who performs the plain reads.
#[derive(Clone, Copy, Debug, PartialEq, Eq, Structural)]
pub enum PathReads {
    /// The evaluator itself, which knows of no allow list.
    Direct,
    /// The embedder, whose allow list decides.
    ThroughEmbedder,
}

impl Default for PathReads {
    fn default() -> (r: PathReads)
        ensures
            r == PathReads::Direct,
    {
        PathReads::Direct
    }
}

/// What becomes of a need.
#[derive(Debug, PartialEq, Eq)]
pub enum Verdict {
    /// The host is asked.
    Ask,
    /// The answer is the empty string.
    EmptyString,
    /// The evaluation fails with this message.
    Error(String),
    /// The evaluator refuses the whole question.
    Refuse,
}

/// The model of [`Verdict`].
#[verifier::ext_equal]
pub enum VerdictV {
    Ask,
    EmptyString,
    Error(Seq<char>),
    Refuse,
}

impl View for Verdict {
    type V = VerdictV;

    open spec fn view(&self) -> VerdictV {
        match self {
            Verdict::Ask => VerdictV::Ask,
            Verdict::EmptyString => VerdictV::EmptyString,
            Verdict::Error(a) => VerdictV::Error(a@),
            Verdict::Refuse => VerdictV::Refuse,
        }
    }
}

impl DeepView for Verdict {
    type V = VerdictV;

    open spec fn deep_view(&self) -> VerdictV {
        self@
    }
}

impl Clone for Verdict {
    fn clone(&self) -> (r: Self)
        ensures
            r@ == self@,
    {
        self.copied()
    }
}

impl Plain for Verdict {
    fn copied(&self) -> (r: Self) {
        match self {
            Verdict::Ask => Verdict::Ask,
            Verdict::EmptyString => Verdict::EmptyString,
            Verdict::Error(a) => Verdict::Error(a.copied()),
            Verdict::Refuse => Verdict::Refuse,
        }
    }

    fn same(&self, other: &Self) -> (r: bool) {
        match (self, other) {
            (Verdict::Ask, Verdict::Ask) => true,
            (Verdict::EmptyString, Verdict::EmptyString) => true,
            (Verdict::Error(a), Verdict::Error(b)) => a.same(b),
            (Verdict::Refuse, Verdict::Refuse) => true,
            _ => false,
        }
    }
}

/// The need is a plain read of a path.
pub open spec fn plain_read(need: NeedPathV) -> bool {
    match need {
        NeedPathV::Import(_) => true,
        NeedPathV::Contents(_) => true,
        NeedPathV::HashFile { .. } => true,
        NeedPathV::Exists(_) => true,
        NeedPathV::DirExists(_) => true,
        NeedPathV::Entries(_) => true,
        NeedPathV::Kind(_) => true,
        NeedPathV::MaybeKind(_) => true,
        _ => false,
    }
}

/// What becomes of a need under the settings.
pub open spec fn judged(need: NeedPathV, purity: Purity, reads: PathReads) -> VerdictV {
    if !purity.on() {
        VerdictV::Ask
    } else if plain_read(need) {
        if reads == PathReads::ThroughEmbedder {
            VerdictV::Ask
        } else {
            VerdictV::Refuse
        }
    } else {
        match need {
            NeedPathV::Env(_) => VerdictV::EmptyString,
            NeedPathV::UseStorePath(_) => if purity.pure_eval {
                VerdictV::Error("'builtins.storePath' is not allowed in pure evaluation mode"@)
            } else {
                VerdictV::Ask
            },
            NeedPathV::Fetch(request) => if purity.pure_eval && request.expected_sha256 is None {
                VerdictV::Error(
                    "in pure evaluation mode, '"@ + request.kind.spec_who()
                        + "' requires a 'sha256' argument"@,
                )
            } else {
                VerdictV::Ask
            },
            _ => VerdictV::Ask,
        }
    }
}

/// What becomes of a need under the settings.
pub fn verdict(need: &NeedPath, purity: Purity, reads: PathReads) -> (r: Verdict)
    ensures
        r@ == judged(need@, purity, reads),
{
    if !purity.any() {
        return Verdict::Ask;
    }
    match need {
        NeedPath::Import(_)
        | NeedPath::Contents(_)
        | NeedPath::HashFile { .. }
        | NeedPath::Exists(_)
        | NeedPath::DirExists(_)
        | NeedPath::Entries(_)
        | NeedPath::Kind(_)
        | NeedPath::MaybeKind(_) => match reads {
            PathReads::ThroughEmbedder => Verdict::Ask,
            PathReads::Direct => Verdict::Refuse,
        },
        NeedPath::Env(_) => Verdict::EmptyString,
        NeedPath::UseStorePath(_) => if purity.pure_eval {
            Verdict::Error(
                "'builtins.storePath' is not allowed in pure evaluation mode".to_owned(),
            )
        } else {
            Verdict::Ask
        },
        NeedPath::Fetch(request) => if purity.pure_eval && request.expected_sha256.is_none() {
            let mut s: String = "in pure evaluation mode, '".to_owned();
            s.append(request.kind.who());
            s.append("' requires a 'sha256' argument");
            Verdict::Error(s)
        } else {
            Verdict::Ask
        },
        _ => Verdict::Ask,
    }
}

/// An embedder leaves nothing to refuse.
pub proof fn an_embedder_leaves_no_refusal(need: NeedPathV, purity: Purity)
    ensures
        judged(need, purity, PathReads::ThroughEmbedder) !is Refuse,
{
}

/// Without an embedder, under a purity setting, every plain read is refused
/// and nothing else is.
pub proof fn direct_reads_are_refused(need: NeedPathV, purity: Purity)
    requires
        purity.on(),
    ensures
        judged(need, purity, PathReads::Direct) is Refuse <==> plain_read(need),
{
}

/// With no purity setting, every need is asked.
pub proof fn without_purity_all_is_asked(need: NeedPathV, purity: Purity, reads: PathReads)
    requires
        !purity.on(),
    ensures
        judged(need, purity, reads) is Ask,
{
}

/// A derivation is written under every setting, and a pinned fetch is made.
pub proof fn writes_and_pinned_fetches_are_asked(need: NeedPathV, purity: Purity, reads: PathReads)
    requires
        need is WriteDrv || (need matches NeedPathV::Fetch(r) && r.expected_sha256 is Some),
    ensures
        judged(need, purity, reads) is Ask,
{
}

/// The number of kinds of need.
pub const QUESTION_KIND_COUNT: usize = 25;

/// The names of the kinds of need, each at its index.
pub const QUESTION_KINDS: [&'static str; 25] = [
    "Import",
    "Contents",
    "HashFile",
    "Exists",
    "DirExists",
    "Entries",
    "Kind",
    "MaybeKind",
    "Env",
    "StorePath",
    "UseStorePath",
    "StoreText",
    "WriteDrv",
    "StoreFiltered",
    "Fetch",
    "FetchTree",
    "Flake",
    "ParseFlakeRef",
    "FlakeRefToString",
    "EnsurePath",
    "Realise",
    "Warn",
    "Trace",
    "FindFile",
    "NixPath",
];

/// The index of the kind of a need.
pub open spec fn kind_index(need: NeedPathV) -> int {
    match need {
        NeedPathV::Import(..) => 0,
        NeedPathV::Contents(..) => 1,
        NeedPathV::HashFile { .. } => 2,
        NeedPathV::Exists(..) => 3,
        NeedPathV::DirExists(..) => 4,
        NeedPathV::Entries(..) => 5,
        NeedPathV::Kind(..) => 6,
        NeedPathV::MaybeKind(..) => 7,
        NeedPathV::Env(..) => 8,
        NeedPathV::StorePath(..) => 9,
        NeedPathV::UseStorePath(..) => 10,
        NeedPathV::StoreText { .. } => 11,
        NeedPathV::WriteDrv { .. } => 12,
        NeedPathV::StoreFiltered(..) => 13,
        NeedPathV::Fetch(..) => 14,
        NeedPathV::FetchTree(..) => 15,
        NeedPathV::Flake(..) => 16,
        NeedPathV::ParseFlakeRef(..) => 17,
        NeedPathV::FlakeRefToString(..) => 18,
        NeedPathV::EnsurePath(..) => 19,
        NeedPathV::Realise(..) => 20,
        NeedPathV::Warn(..) => 21,
        NeedPathV::Trace(..) => 22,
        NeedPathV::FindFile { .. } => 23,
        NeedPathV::NixPath => 24,
    }
}

/// The name of the kind of a need.
pub open spec fn kind_name(need: NeedPathV) -> Seq<char> {
    match need {
        NeedPathV::Import(..) => "Import"@,
        NeedPathV::Contents(..) => "Contents"@,
        NeedPathV::HashFile { .. } => "HashFile"@,
        NeedPathV::Exists(..) => "Exists"@,
        NeedPathV::DirExists(..) => "DirExists"@,
        NeedPathV::Entries(..) => "Entries"@,
        NeedPathV::Kind(..) => "Kind"@,
        NeedPathV::MaybeKind(..) => "MaybeKind"@,
        NeedPathV::Env(..) => "Env"@,
        NeedPathV::StorePath(..) => "StorePath"@,
        NeedPathV::UseStorePath(..) => "UseStorePath"@,
        NeedPathV::StoreText { .. } => "StoreText"@,
        NeedPathV::WriteDrv { .. } => "WriteDrv"@,
        NeedPathV::StoreFiltered(..) => "StoreFiltered"@,
        NeedPathV::Fetch(..) => "Fetch"@,
        NeedPathV::FetchTree(..) => "FetchTree"@,
        NeedPathV::Flake(..) => "Flake"@,
        NeedPathV::ParseFlakeRef(..) => "ParseFlakeRef"@,
        NeedPathV::FlakeRefToString(..) => "FlakeRefToString"@,
        NeedPathV::EnsurePath(..) => "EnsurePath"@,
        NeedPathV::Realise(..) => "Realise"@,
        NeedPathV::Warn(..) => "Warn"@,
        NeedPathV::Trace(..) => "Trace"@,
        NeedPathV::FindFile { .. } => "FindFile"@,
        NeedPathV::NixPath => "NixPath"@,
    }
}

/// The name of the kind of a need.
pub fn question_kind(need: &NeedPath) -> (r: &'static str)
    ensures
        r@ == kind_name(need@),
{
    match need {
        NeedPath::Import(..) => "Import",
        NeedPath::Contents(..) => "Contents",
        NeedPath::HashFile { .. } => "HashFile",
        NeedPath::Exists(..) => "Exists",
        NeedPath::DirExists(..) => "DirExists",
        NeedPath::Entries(..) => "Entries",
        NeedPath::Kind(..) => "Kind",
        NeedPath::MaybeKind(..) => "MaybeKind",
        NeedPath::Env(..) => "Env",
        NeedPath::StorePath(..) => "StorePath",
        NeedPath::UseStorePath(..) => "UseStorePath",
        NeedPath::StoreText { .. } => "StoreText",
        NeedPath::WriteDrv { .. } => "WriteDrv",
        NeedPath::StoreFiltered(..) => "StoreFiltered",
        NeedPath::Fetch(..) => "Fetch",
        NeedPath::FetchTree(..) => "FetchTree",
        NeedPath::Flake(..) => "Flake",
        NeedPath::ParseFlakeRef(..) => "ParseFlakeRef",
        NeedPath::FlakeRefToString(..) => "FlakeRefToString",
        NeedPath::EnsurePath(..) => "EnsurePath",
        NeedPath::Realise(..) => "Realise",
        NeedPath::Warn(..) => "Warn",
        NeedPath::Trace(..) => "Trace",
        NeedPath::FindFile { .. } => "FindFile",
        NeedPath::NixPath => "NixPath",
    }
}

/// The index of the kind of a need among [`QUESTION_KINDS`].
pub fn question_kind_index(need: &NeedPath) -> (r: usize)
    ensures
        r == kind_index(need@),
        r < QUESTION_KIND_COUNT,
        QUESTION_KINDS@[r as int]@ == kind_name(need@),
{
    match need {
        NeedPath::Import(..) => 0,
        NeedPath::Contents(..) => 1,
        NeedPath::HashFile { .. } => 2,
        NeedPath::Exists(..) => 3,
        NeedPath::DirExists(..) => 4,
        NeedPath::Entries(..) => 5,
        NeedPath::Kind(..) => 6,
        NeedPath::MaybeKind(..) => 7,
        NeedPath::Env(..) => 8,
        NeedPath::StorePath(..) => 9,
        NeedPath::UseStorePath(..) => 10,
        NeedPath::StoreText { .. } => 11,
        NeedPath::WriteDrv { .. } => 12,
        NeedPath::StoreFiltered(..) => 13,
        NeedPath::Fetch(..) => 14,
        NeedPath::FetchTree(..) => 15,
        NeedPath::Flake(..) => 16,
        NeedPath::ParseFlakeRef(..) => 17,
        NeedPath::FlakeRefToString(..) => 18,
        NeedPath::EnsurePath(..) => 19,
        NeedPath::Realise(..) => 20,
        NeedPath::Warn(..) => 21,
        NeedPath::Trace(..) => 22,
        NeedPath::FindFile { .. } => 23,
        NeedPath::NixPath => 24,
    }
}

/// Under a purity setting, and without an embedder, every read of a path is
/// refused, whatever is read of it.
pub proof fn every_read_of_a_path_is_refused(need: NeedPathV, purity: Purity)
    requires
        purity.restrict_eval || purity.pure_eval,
        need is Import || need is Contents || need is HashFile || need is Exists
            || need is DirExists || need is Entries || need is Kind || need is MaybeKind,
    ensures
        judged(need, purity, PathReads::Direct) == VerdictV::Refuse,
        judged(need, purity, PathReads::ThroughEmbedder) == VerdictV::Ask,
{
}

/// Under a purity setting every variable is empty, and is not asked for.
pub proof fn variables_are_empty_under_purity(name: Seq<char>, purity: Purity, reads: PathReads)
    ensures
        judged(NeedPathV::Env(name), purity, reads) == (if purity.restrict_eval
            || purity.pure_eval {
            VerdictV::EmptyString
        } else {
            VerdictV::Ask
        }),
{
}

/// A fetch is refused exactly in pure evaluation and without a pin, by the
/// name of what makes it; a store path is refused exactly in pure evaluation.
pub proof fn what_pure_evaluation_refuses(
    request: crate::task::FetchRequestV,
    path: crate::value::PathValueV,
    purity: Purity,
    reads: PathReads,
)
    ensures
        judged(NeedPathV::Fetch(request), purity, reads) == (if purity.pure_eval
            && request.expected_sha256 is None {
            VerdictV::Error(
                "in pure evaluation mode, '"@ + (match request.kind {
                    crate::task::FetchKind::File => "fetchurl"@,
                    crate::task::FetchKind::Tarball => "fetchTarball"@,
                }) + "' requires a 'sha256' argument"@,
            )
        } else {
            VerdictV::Ask
        }),
        judged(NeedPathV::UseStorePath(path), purity, reads) == (if purity.pure_eval {
            VerdictV::Error("'builtins.storePath' is not allowed in pure evaluation mode"@)
        } else {
            VerdictV::Ask
        }),
{
}

/// All that is neither a read of a path, a variable, a store path nor a fetch
/// is asked under every setting.
pub proof fn everything_else_is_asked(need: NeedPathV, purity: Purity, reads: PathReads)
    requires
        !(need is Import || need is Contents || need is HashFile || need is Exists
            || need is DirExists || need is Entries || need is Kind || need is MaybeKind
            || need is Env || need is UseStorePath || need is Fetch),
    ensures
        judged(need, purity, reads) == VerdictV::Ask,
{
}

} // verus!
