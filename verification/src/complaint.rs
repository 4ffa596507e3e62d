//! What the cache says when what it kept is not what it should be.
use vstd::prelude::*;
use crate::digest;
use crate::host::{StoreError, StoreErrorV};
use crate::model::Plain;
use crate::replay::{ReplayFailure, ReplayFailureV};

verus! {

/// What `format!("{:?}")` makes of a text.
pub uninterp spec fn quoted(s: Seq<char>) -> Seq<char>;

/// `format!` with `{:?}` on a text: the text in quotes, with what cannot be
/// printed escaped. Only that it depends on the text alone is claimed.
#[verifier::external_body]
pub(crate) fn quote(s: &str) -> (r: String)
    ensures
        r@ == quoted(s@),
{
    format!("{s:?}")
}

/// How bad a complaint is.
#[derive(Clone, Copy, Debug, PartialEq, Eq, Structural, PartialOrd, Ord)]
pub enum Severity {
    Warning,
    Error,
}

impl View for Severity {
    type V = Severity;

    open spec fn view(&self) -> Severity {
        *self
    }
}

impl DeepView for Severity {
    type V = Severity;

    open spec fn deep_view(&self) -> Severity {
        *self
    }
}

impl Plain for Severity {
    fn copied(&self) -> (r: Self) {
        *self
    }

    fn same(&self, other: &Self) -> (r: bool) {
        *self == *other
    }
}

/// What the cache says to whoever runs it.
#[derive(Debug, PartialEq, Eq)]
pub struct Complaint {
    pub severity: Severity,
    pub message: String,
}

/// The model of [`Complaint`].
#[verifier::ext_equal]
pub struct ComplaintV {
    pub severity: Severity,
    pub message: Seq<char>,
}

impl View for Complaint {
    type V = ComplaintV;

    open spec fn view(&self) -> ComplaintV {
        ComplaintV {
            severity: self.severity,
            message: self.message@,
        }
    }
}

impl DeepView for Complaint {
    type V = ComplaintV;

    open spec fn deep_view(&self) -> ComplaintV {
        self@
    }
}

impl Clone for Complaint {
    fn clone(&self) -> (r: Self)
        ensures
            r@ == self@,
    {
        self.copied()
    }
}

impl Plain for Complaint {
    fn copied(&self) -> (r: Self) {
        Complaint {
            severity: self.severity.copied(),
            message: self.message.copied(),
        }
    }

    fn same(&self, other: &Self) -> (r: bool) {
        let s0 = self.severity.same(&other.severity);
        let s1 = self.message.same(&other.message);
        s0 && s1
    }
}

impl ComplaintV {
    /// The complaint in words.
    pub open spec fn shown(self) -> Seq<char> {
        (match self.severity {
            Severity::Warning => "warning"@,
            Severity::Error => "error"@,
        }) + ": "@ + self.message
    }
}

/// A warning.
pub open spec fn warned(message: Seq<char>) -> ComplaintV {
    ComplaintV { severity: Severity::Warning, message }
}

impl Complaint {
    pub fn warning(message: String) -> (r: Complaint)
        ensures
            r@ == warned(message@),
    {
        Complaint { severity: Severity::Warning, message }
    }

    pub fn error(message: String) -> (r: Complaint)
        ensures
            r@ == (ComplaintV { severity: Severity::Error, message: message@ }),
    {
        Complaint { severity: Severity::Error, message }
    }

    /// The complaint in words.
    pub fn to_string(&self) -> (r: String)
        ensures
            r@ == self@.shown(),
    {
        let mut s = match self.severity {
            Severity::Warning => "warning",
            Severity::Error => "error",
        }.to_owned();
        s.append(": ");
        s.append(self.message.as_str());
        s
    }
}

/// A store's failure, as it is shown to whoever debugs.
pub open spec fn store_error_shown(e: StoreErrorV) -> Seq<char> {
    match e {
        StoreErrorV::Failed(s) => "Failed("@ + quoted(s) + ")"@,
        StoreErrorV::ImportFromDerivation(s) => "ImportFromDerivation("@ + quoted(s) + ")"@,
        StoreErrorV::Unsupported(s) => "Unsupported("@ + quoted(s) + ")"@,
        StoreErrorV::NoStore => "NoStore"@,
    }
}

fn show_store_error(e: &StoreError) -> (r: String)
    ensures
        r@ == store_error_shown(e@),
{
    let (name, said) = match e {
        StoreError::Failed(s) => ("Failed(", s),
        StoreError::ImportFromDerivation(s) => ("ImportFromDerivation(", s),
        StoreError::Unsupported(s) => ("Unsupported(", s),
        StoreError::NoStore => {
            return "NoStore".to_owned();
        },
    };
    let mut r = name.to_owned();
    r.append(quote(said.as_str()).as_str());
    r.append(")");
    r
}

/// Why a witness could not be replayed, in words.
pub open spec fn replay_failure(f: ReplayFailureV) -> Seq<char> {
    match f {
        ReplayFailureV::MissingAterm(id) => "ATerm object "@ + digest::hex(id)
            + " named by an evaluation witness is absent"@,
        ReplayFailureV::CorruptAterm(id) => "ATerm object "@ + digest::hex(id)
            + " named by an evaluation witness does not hash to its address"@,
        ReplayFailureV::InvalidAterm(id) => "ATerm object "@ + digest::hex(id)
            + " named by an evaluation witness is not UTF-8"@,
        ReplayFailureV::Cas { aterm, error } => "could not read ATerm object "@ + digest::hex(aterm)
            + " named by an evaluation witness: "@ + error,
        ReplayFailureV::DrvPathMismatch { expected, written } =>
            "replaying a derivation write produced "@ + quoted(written) + ", expected "@ + quoted(
            expected,
        ),
        ReplayFailureV::WriteDrv { drv_path, refusal } => "replaying derivation write for "@
            + quoted(drv_path) + " failed: "@ + store_error_shown(refusal),
    }
}

fn four(a: &str, b: &str, c: &str, d: &str) -> (r: String)
    ensures
        r@ == a@ + b@ + c@ + d@,
{
    let mut r = a.to_owned();
    r.append(b);
    r.append(c);
    r.append(d);
    r
}

/// Why a witness could not be replayed, in words.
pub fn show_replay_failure(f: &ReplayFailure) -> (r: String)
    ensures
        r@ == replay_failure(f@),
{
    let r = match f {
        ReplayFailure::MissingAterm(id) => four(
            "ATerm object ",
            id.hash.to_hex().as_str(),
            " named by an evaluation witness is absent",
            "",
        ),
        ReplayFailure::CorruptAterm(id) => four(
            "ATerm object ",
            id.hash.to_hex().as_str(),
            " named by an evaluation witness does not hash to its address",
            "",
        ),
        ReplayFailure::InvalidAterm(id) => four(
            "ATerm object ",
            id.hash.to_hex().as_str(),
            " named by an evaluation witness is not UTF-8",
            "",
        ),
        ReplayFailure::Cas { aterm, error } => four(
            "could not read ATerm object ",
            aterm.hash.to_hex().as_str(),
            " named by an evaluation witness: ",
            error.as_str(),
        ),
        ReplayFailure::DrvPathMismatch { expected, written } => four(
            "replaying a derivation write produced ",
            quote(written.as_str()).as_str(),
            ", expected ",
            quote(expected.as_str()).as_str(),
        ),
        ReplayFailure::WriteDrv { drv_path, refusal } => four(
            "replaying derivation write for ",
            quote(drv_path.as_str()).as_str(),
            " failed: ",
            show_store_error(refusal).as_str(),
        ),
    };
    proof {
        reveal_strlit("");
        assert(r@ =~= replay_failure(f@));
    }
    r
}

/// A complaint says how grave it is, and then what is wrong.
pub proof fn how_a_complaint_is_shown(message: Seq<char>)
    ensures
        (ComplaintV { severity: Severity::Warning, message }).shown() == "warning"@ + ": "@
            + message,
        (ComplaintV { severity: Severity::Error, message }).shown() == "error"@ + ": "@ + message,
        warned(message).severity is Warning && warned(message).message == message,
{
}

/// Why a witness could not be replayed is said with the name of the text, or
/// with the path that came and the one that was expected.
pub proof fn what_is_said_of_a_replay_that_failed(
    id: Seq<u8>,
    expected: Seq<char>,
    written: Seq<char>,
    error: Seq<char>,
)
    ensures
        replay_failure(ReplayFailureV::MissingAterm(id)) == "ATerm object "@ + digest::hex(id)
            + " named by an evaluation witness is absent"@,
        replay_failure(ReplayFailureV::CorruptAterm(id)) == "ATerm object "@ + digest::hex(id)
            + " named by an evaluation witness does not hash to its address"@,
        replay_failure(ReplayFailureV::InvalidAterm(id)) == "ATerm object "@ + digest::hex(id)
            + " named by an evaluation witness is not UTF-8"@,
        replay_failure(ReplayFailureV::Cas { aterm: id, error }) == "could not read ATerm object "@
            + digest::hex(id) + " named by an evaluation witness: "@ + error,
        replay_failure(ReplayFailureV::DrvPathMismatch { expected, written })
            == "replaying a derivation write produced "@ + quoted(written) + ", expected "@
            + quoted(expected),
{
}

} // verus!
