//! The shared evidence-and-verdict model that every analyzer emits into, and
//! the order-preserving aggregator that merges per-artifact evidence into one
//! risk verdict for the whole input.

use vstd::prelude::*;

verus! {

/// One non-ASCII character found during homoglyph analysis.
#[derive(Debug, Clone, PartialEq, Eq)]
pub struct SuspiciousChar {
    /// Byte offset into the original string (not character index).
    pub offset: usize,
    /// The Unicode scalar value itself.
    pub character: char,
    /// Canonical `U+XXXX` text, zero-padded to at least four uppercase hex digits.
    pub codepoint: String,
    /// Human-readable confusability note, or the script name followed by
    /// `character` when none is known.
    pub description: String,
    /// The character's UTF-8 encoding as lowercase two-digit hex byte pairs,
    /// space-separated.
    pub hex_bytes: String,
}

/// One self-contained finding from an analyzer. A closed set of variants so
/// that every consumer handles them exhaustively.
#[derive(Debug, Clone, PartialEq, Eq)]
pub enum Evidence {
    /// Homoglyph analysis of one string: the raw input, its ASCII/IDNA
    /// escaped form, and each non-ASCII character found, in input order.
    HomoglyphAnalysis { raw: String, escaped: String, suspicious_chars: Vec<SuspiciousChar> },
    /// An embedded NUL byte at the given offset of the raw input.
    EmbeddedNul { offset: usize },
    /// An ANSI escape introducer byte at the given offset of the raw input.
    AnsiEscape { offset: usize },
    /// Some other control byte at the given offset of the raw input.
    ControlByte { offset: usize, value: u8 },
    /// A quote opened at the given character index and never closed.
    UnterminatedQuote { offset: usize },
    /// A substitution opened and never closed anywhere in the input.
    UnterminatedSubstitution,
    /// A command substitution found while scanning pasted (not executed)
    /// text, flagged but not expanded.
    NestedSubstitution { offset: usize },
    /// Nested substitutions deeper than the rescan bound; scanning stopped
    /// there instead of recursing further.
    DepthExceeded { depth: usize },
    /// A path whose `..` segments lexically escape above the root.
    TraversalEscape { raw: String },
    /// A string that looked like a URL but was rejected by the strict parser.
    MalformedUrl { raw: String },
}

/// Risk classification of one finding, or of a whole input.
#[derive(Debug, Clone, Copy, PartialEq, Eq, Structural)]
pub enum Severity {
    Info,
    Low,
    Medium,
    High,
}

/// The aggregated risk judgment over all evidence for one analyzed input.
#[derive(Debug, Clone, PartialEq, Eq)]
pub struct Verdict {
    pub severity: Severity,
    pub evidence: Vec<Evidence>,
}

/// Total order on severities, as a rank.
pub open spec fn severity_rank(s: Severity) -> int {
    match s {
        Severity::Info => 0,
        Severity::Low => 1,
        Severity::Medium => 2,
        Severity::High => 3,
    }
}

/// The severity each kind of finding carries.
pub open spec fn severity_of(e: Evidence) -> Severity {
    match e {
        Evidence::HomoglyphAnalysis { suspicious_chars, .. } => {
            if suspicious_chars@.len() == 0 {
                Severity::Info
            } else {
                Severity::High
            }
        },
        Evidence::EmbeddedNul { .. } => Severity::High,
        Evidence::AnsiEscape { .. } => Severity::Medium,
        Evidence::ControlByte { .. } => Severity::Low,
        Evidence::UnterminatedQuote { .. } => Severity::Medium,
        Evidence::UnterminatedSubstitution => Severity::Medium,
        Evidence::NestedSubstitution { .. } => Severity::Medium,
        Evidence::DepthExceeded { .. } => Severity::High,
        Evidence::TraversalEscape { .. } => Severity::High,
        Evidence::MalformedUrl { .. } => Severity::Medium,
    }
}

/// The maximum severity among the findings; `Info` when there are none.
pub open spec fn max_severity(ev: Seq<Evidence>) -> Severity
    decreases ev.len(),
{
    if ev.len() == 0 {
        Severity::Info
    } else {
        let rest = max_severity(ev.drop_last());
        if severity_rank(severity_of(ev.last())) > severity_rank(rest) {
            severity_of(ev.last())
        } else {
            rest
        }
    }
}

/// What `aggregate` promises: the verdict keeps the evidence, in order, and
/// its severity is the maximum severity among the findings.
pub open spec fn is_verdict_for(ev: Seq<Evidence>, v: Verdict) -> bool {
    &&& v.evidence@ == ev
    &&& v.severity == max_severity(ev)
}

pub fn severity_rank_of(s: Severity) -> (r: u8)
    ensures
        r as int == severity_rank(s),
{
    match s {
        Severity::Info => 0,
        Severity::Low => 1,
        Severity::Medium => 2,
        Severity::High => 3,
    }
}

fn severity_of_evidence(e: &Evidence) -> (s: Severity)
    ensures
        s == severity_of(*e),
{
    match e {
        Evidence::HomoglyphAnalysis { suspicious_chars, .. } => {
            if suspicious_chars.len() == 0 {
                Severity::Info
            } else {
                Severity::High
            }
        },
        Evidence::EmbeddedNul { .. } => Severity::High,
        Evidence::AnsiEscape { .. } => Severity::Medium,
        Evidence::ControlByte { .. } => Severity::Low,
        Evidence::UnterminatedQuote { .. } => Severity::Medium,
        Evidence::UnterminatedSubstitution => Severity::Medium,
        Evidence::NestedSubstitution { .. } => Severity::Medium,
        Evidence::DepthExceeded { .. } => Severity::High,
        Evidence::TraversalEscape { .. } => Severity::High,
        Evidence::MalformedUrl { .. } => Severity::Medium,
    }
}

/// Pure, order-preserving merge of evidence items into one verdict whose
/// overall severity is the maximum among them, never an average.
pub fn aggregate(evidence: Vec<Evidence>) -> (v: Verdict)
    ensures
        is_verdict_for(evidence@, v),
{
    let mut worst = Severity::Info;
    let mut i: usize = 0;
    while i < evidence.len()
        invariant
            i <= evidence@.len(),
            worst == max_severity(evidence@.take(i as int)),
        decreases evidence@.len() - i,
    {
        let s = severity_of_evidence(&evidence[i]);
        if severity_rank_of(s) > severity_rank_of(worst) {
            worst = s;
        }
        proof {
            assert(evidence@.take(i + 1).drop_last() =~= evidence@.take(i as int));
            assert(evidence@.take(i + 1).last() == evidence@[i as int]);
        }
        i += 1;
    }
    proof {
        assert(evidence@.take(evidence@.len() as int) =~= evidence@);
    }
    Verdict { severity: worst, evidence }
}

/// Law: aggregation is idempotent and deterministic — any two verdicts built
/// for the same evidence list, in the same order, agree on severity and carry
/// the same evidence.
pub proof fn lemma_aggregate_deterministic(ev: Seq<Evidence>, v1: Verdict, v2: Verdict)
    requires
        is_verdict_for(ev, v1),
        is_verdict_for(ev, v2),
    ensures
        v1.severity == v2.severity,
        v1.evidence@ == v2.evidence@,
{
}

} // verus!
