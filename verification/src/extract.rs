//! Tiered artifact extraction. The tier-0 pass is binary safe: it reports
//! control and escape bytes before any text decoding is trusted. The tier-1
//! pass tokenizes the text shell-aware, pulls candidate artifacts (URLs,
//! path-like strings, non-ASCII words) out of the tokens, and routes each to
//! the URL parser, the path normalizer, or the homoglyph analyzer. Under the
//! `Exec` context each command substitution body is re-tokenized and
//! re-scanned recursively, with an explicit depth counter bounding the
//! recursion against adversarially nested input; under `Paste` a substitution
//! is flagged but not expanded.

use vstd::prelude::*;

verus! {

use vstd::string::StrSliceExecFns;
use crate::verdict::Evidence;
use crate::homoglyph::analyze_hostname;
use crate::homoglyph::analysis_matches;
use crate::normalize::normalize_path;
use crate::normalize::normalize_spec;
use crate::parse::parse_url;
use crate::parse::parse_url_spec;
use crate::tokenize::tokenize;
use crate::tokenize::spec_tokenize;
use crate::tokenize::ShellType;
use crate::tokenize::Token;
use crate::tokenize::TokenKind;
use crate::tokenize::tokens_wf;
use crate::tokenize::lemma_tokenize_wf;
use vstd::utf8::is_ascii_chars;
use crate::text::first_from;
use crate::text::lemma_first_from_found;
use crate::text::lemma_first_from_none;

/// Policy selector: text about to be executed is scanned more aggressively
/// than text merely pasted or displayed.
#[derive(Debug, Clone, Copy, PartialEq, Eq, Structural)]
pub enum ScanContext {
    Exec,
    Paste,
}

/// How many times a nested command substitution is re-scanned before the
/// scanner stops and reports a depth-exceeded finding instead.
pub const MAX_RESCAN_DEPTH: usize = 8;

/// A NUL byte.
pub open spec fn nul_pred() -> spec_fn(u8) -> bool {
    |b: u8| b == 0
}

/// The ANSI escape introducer.
pub open spec fn ansi_pred() -> spec_fn(u8) -> bool {
    |b: u8| b == 0x1B
}

/// A control byte other than NUL, the escape introducer, and the usual text
/// whitespace (tab, newline, carriage return); DEL included.
pub open spec fn is_other_control(b: u8) -> bool {
    (b < 0x20 && b != 0x09 && b != 0x0A && b != 0x0D && b != 0x00 && b != 0x1B) || b == 0x7F
}

pub open spec fn ctl_pred() -> spec_fn(u8) -> bool {
    |b: u8| is_other_control(b)
}

/// The tier-0 findings of a byte string: the first embedded NUL, the first
/// ANSI escape introducer, and the first other control byte, each reported
/// with its offset when present, in that order.
pub open spec fn scan_bytes_spec(data: Seq<u8>) -> Seq<Evidence> {
    let nul = match first_from(data, nul_pred(), 0) {
        Some(i) => seq![Evidence::EmbeddedNul { offset: i as usize }],
        None => Seq::empty(),
    };
    let ansi = match first_from(data, ansi_pred(), 0) {
        Some(i) => seq![Evidence::AnsiEscape { offset: i as usize }],
        None => Seq::empty(),
    };
    let ctl = match first_from(data, ctl_pred(), 0) {
        Some(i) => seq![Evidence::ControlByte { offset: i as usize, value: data[i] }],
        None => Seq::empty(),
    };
    nul + ansi + ctl
}

/// Binary-safe tier-0 pass over raw bytes: reports embedded NUL, ANSI escape
/// introducers, and other control bytes, before any text decoding is trusted.
/// Deliberately, only the first occurrence of each anomaly class is reported
/// — one finding per class decides the verdict, and offsets of later
/// occurrences add nothing — and UTF-8 validity is not checked here: the
/// text tier only ever receives already-decoded text.
pub fn scan_bytes(data: &[u8]) -> (r: Vec<Evidence>)
    ensures
        r@ == scan_bytes_spec(data@),
{
    let n = data.len();
    let mut nul: Option<usize> = None;
    let mut ansi: Option<usize> = None;
    let mut ctl: Option<usize> = None;
    let mut ctl_val: u8 = 0;
    let mut i: usize = 0;
    while i < n
        invariant
            n == data@.len(),
            i <= n,
            nul matches Some(k) ==> k < i && nul_pred()(data@[k as int]) && forall|j: int|
                0 <= j < k ==> !#[trigger] nul_pred()(data@[j]),
            nul is None ==> forall|j: int| 0 <= j < i ==> !#[trigger] nul_pred()(data@[j]),
            ansi matches Some(k) ==> k < i && ansi_pred()(data@[k as int]) && forall|j: int|
                0 <= j < k ==> !#[trigger] ansi_pred()(data@[j]),
            ansi is None ==> forall|j: int| 0 <= j < i ==> !#[trigger] ansi_pred()(data@[j]),
            ctl matches Some(k) ==> k < i && ctl_pred()(data@[k as int]) && ctl_val == data@[k as int]
                && forall|j: int| 0 <= j < k ==> !#[trigger] ctl_pred()(data@[j]),
            ctl is None ==> forall|j: int| 0 <= j < i ==> !#[trigger] ctl_pred()(data@[j]),
        decreases n - i,
    {
        let b = data[i];
        if nul.is_none() && b == 0 {
            nul = Some(i);
        }
        if ansi.is_none() && b == 0x1B {
            ansi = Some(i);
        }
        if ctl.is_none() && ((b < 0x20 && b != 0x09 && b != 0x0A && b != 0x0D && b != 0x00 && b
            != 0x1B) || b == 0x7F) {
            ctl = Some(i);
            ctl_val = b;
        }
        proof {
            assert(nul_pred()(data@[i as int]) == (data@[i as int] == 0));
            assert(ansi_pred()(data@[i as int]) == (data@[i as int] == 0x1B));
            assert(ctl_pred()(data@[i as int]) == is_other_control(data@[i as int]));
        }
        i += 1;
    }
    let mut r: Vec<Evidence> = Vec::new();
    proof {
        if nul is Some {
            lemma_first_from_found(data@, nul_pred(), 0, nul->Some_0 as int);
        } else {
            lemma_first_from_none(data@, nul_pred(), 0);
        }
        if ansi is Some {
            lemma_first_from_found(data@, ansi_pred(), 0, ansi->Some_0 as int);
        } else {
            lemma_first_from_none(data@, ansi_pred(), 0);
        }
        if ctl is Some {
            lemma_first_from_found(data@, ctl_pred(), 0, ctl->Some_0 as int);
        } else {
            lemma_first_from_none(data@, ctl_pred(), 0);
        }
    }
    if let Some(k) = nul {
        r.push(Evidence::EmbeddedNul { offset: k });
    }
    if let Some(k) = ansi {
        r.push(Evidence::AnsiEscape { offset: k });
    }
    if let Some(k) = ctl {
        r.push(Evidence::ControlByte { offset: k, value: ctl_val });
    }
    proof {
        assert(r@ =~= scan_bytes_spec(data@));
    }
    r
}

/// Internal consistency of one finding: a homoglyph finding satisfies the
/// analyzer's full contract for its own raw string; other findings carry
/// plain positions.
pub open spec fn evidence_wf(e: Evidence) -> bool {
    match e {
        Evidence::HomoglyphAnalysis { .. } => analysis_matches(homoglyph_raw(e), e),
        _ => true,
    }
}

/// The raw string a homoglyph finding is about.
pub open spec fn homoglyph_raw(e: Evidence) -> Seq<char> {
    match e {
        Evidence::HomoglyphAnalysis { raw, .. } => raw@,
        _ => Seq::empty(),
    }
}

/// True when some token is a substitution opener.
pub open spec fn has_subst_open(ts: Seq<Token>) -> bool {
    exists|k: int| 0 <= k < ts.len() && (#[trigger] ts[k]).kind is SubstOpen
}

/// True when some finding is a depth-exceeded marker.
pub open spec fn has_depth_exceeded(ev: Seq<Evidence>) -> bool {
    exists|k: int| 0 <= k < ev.len() && (#[trigger] ev[k]) is DepthExceeded
}

/// True when the word contains `://` (it is URL-like).
pub open spec fn has_scheme_sep_spec(w: Seq<char>) -> bool {
    exists|i: int|
        0 <= i && i + 2 < w.len() && (#[trigger] w[i]) == ':' && w[i + 1] == '/' && w[i + 2] == '/'
}

/// True when the word contains a slash (it is path-like).
pub open spec fn has_slash(w: Seq<char>) -> bool {
    exists|i: int| 0 <= i < w.len() && (#[trigger] w[i]) == '/'
}

/// True when an unterminated-substitution finding is present.
pub open spec fn contains_unterminated_subst(ev: Seq<Evidence>) -> bool {
    exists|j: int| 0 <= j < ev.len() && (#[trigger] ev[j]) is UnterminatedSubstitution
}

/// True when an unterminated-quote finding with this offset is present.
pub open spec fn contains_unterminated_quote(ev: Seq<Evidence>, offset: usize) -> bool {
    exists|j: int| 0 <= j < ev.len() && (#[trigger] ev[j]) == (Evidence::UnterminatedQuote { offset })
}

/// True when a nested-substitution flag with this offset is present.
pub open spec fn contains_nested_subst(ev: Seq<Evidence>, offset: usize) -> bool {
    exists|j: int| 0 <= j < ev.len() && (#[trigger] ev[j]) == (Evidence::NestedSubstitution { offset })
}

/// True when a malformed-URL finding carrying this word is present.
pub open spec fn contains_malformed(ev: Seq<Evidence>, w: Seq<char>) -> bool {
    exists|j: int|
        0 <= j < ev.len() && ((#[trigger] ev[j]) matches Evidence::MalformedUrl { raw } && raw@
            == w)
}

/// True when a traversal-escape finding carrying this word is present.
pub open spec fn contains_traversal(ev: Seq<Evidence>, w: Seq<char>) -> bool {
    exists|j: int|
        0 <= j < ev.len() && ((#[trigger] ev[j]) matches Evidence::TraversalEscape { raw } && raw@
            == w)
}

/// True when a homoglyph analysis of this string, meeting the analyzer's full
/// contract, is present.
pub open spec fn contains_analysis_of(ev: Seq<Evidence>, s: Seq<char>) -> bool {
    exists|j: int| 0 <= j < ev.len() && analysis_matches(s, #[trigger] ev[j])
}

/// The findings owed for one word artifact: a URL-like word is parsed and, on
/// success, its host is analyzed for homoglyphs, where rejected it is
/// reported malformed; otherwise a path-like word whose lexical normalization
/// escapes the root is reported, and a word with non-ASCII characters is
/// analyzed for homoglyphs.
pub open spec fn word_finding_ok(w: Seq<char>, ev: Seq<Evidence>) -> bool {
    if has_scheme_sep_spec(w) {
        match parse_url_spec(w) {
            Ok(m) => contains_analysis_of(ev, m.host),
            Err(_) => contains_malformed(ev, w),
        }
    } else {
        &&& (has_slash(w) && normalize_spec(w) is None ==> contains_traversal(ev, w))
        &&& (!is_ascii_chars(w) ==> contains_analysis_of(ev, w))
    }
}

/// The finding owed for one token of the input.
pub open spec fn token_finding_ok(s: Seq<char>, t: Token, context: ScanContext, ev: Seq<
    Evidence,
>) -> bool {
    &&& (t.kind is Word ==> word_finding_ok(s.subrange(t.start as int, t.end as int), ev))
    &&& (t.kind is UnterminatedQuote ==> contains_unterminated_quote(ev, t.start))
    &&& (t.kind is SubstOpen && context is Paste ==> contains_nested_subst(ev, t.start))
}

/// A finding already owed stays present when the evidence list only grows at
/// the end.
proof fn lemma_finding_monotone(
    s: Seq<char>,
    t: Token,
    context: ScanContext,
    ev1: Seq<Evidence>,
    ev2: Seq<Evidence>,
)
    requires
        ev1.len() <= ev2.len(),
        forall|j: int| 0 <= j < ev1.len() ==> #[trigger] ev2[j] == ev1[j],
        token_finding_ok(s, t, context, ev1),
    ensures
        token_finding_ok(s, t, context, ev2),
{
    let w = s.subrange(t.start as int, t.end as int);
    if t.kind is Word {
        if has_scheme_sep_spec(w) {
            match parse_url_spec(w) {
                Ok(m) => {
                    let j = choose|j: int|
                        0 <= j < ev1.len() && analysis_matches(m.host, #[trigger] ev1[j]);
                    assert(analysis_matches(m.host, ev2[j]));
                },
                Err(_) => {
                    let j = choose|j: int|
                        0 <= j < ev1.len() && ((#[trigger] ev1[j])
                            matches Evidence::MalformedUrl { raw } && raw@ == w);
                    assert(ev2[j] == ev1[j]);
                    assert(contains_malformed(ev2, w));
                },
            }
        } else {
            if has_slash(w) && normalize_spec(w) is None {
                let j = choose|j: int|
                    0 <= j < ev1.len() && ((#[trigger] ev1[j])
                        matches Evidence::TraversalEscape { raw } && raw@ == w);
                assert(ev2[j] == ev1[j]);
                assert(contains_traversal(ev2, w));
            }
            if !is_ascii_chars(w) {
                let j = choose|j: int|
                    0 <= j < ev1.len() && analysis_matches(w, #[trigger] ev1[j]);
                assert(analysis_matches(w, ev2[j]));
            }
        }
    }
    if t.kind is UnterminatedQuote {
        let j = choose|j: int|
            0 <= j < ev1.len() && (#[trigger] ev1[j]) == (Evidence::UnterminatedQuote {
                offset: t.start,
            });
        assert(ev2[j] == (Evidence::UnterminatedQuote { offset: t.start }));
    }
    if t.kind is SubstOpen && context is Paste {
        let j = choose|j: int|
            0 <= j < ev1.len() && (#[trigger] ev1[j]) == (Evidence::NestedSubstitution {
                offset: t.start,
            });
        assert(ev2[j] == (Evidence::NestedSubstitution { offset: t.start }));
    }
}

/// True when the word contains `://`.
fn has_scheme_sep(w: &str) -> (r: bool)
    ensures
        r == has_scheme_sep_spec(w@),
{
    let n = w.unicode_len();
    if n < 3 {
        return false;
    }
    let mut i: usize = 0;
    while i < n - 2
        invariant
            n == w@.len(),
            3 <= n,
            i <= n - 2,
            forall|j: int|
                0 <= j < i ==> !((#[trigger] w@[j]) == ':' && w@[j + 1] == '/' && w@[j + 2] == '/'),
        decreases n - i,
    {
        if w.get_char(i) == ':' && w.get_char(i + 1) == '/' && w.get_char(i + 2) == '/' {
            proof {
                assert(has_scheme_sep_spec(w@)) by {
                    assert((w@[i as int]) == ':' && w@[i + 1] == '/' && w@[i + 2] == '/');
                }
            }
            return true;
        }
        i += 1;
    }
    false
}

/// True when the word contains a `/`.
fn contains_slash(w: &str) -> (r: bool)
    ensures
        r == has_slash(w@),
{
    let n = w.unicode_len();
    let mut i: usize = 0;
    while i < n
        invariant
            n == w@.len(),
            i <= n,
            forall|j: int| 0 <= j < i ==> (#[trigger] w@[j]) != '/',
        decreases n - i,
    {
        if w.get_char(i) == '/' {
            proof {
                assert(has_slash(w@)) by {
                    assert(w@[i as int] == '/');
                }
            }
            return true;
        }
        i += 1;
    }
    false
}

/// The index of the substitution closer matching an opener just before
/// `from`, by counting openers and closers.
fn find_matching_close(tokens: &Vec<Token>, from: usize) -> (r: Option<usize>)
    ensures
        r matches Some(j) ==> from <= j < tokens@.len(),
{
    let mut level: usize = 1;
    let mut j: usize = from;
    while j < tokens.len()
        invariant
            from <= j,
            level >= 1,
        decreases tokens@.len() - j,
    {
        match tokens[j].kind {
            TokenKind::SubstOpen => {
                if level < usize::MAX {
                    level += 1;
                }
            },
            TokenKind::SubstClose => {
                level -= 1;
                if level == 0 {
                    return Some(j);
                }
            },
            _ => {},
        }
        j += 1;
    }
    None
}

/// One level of the tier-1 scan, with `budget` recursive re-scans left. Every
/// token owes its finding: a word is routed to the URL parser, the path
/// normalizer or the homoglyph analyzer and the resulting finding is present;
/// an unterminated quote and, under `Paste`, each substitution opener is
/// flagged; when the budget is exhausted under `Exec` and this text still
/// opens a substitution, a depth-exceeded marker is emitted instead of
/// recursing; under `Paste` nothing recurses and no depth marker appears.
pub fn scan_at(text: &str, context: ScanContext, budget: usize) -> (r: Vec<Evidence>)
    ensures
        forall|m: int| 0 <= m < r@.len() ==> evidence_wf(#[trigger] r@[m]),
        forall|k: int|
            0 <= k < spec_tokenize(text@, ShellType::Posix).tokens.len() ==> token_finding_ok(
                text@,
                #[trigger] spec_tokenize(text@, ShellType::Posix).tokens[k],
                context,
                r@,
            ),
        spec_tokenize(text@, ShellType::Posix).unterminated_subst ==> contains_unterminated_subst(
            r@,
        ),
        budget == 0 && context is Exec && has_subst_open(
            spec_tokenize(text@, ShellType::Posix).tokens,
        ) ==> has_depth_exceeded(r@),
        context is Paste ==> !has_depth_exceeded(r@),
    decreases budget,
{
    let tk = tokenize(text, ShellType::Posix);
    let n = text.unicode_len();
    let ghost ts = spec_tokenize(text@, ShellType::Posix).tokens;
    proof {
        lemma_tokenize_wf(text@, ShellType::Posix);
    }
    let mut out: Vec<Evidence> = Vec::new();
    if tk.unterminated_subst {
        out.push(Evidence::UnterminatedSubstitution);
        proof {
            assert(out@[0] is UnterminatedSubstitution);
        }
    }
    let mut lvl: usize = 0;
    let mut k: usize = 0;
    while k < tk.tokens.len()
        invariant
            tk.tokens@ == ts,
            n == text@.len(),
            tokens_wf(ts, n as int),
            k <= ts.len(),
            forall|m: int| 0 <= m < out@.len() ==> evidence_wf(#[trigger] out@[m]),
            forall|kk: int|
                0 <= kk < k ==> token_finding_ok(text@, #[trigger] ts[kk], context, out@),
            spec_tokenize(text@, ShellType::Posix).unterminated_subst
                ==> contains_unterminated_subst(out@),
            budget == 0 && context is Exec && has_subst_open(ts.take(k as int))
                ==> has_depth_exceeded(out@),
            context is Paste ==> !has_depth_exceeded(out@),
        decreases ts.len() - k,
    {
        let t = tk.tokens[k];
        let ghost out_pre = out@;
        match t.kind {
            TokenKind::Word => {
                let w = text.substring_char(t.start, t.end);
                proof {
                    assert(w@ == text@.subrange(t.start as int, t.end as int));
                }
                if has_scheme_sep(w) {
                    match parse_url(w) {
                        Ok(u) => {
                            out.push(analyze_hostname(u.host.as_str()));
                            proof {
                                assert(analysis_matches(u.host@, out@[out_pre.len() as int]));
                                assert(contains_analysis_of(out@, u.host@));
                            }
                        },
                        Err(_) => {
                            out.push(Evidence::MalformedUrl { raw: w.to_owned() });
                            proof {
                                assert((out@[out_pre.len() as int]
                                    matches Evidence::MalformedUrl { raw } && raw@ == w@));
                                assert(contains_malformed(out@, w@));
                            }
                        },
                    }
                } else {
                    if contains_slash(w) && normalize_path(w).is_err() {
                        out.push(Evidence::TraversalEscape { raw: w.to_owned() });
                        proof {
                            assert((out@[out_pre.len() as int]
                                matches Evidence::TraversalEscape { raw } && raw@ == w@));
                            assert(contains_traversal(out@, w@));
                        }
                    }
                    if !w.is_ascii() {
                        let ghost before = out@;
                        out.push(analyze_hostname(w));
                        proof {
                            assert(analysis_matches(w@, out@[before.len() as int]));
                            assert(contains_analysis_of(out@, w@));
                            if has_slash(w@) && normalize_spec(w@) is None {
                                assert(contains_traversal(before, w@));
                                let j = choose|j: int|
                                    0 <= j < before.len() && ((#[trigger] before[j])
                                        matches Evidence::TraversalEscape { raw } && raw@ == w@);
                                assert(out@[j] == before[j]);
                                assert(contains_traversal(out@, w@));
                            }
                        }
                    }
                    proof {
                        assert(word_finding_ok(w@, out@));
                    }
                }
            },
            TokenKind::UnterminatedQuote => {
                out.push(Evidence::UnterminatedQuote { offset: t.start });
                proof {
                    assert(out@[out_pre.len() as int] == (Evidence::UnterminatedQuote {
                        offset: t.start,
                    }));
                    assert(contains_unterminated_quote(out@, t.start));
                }
            },
            TokenKind::SubstOpen => {
                match context {
                    ScanContext::Paste => {
                        out.push(Evidence::NestedSubstitution { offset: t.start });
                        proof {
                            assert(out@[out_pre.len() as int] == (Evidence::NestedSubstitution {
                                offset: t.start,
                            }));
                            assert(contains_nested_subst(out@, t.start));
                        }
                    },
                    ScanContext::Exec => {
                        if budget == 0 {
                            out.push(Evidence::DepthExceeded { depth: MAX_RESCAN_DEPTH });
                        } else if lvl == 0 {
                            let body_start = t.end;
                            let body_end = match find_matching_close(&tk.tokens, k + 1) {
                                Some(j) => {
                                    proof {
                                        assert(ts[k as int].end <= ts[j as int].start);
                                        assert(ts[j as int].start < ts[j as int].end <= n);
                                    }
                                    tk.tokens[j].start
                                },
                                None => n,
                            };
                            let inner = text.substring_char(body_start, body_end);
                            let mut sub = scan_at(inner, context, budget - 1);
                            out.append(&mut sub);
                        }
                        if lvl < usize::MAX {
                            lvl += 1;
                        }
                    },
                }
            },
            TokenKind::SubstClose => {
                if lvl > 0 {
                    lvl -= 1;
                }
            },
            _ => {},
        }
        proof {
            assert(ts.take(k + 1).drop_last() =~= ts.take(k as int));
            assert(ts.take(k + 1).last() == ts[k as int]);
            assert forall|m: int| 0 <= m < out_pre.len() implies out@[m] == out_pre[m] by {}
            assert forall|kk: int|
                0 <= kk < k + 1 implies token_finding_ok(
                text@,
                #[trigger] ts[kk],
                context,
                out@,
            ) by {
                if kk < k {
                    lemma_finding_monotone(text@, ts[kk], context, out_pre, out@);
                }
            }
            if spec_tokenize(text@, ShellType::Posix).unterminated_subst {
                let j = choose|j: int|
                    0 <= j < out_pre.len() && (#[trigger] out_pre[j]) is UnterminatedSubstitution;
                assert(out@[j] is UnterminatedSubstitution);
            }
            if budget == 0 && context is Exec && has_subst_open(ts.take(k + 1)) {
                if has_subst_open(ts.take(k as int)) {
                    assert(has_depth_exceeded(out_pre));
                    let w = choose|m: int|
                        0 <= m < out_pre.len() && (#[trigger] out_pre[m]) is DepthExceeded;
                    assert(out@[w] is DepthExceeded);
                } else {
                    assert(ts[k as int].kind is SubstOpen);
                    assert(out@ == out_pre.push(
                        Evidence::DepthExceeded { depth: MAX_RESCAN_DEPTH },
                    ));
                    assert(out@[out_pre.len() as int] is DepthExceeded);
                }
            }
            if context is Paste {
                assert forall|m: int| 0 <= m < out@.len() implies !((#[trigger] out@[m])
                    is DepthExceeded) by {
                    if m < out_pre.len() {
                        assert(out@[m] == out_pre[m]);
                        assert(!has_depth_exceeded(out_pre));
                    }
                }
            }
        }
        k += 1;
    }
    proof {
        assert(ts.take(ts.len() as int) =~= ts);
    }
    out
}

/// Text-level tier-1 scan: tokenize shell-aware, extract candidate artifacts
/// (URLs, path-like strings, non-ASCII words), and route each to the strict
/// URL parser, the path normalizer, or the homoglyph analyzer; each token's
/// finding is promised present. Under `Exec`, substitution bodies are
/// re-scanned recursively up to `MAX_RESCAN_DEPTH`, and nesting beyond the
/// bound yields a depth-exceeded finding; under `Paste` substitutions are
/// flagged without expansion.
pub fn tier1_scan(text: &str, context: ScanContext) -> (r: Vec<Evidence>)
    ensures
        forall|m: int| 0 <= m < r@.len() ==> evidence_wf(#[trigger] r@[m]),
        forall|k: int|
            0 <= k < spec_tokenize(text@, ShellType::Posix).tokens.len() ==> token_finding_ok(
                text@,
                #[trigger] spec_tokenize(text@, ShellType::Posix).tokens[k],
                context,
                r@,
            ),
        spec_tokenize(text@, ShellType::Posix).unterminated_subst ==> contains_unterminated_subst(
            r@,
        ),
        context is Paste ==> !has_depth_exceeded(r@),
        context is Exec && spec_tokenize(text@, ShellType::Posix).max_depth > MAX_RESCAN_DEPTH
            as int ==> has_depth_exceeded(r@),
{
    let mut r = scan_at(text, context, MAX_RESCAN_DEPTH);
    if matches!(context, ScanContext::Exec) {
        let tk = tokenize(text, ShellType::Posix);
        if tk.max_depth > MAX_RESCAN_DEPTH {
            let ghost pre = r@;
            r.push(Evidence::DepthExceeded { depth: tk.max_depth });
            proof {
                assert(r@[pre.len() as int] is DepthExceeded);
                assert(forall|m: int| 0 <= m < pre.len() ==> #[trigger] r@[m] == pre[m]);
                assert forall|k: int|
                    0 <= k < spec_tokenize(text@, ShellType::Posix).tokens.len()
                        implies token_finding_ok(
                    text@,
                    #[trigger] spec_tokenize(text@, ShellType::Posix).tokens[k],
                    context,
                    r@,
                ) by {
                    lemma_finding_monotone(
                        text@,
                        spec_tokenize(text@, ShellType::Posix).tokens[k],
                        context,
                        pre,
                        r@,
                    );
                }
                if spec_tokenize(text@, ShellType::Posix).unterminated_subst {
                    let j = choose|j: int|
                        0 <= j < pre.len() && (#[trigger] pre[j]) is UnterminatedSubstitution;
                    assert(r@[j] is UnterminatedSubstitution);
                }
            }
        }
    }
    r
}

} // verus!
