//! Strict, deterministic URL decomposition. Constructs that real URL
//! consumers disagree on — userinfo-as-decoy-host tricks, backslashes as
//! separators, embedded whitespace or control characters — are rejected
//! outright rather than guessed at, since a divergent interpretation is
//! itself the exploit.

use vstd::prelude::*;

verus! {

use vstd::string::StrSliceExecFns;
use crate::text::first_from;
use crate::text::lemma_first_from_found;
use crate::text::lemma_first_from_none;
use crate::text::lemma_first_from_props;

/// A parsed URL: its components as plain text, ready for policy checks and
/// homoglyph analysis of the host.
#[derive(Debug, Clone, PartialEq, Eq)]
pub struct UrlParts {
    pub scheme: String,
    pub host: String,
    pub port: Option<u16>,
    pub path: String,
    pub query: Option<String>,
    pub fragment: Option<String>,
}

/// Why an input was rejected.
#[derive(Debug, Clone, Copy, PartialEq, Eq, Structural)]
pub enum ParseError {
    /// No `://` after a scheme.
    NoScheme,
    /// The scheme is empty or holds a character outside `[A-Za-z][A-Za-z0-9+.-]*`.
    BadScheme,
    /// Whitespace, a control character, or a backslash anywhere in the input.
    ForbiddenChar,
    /// An `@` in the authority: userinfo is rejected as a decoy-host trick.
    UserinfoPresent,
    /// The authority has no host characters.
    EmptyHost,
    /// The text after `:` in the authority is not a decimal port below 65536.
    BadPort,
}

/// Spec-level counterpart of `UrlParts`.
pub struct UrlModel {
    pub scheme: Seq<char>,
    pub host: Seq<char>,
    pub port: Option<u16>,
    pub path: Seq<char>,
    pub query: Option<Seq<char>>,
    pub fragment: Option<Seq<char>>,
}

pub open spec fn is_alpha(c: char) -> bool {
    ('a' <= c && c <= 'z') || ('A' <= c && c <= 'Z')
}

pub open spec fn is_digit(c: char) -> bool {
    '0' <= c && c <= '9'
}

pub open spec fn is_scheme_char(c: char) -> bool {
    is_alpha(c) || is_digit(c) || c == '+' || c == '-' || c == '.'
}

/// A scheme is one ASCII letter followed by letters, digits, `+`, `-`, `.`.
pub open spec fn valid_scheme(s: Seq<char>) -> bool {
    &&& s.len() > 0
    &&& is_alpha(s[0])
    &&& forall|i: int| 0 <= i < s.len() ==> is_scheme_char(#[trigger] s[i])
}

/// Characters never accepted anywhere in a URL: whitespace and control
/// characters (which make the reading ambiguous) and backslash (which some
/// consumers treat as a path separator).
pub open spec fn is_forbidden_char(c: char) -> bool {
    (c as u32) <= 0x20 || c == '\\' || (c as u32) == 0x7F
}

pub open spec fn forbidden_pred() -> spec_fn(char) -> bool {
    |c: char| is_forbidden_char(c)
}

pub open spec fn char_eq_pred(target: char) -> spec_fn(char) -> bool {
    |c: char| c == target
}

pub open spec fn auth_end_pred() -> spec_fn(char) -> bool {
    |c: char| c == '/' || c == '?' || c == '#'
}

/// The numeric value of a digit string, most significant first.
pub open spec fn digits_value(s: Seq<char>) -> int
    decreases s.len(),
{
    if s.len() == 0 {
        0
    } else {
        digits_value(s.drop_last()) * 10 + (s.last() as int - '0' as int)
    }
}

pub open spec fn all_digits(s: Seq<char>) -> bool {
    forall|i: int| 0 <= i < s.len() ==> is_digit(#[trigger] s[i])
}

/// The path, query, and fragment of the input after the authority ends at
/// `aend`: the fragment starts at the first `#`, the query at the first `?`
/// before it, and the path is what is left in between.
pub open spec fn tail_parts(s: Seq<char>, aend: int) -> (Seq<char>, Option<Seq<char>>, Option<
    Seq<char>,
>) {
    let hpos = match first_from(s, char_eq_pred('#'), aend) {
        Some(h) => h,
        None => s.len() as int,
    };
    let qpos = match first_from(s, char_eq_pred('?'), aend) {
        Some(q) => if q < hpos {
            Some(q)
        } else {
            None
        },
        None => None,
    };
    let path_end = match qpos {
        Some(q) => q,
        None => hpos,
    };
    let path = s.subrange(aend, path_end);
    let query = match qpos {
        Some(q) => Some(s.subrange(q + 1, hpos)),
        None => None,
    };
    let fragment = if hpos < s.len() {
        Some(s.subrange(hpos + 1, s.len() as int))
    } else {
        None
    };
    (path, query, fragment)
}

/// The one canonical reading of the input, or the error that rejects it.
pub open spec fn parse_url_spec(s: Seq<char>) -> Result<UrlModel, ParseError> {
    if first_from(s, forbidden_pred(), 0) is Some {
        Err(ParseError::ForbiddenChar)
    } else {
        match first_from(s, char_eq_pred(':'), 0) {
            None => Err(ParseError::NoScheme),
            Some(ci) => {
                if !(ci + 2 < s.len() && s[ci + 1] == '/' && s[ci + 2] == '/') {
                    Err(ParseError::NoScheme)
                } else if !valid_scheme(s.take(ci)) {
                    Err(ParseError::BadScheme)
                } else {
                    let astart = ci + 3;
                    let aend = match first_from(s, auth_end_pred(), astart) {
                        Some(e) => e,
                        None => s.len() as int,
                    };
                    let auth = s.subrange(astart, aend);
                    if first_from(auth, char_eq_pred('@'), 0) is Some {
                        Err(ParseError::UserinfoPresent)
                    } else {
                        let (path, query, fragment) = tail_parts(s, aend);
                        match first_from(auth, char_eq_pred(':'), 0) {
                            None => {
                                if auth.len() == 0 {
                                    Err(ParseError::EmptyHost)
                                } else {
                                    Ok(
                                        UrlModel {
                                            scheme: s.take(ci),
                                            host: auth,
                                            port: None,
                                            path,
                                            query,
                                            fragment,
                                        },
                                    )
                                }
                            },
                            Some(pi) => {
                                if pi == 0 {
                                    Err(ParseError::EmptyHost)
                                } else {
                                    let pt = auth.skip(pi + 1);
                                    if pt.len() > 0 && all_digits(pt) && digits_value(pt)
                                        <= 0xFFFF {
                                        Ok(
                                            UrlModel {
                                                scheme: s.take(ci),
                                                host: auth.take(pi),
                                                port: Some(digits_value(pt) as u16),
                                                path,
                                                query,
                                                fragment,
                                            },
                                        )
                                    } else {
                                        Err(ParseError::BadPort)
                                    }
                                }
                            },
                        }
                    }
                }
            },
        }
    }
}

/// The executable result carries exactly the components of the model.
pub open spec fn url_matches(u: UrlParts, m: UrlModel) -> bool {
    &&& u.scheme@ == m.scheme
    &&& u.host@ == m.host
    &&& u.port == m.port
    &&& u.path@ == m.path
    &&& match (u.query, m.query) {
        (Some(q), Some(mq)) => q@ == mq,
        (None, None) => true,
        _ => false,
    }
    &&& match (u.fragment, m.fragment) {
        (Some(f), Some(mf)) => f@ == mf,
        (None, None) => true,
        _ => false,
    }
}

/// Find the first forbidden character.
fn find_forbidden(s: &str) -> (r: Option<usize>)
    ensures
        r matches Some(i) ==> first_from(s@, forbidden_pred(), 0) == Some(i as int),
        r is None ==> first_from(s@, forbidden_pred(), 0) is None,
{
    let n = s.unicode_len();
    let mut i: usize = 0;
    while i < n
        invariant
            n == s@.len(),
            i <= n,
            forall|j: int| 0 <= j < i ==> !#[trigger] forbidden_pred()(s@[j]),
        decreases n - i,
    {
        let c = s.get_char(i);
        if (c as u32) <= 0x20 || c == '\\' || (c as u32) == 0x7F {
            proof {
                assert(forbidden_pred()(s@[i as int]));
                lemma_first_from_found(s@, forbidden_pred(), 0, i as int);
            }
            return Some(i);
        }
        proof {
            assert(!forbidden_pred()(s@[i as int]));
        }
        i += 1;
    }
    proof {
        lemma_first_from_none(s@, forbidden_pred(), 0);
    }
    None
}

/// Find the first character equal to `target` at or after `from`, where
/// `target` is one of the structural characters the parser splits on.
fn find_char(s: &str, target: char, from: usize) -> (r: Option<usize>)
    ensures
        r matches Some(i) ==> from <= i && first_from(s@, char_eq_pred(target), from as int)
            == Some(i as int),
        r is None ==> first_from(s@, char_eq_pred(target), from as int) is None,
{
    let n = s.unicode_len();
    let mut i: usize = from;
    if from > n {
        proof {
            lemma_first_from_none(s@, char_eq_pred(target), from as int);
        }
        return None;
    }
    while i < n
        invariant
            n == s@.len(),
            from <= i <= n,
            forall|j: int| from <= j < i ==> !#[trigger] char_eq_pred(target)(s@[j]),
        decreases n - i,
    {
        let c = s.get_char(i);
        if c == target {
            proof {
                assert(char_eq_pred(target)(s@[i as int]));
                lemma_first_from_found(s@, char_eq_pred(target), from as int, i as int);
            }
            return Some(i);
        }
        proof {
            assert(!char_eq_pred(target)(s@[i as int]));
        }
        i += 1;
    }
    proof {
        lemma_first_from_none(s@, char_eq_pred(target), from as int);
    }
    None
}

/// Find the end of the authority: the first `/`, `?`, or `#` at or after `from`.
fn find_auth_end(s: &str, from: usize) -> (r: Option<usize>)
    ensures
        r matches Some(i) ==> from <= i && first_from(s@, auth_end_pred(), from as int) == Some(
            i as int,
        ),
        r is None ==> first_from(s@, auth_end_pred(), from as int) is None,
{
    let n = s.unicode_len();
    let mut i: usize = from;
    if from > n {
        proof {
            lemma_first_from_none(s@, auth_end_pred(), from as int);
        }
        return None;
    }
    while i < n
        invariant
            n == s@.len(),
            from <= i <= n,
            forall|j: int| from <= j < i ==> !#[trigger] auth_end_pred()(s@[j]),
        decreases n - i,
    {
        let c = s.get_char(i);
        if c == '/' || c == '?' || c == '#' {
            proof {
                assert(auth_end_pred()(s@[i as int]));
                lemma_first_from_found(s@, auth_end_pred(), from as int, i as int);
            }
            return Some(i);
        }
        proof {
            assert(!auth_end_pred()(s@[i as int]));
        }
        i += 1;
    }
    proof {
        lemma_first_from_none(s@, auth_end_pred(), from as int);
    }
    None
}

/// Check the scheme's characters.
fn check_scheme(s: &str, end: usize) -> (r: bool)
    requires
        end <= s@.len(),
    ensures
        r == valid_scheme(s@.take(end as int)),
{
    if end == 0 {
        return false;
    }
    let c0 = s.get_char(0);
    if !((('a' <= c0 && c0 <= 'z') || ('A' <= c0 && c0 <= 'Z'))) {
        proof {
            assert(s@.take(end as int)[0] == s@[0]);
        }
        return false;
    }
    let mut i: usize = 0;
    while i < end
        invariant
            end <= s@.len(),
            i <= end,
            is_alpha(s@[0]),
            forall|j: int| 0 <= j < i ==> is_scheme_char(#[trigger] s@.take(end as int)[j]),
        decreases end - i,
    {
        let c = s.get_char(i);
        let ok = ('a' <= c && c <= 'z') || ('A' <= c && c <= 'Z') || ('0' <= c && c <= '9') || c
            == '+' || c == '-' || c == '.';
        if !ok {
            proof {
                assert(s@.take(end as int)[i as int] == s@[i as int]);
                assert(!is_scheme_char(s@.take(end as int)[i as int]));
            }
            return false;
        }
        proof {
            assert(s@.take(end as int)[i as int] == s@[i as int]);
        }
        i += 1;
    }
    proof {
        assert(s@.take(end as int)[0] == s@[0]);
    }
    true
}

/// Parse a decimal port: `Some` exactly when the text is a non-empty digit
/// string whose value is below 65536.
fn port_value(pt: &str) -> (r: Option<u16>)
    ensures
        r matches Some(v) ==> pt@.len() > 0 && all_digits(pt@) && digits_value(pt@) == v as int,
        r is None ==> !(pt@.len() > 0 && all_digits(pt@) && digits_value(pt@) <= 0xFFFF),
{
    let n = pt.unicode_len();
    if n == 0 {
        return None;
    }
    let mut i: usize = 0;
    let mut v: u32 = 0;
    let mut over = false;
    while i < n
        invariant
            n == pt@.len(),
            i <= n,
            forall|j: int| 0 <= j < i ==> is_digit(#[trigger] pt@[j]),
            !over ==> v as int == digits_value(pt@.take(i as int)) && v <= 0xFFFF,
            over ==> digits_value(pt@.take(i as int)) > 0xFFFF,
        decreases n - i,
    {
        let c = pt.get_char(i);
        if !('0' <= c && c <= '9') {
            return None;
        }
        let d: u32 = (c as u32) - ('0' as u32);
        proof {
            assert(pt@.take(i + 1).drop_last() =~= pt@.take(i as int));
            assert(pt@.take(i + 1).last() == pt@[i as int]);
            if over {
                let dv = digits_value(pt@.take(i as int));
                assert(digits_value(pt@.take(i + 1)) == dv * 10 + (pt@[i as int] as int
                    - '0' as int));
                assert(dv * 10 >= dv);
            }
        }
        if !over {
            let nv: u32 = v * 10 + d;
            if nv > 0xFFFF {
                over = true;
            } else {
                v = nv;
            }
        }
        i += 1;
    }
    proof {
        assert(pt@.take(n as int) =~= pt@);
    }
    if over {
        return None;
    }
    Some(v as u16)
}

/// Parse a URL deterministically into one canonical reading, or reject it.
/// The scheme must end in `://`; the authority may not carry userinfo; a port
/// must be a decimal number below 65536; whitespace, control characters and
/// backslashes are rejected anywhere.
pub fn parse_url(text: &str) -> (r: Result<UrlParts, ParseError>)
    ensures
        r matches Ok(u) ==> parse_url_spec(text@) matches Ok(m) && url_matches(u, m),
        r matches Err(e) ==> parse_url_spec(text@) == Err::<UrlModel, ParseError>(e),
{
    let n = text.unicode_len();
    if find_forbidden(text).is_some() {
        return Err(ParseError::ForbiddenChar);
    }
    let ci = match find_char(text, ':', 0) {
        Some(ci) => ci,
        None => {
            return Err(ParseError::NoScheme);
        },
    };
    proof {
        lemma_first_from_props(text@, char_eq_pred(':'), 0);
    }
    if !(ci < n && n - ci > 2 && text.get_char(ci + 1) == '/' && text.get_char(ci + 2) == '/') {
        return Err(ParseError::NoScheme);
    }
    if !check_scheme(text, ci) {
        return Err(ParseError::BadScheme);
    }
    let astart = ci + 3;
    let aend = match find_auth_end(text, astart) {
        Some(e) => e,
        None => n,
    };
    proof {
        lemma_first_from_props(text@, auth_end_pred(), astart as int);
    }
    let auth = text.substring_char(astart, aend);
    proof {
        assert(auth@ =~= text@.subrange(astart as int, aend as int));
    }
    if find_char(auth, '@', 0).is_some() {
        return Err(ParseError::UserinfoPresent);
    }
    // path, query, fragment
    let hpos = match find_char(text, '#', aend) {
        Some(h) => h,
        None => n,
    };
    proof {
        lemma_first_from_props(text@, char_eq_pred('#'), aend as int);
    }
    let qopt = find_char(text, '?', aend);
    proof {
        lemma_first_from_props(text@, char_eq_pred('?'), aend as int);
    }
    let path_end = match qopt {
        Some(q) => if q < hpos {
            q
        } else {
            hpos
        },
        None => hpos,
    };
    let path = text.substring_char(aend, path_end).to_owned();
    let query = match qopt {
        Some(q) => if q < hpos {
            Some(text.substring_char(q + 1, hpos).to_owned())
        } else {
            None
        },
        None => None,
    };
    let fragment = if hpos < n {
        Some(text.substring_char(hpos + 1, n).to_owned())
    } else {
        None
    };
    let scheme = text.substring_char(0, ci).to_owned();
    proof {
        assert(text@.subrange(0, ci as int) =~= text@.take(ci as int));
    }
    // host and port
    let popt = find_char(auth, ':', 0);
    match popt {
        None => {
            if auth.unicode_len() == 0 {
                return Err(ParseError::EmptyHost);
            }
            let host = auth.to_owned();
            Ok(UrlParts { scheme, host, port: None, path, query, fragment })
        },
        Some(pi) => {
            if pi == 0 {
                return Err(ParseError::EmptyHost);
            }
            proof {
                lemma_first_from_props(auth@, char_eq_pred(':'), 0);
            }
            let alen = auth.unicode_len();
            let pt = auth.substring_char(pi + 1, alen);
            proof {
                assert(pt@ =~= auth@.skip(pi + 1));
            }
            match port_value(pt) {
                None => Err(ParseError::BadPort),
                Some(v) => {
                    let host = auth.substring_char(0, pi).to_owned();
                    proof {
                        assert(host@ =~= auth@.take(pi as int));
                    }
                    Ok(UrlParts { scheme, host, port: Some(v), path, query, fragment })
                },
            }
        },
    }
}

} // verus!
