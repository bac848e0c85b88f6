//! Homoglyph analysis: finds non-ASCII characters in a hostname-like string,
//! classifies each by script with a confusability note, and computes the
//! canonical ASCII/IDNA transliteration of the whole string.

use vstd::prelude::*;

verus! {

use vstd::utf8::encode_scalar;
use vstd::utf8::encode_utf8;
use vstd::utf8::is_ascii_chars;
use vstd::string::StrSliceExecFns;
use vstd::string::StringExecFns;
use crate::verdict::Evidence;
use crate::verdict::SuspiciousChar;
use crate::text::char_is_ascii;
use crate::text::codepoint_text;
use crate::text::codepoint_string;
use crate::text::hex_bytes_text;
use crate::text::hex_bytes_string;
use crate::text::utf8_bytes_of_char;
use crate::text::utf8_char_len;
use crate::text::lemma_encode_utf8_push;
use crate::text::lemma_encode_utf8_split;

/// The Unicode script name of a character, as the `unicode_script` crate
/// prints it; a function of the character alone.
pub uninterp spec fn script_name_of(c: char) -> Seq<char>;

/// The ASCII/IDNA host form that `url::Url::parse` computes for a string, or
/// the string itself where parsing fails or yields no host; a function of the
/// string alone.
pub uninterp spec fn idna_ascii_of(s: Seq<char>) -> Seq<char>;

/// Relies on `unicode_script::UnicodeScript::script` and the `Script` type's
/// `Debug` form: the script name of a character depends on the character
/// alone (e.g. `Cyrillic`, `Latin`, `Common`).
#[verifier::external_body]
fn script_name(c: char) -> (r: String)
    ensures
        r@ == script_name_of(c),
{
    let s = unicode_script::UnicodeScript::script(&c);
    format!("{s:?}")
}

/// Relies on `url::Url::parse`: the host component of `https://<s>/` is the
/// IDNA/UTS-46 ASCII (punycode) form of `s`; parsing is deterministic, so the
/// result — the host, or the input unchanged where parsing fails or yields no
/// host — depends on `s` alone. A host that parses is serialized in its
/// ASCII form, so the result is ASCII-only, or it is the input unchanged.
#[verifier::external_body]
fn idna_host_ascii(raw: &str) -> (r: String)
    ensures
        r@ == idna_ascii_of(raw@),
        is_ascii_chars(r@) || r@ == raw@,
{
    let dummy = format!("https://{raw}/");
    match url::Url::parse(&dummy) {
        Ok(parsed) => match parsed.host_str() {
            Some(host) => host.to_owned(),
            None => raw.to_owned(),
        },
        Err(_) => raw.to_owned(),
    }
}

/// The confusability note for a character the curated table knows, if any.
/// The table maps single Unicode scalar values to descriptions: high-value
/// Latin lookalikes across the Cyrillic, Armenian, Greek, and Latin-extended
/// scripts.
pub open spec fn confusable_note(c: char) -> Option<Seq<char>> {
    if c == 'а' { Some("Cyrillic 'а' (looks like Latin 'a')"@) }
    else if c == 'е' { Some("Cyrillic 'е' (looks like Latin 'e')"@) }
    else if c == 'о' { Some("Cyrillic 'о' (looks like Latin 'o')"@) }
    else if c == 'р' { Some("Cyrillic 'р' (looks like Latin 'p')"@) }
    else if c == 'с' { Some("Cyrillic 'с' (looks like Latin 'c')"@) }
    else if c == 'у' { Some("Cyrillic 'у' (looks like Latin 'y')"@) }
    else if c == 'х' { Some("Cyrillic 'х' (looks like Latin 'x')"@) }
    else if c == 'і' { Some("Cyrillic 'і' (looks like Latin 'i')"@) }
    else if c == 'ј' { Some("Cyrillic 'ј' (looks like Latin 'j')"@) }
    else if c == 'ѕ' { Some("Cyrillic 'ѕ' (looks like Latin 's')"@) }
    else if c == 'ԁ' { Some("Cyrillic 'ԁ' (looks like Latin 'd')"@) }
    else if c == 'ɡ' { Some("Latin Small Letter Script G (looks like 'g')"@) }
    else if c == 'ո' { Some("Armenian 'ո' (looks like Latin 'n')"@) }
    else if c == 'ա' { Some("Armenian 'ա' (looks like Latin 'u')"@) }
    else if c == 'Α' { Some("Greek 'Α' (looks like Latin 'A')"@) }
    else if c == 'Β' { Some("Greek 'Β' (looks like Latin 'B')"@) }
    else if c == 'Ε' { Some("Greek 'Ε' (looks like Latin 'E')"@) }
    else if c == 'Η' { Some("Greek 'Η' (looks like Latin 'H')"@) }
    else if c == 'Ι' { Some("Greek 'Ι' (looks like Latin 'I')"@) }
    else if c == 'Κ' { Some("Greek 'Κ' (looks like Latin 'K')"@) }
    else if c == 'Μ' { Some("Greek 'Μ' (looks like Latin 'M')"@) }
    else if c == 'Ν' { Some("Greek 'Ν' (looks like Latin 'N')"@) }
    else if c == 'Ο' { Some("Greek 'Ο' (looks like Latin 'O')"@) }
    else if c == 'Ρ' { Some("Greek 'Ρ' (looks like Latin 'P')"@) }
    else if c == 'Τ' { Some("Greek 'Τ' (looks like Latin 'T')"@) }
    else if c == 'Χ' { Some("Greek 'Χ' (looks like Latin 'X')"@) }
    else if c == 'Ζ' { Some("Greek 'Ζ' (looks like Latin 'Z')"@) }
    else if c == 'ο' { Some("Greek 'ο' (looks like Latin 'o')"@) }
    else { None }
}

/// The description a character gets when the given script name is reported
/// for it: the curated confusability note where one is known, else the script
/// name followed by `character`.
pub open spec fn description_with(c: char, script: Seq<char>) -> Seq<char> {
    match confusable_note(c) {
        Some(d) => d,
        None => script + " character"@,
    }
}

/// The description the analyzer attaches to a character: its curated
/// confusability note, or its own script's name followed by `character`.
pub open spec fn description_text(c: char) -> Seq<char> {
    description_with(c, script_name_of(c))
}

/// Get a human-readable description of a character based on its script.
pub fn get_char_description(ch: char, script_name: &str) -> (r: String)
    ensures
        r@ == description_with(ch, script_name@),
{
    if ch == 'а' { "Cyrillic 'а' (looks like Latin 'a')".to_owned() }
    else if ch == 'е' { "Cyrillic 'е' (looks like Latin 'e')".to_owned() }
    else if ch == 'о' { "Cyrillic 'о' (looks like Latin 'o')".to_owned() }
    else if ch == 'р' { "Cyrillic 'р' (looks like Latin 'p')".to_owned() }
    else if ch == 'с' { "Cyrillic 'с' (looks like Latin 'c')".to_owned() }
    else if ch == 'у' { "Cyrillic 'у' (looks like Latin 'y')".to_owned() }
    else if ch == 'х' { "Cyrillic 'х' (looks like Latin 'x')".to_owned() }
    else if ch == 'і' { "Cyrillic 'і' (looks like Latin 'i')".to_owned() }
    else if ch == 'ј' { "Cyrillic 'ј' (looks like Latin 'j')".to_owned() }
    else if ch == 'ѕ' { "Cyrillic 'ѕ' (looks like Latin 's')".to_owned() }
    else if ch == 'ԁ' { "Cyrillic 'ԁ' (looks like Latin 'd')".to_owned() }
    else if ch == 'ɡ' { "Latin Small Letter Script G (looks like 'g')".to_owned() }
    else if ch == 'ո' { "Armenian 'ո' (looks like Latin 'n')".to_owned() }
    else if ch == 'ա' { "Armenian 'ա' (looks like Latin 'u')".to_owned() }
    else if ch == 'Α' { "Greek 'Α' (looks like Latin 'A')".to_owned() }
    else if ch == 'Β' { "Greek 'Β' (looks like Latin 'B')".to_owned() }
    else if ch == 'Ε' { "Greek 'Ε' (looks like Latin 'E')".to_owned() }
    else if ch == 'Η' { "Greek 'Η' (looks like Latin 'H')".to_owned() }
    else if ch == 'Ι' { "Greek 'Ι' (looks like Latin 'I')".to_owned() }
    else if ch == 'Κ' { "Greek 'Κ' (looks like Latin 'K')".to_owned() }
    else if ch == 'Μ' { "Greek 'Μ' (looks like Latin 'M')".to_owned() }
    else if ch == 'Ν' { "Greek 'Ν' (looks like Latin 'N')".to_owned() }
    else if ch == 'Ο' { "Greek 'Ο' (looks like Latin 'O')".to_owned() }
    else if ch == 'Ρ' { "Greek 'Ρ' (looks like Latin 'P')".to_owned() }
    else if ch == 'Τ' { "Greek 'Τ' (looks like Latin 'T')".to_owned() }
    else if ch == 'Χ' { "Greek 'Χ' (looks like Latin 'X')".to_owned() }
    else if ch == 'Ζ' { "Greek 'Ζ' (looks like Latin 'Z')".to_owned() }
    else if ch == 'ο' { "Greek 'ο' (looks like Latin 'o')".to_owned() }
    else {
        let mut s = String::from_str(script_name);
        s.append(" character");
        s
    }
}

/// The character indices of the non-ASCII characters of a string, in input
/// order.
pub open spec fn sus_indices(s: Seq<char>) -> Seq<int>
    decreases s.len(),
{
    if s.len() == 0 {
        Seq::empty()
    } else if char_is_ascii(s.last()) {
        sus_indices(s.drop_last())
    } else {
        sus_indices(s.drop_last()).push(s.len() - 1)
    }
}

/// The byte offset of the character at index `i`: the UTF-8 byte length of
/// the characters strictly before it.
pub open spec fn char_offset(s: Seq<char>, i: int) -> int {
    encode_utf8(s.take(i)).len() as int
}

/// What one reported entry must say of the character at index `i` of `s`.
pub open spec fn describes_char(e: SuspiciousChar, s: Seq<char>, i: int) -> bool {
    &&& e.offset as int == char_offset(s, i)
    &&& e.character == s[i]
    &&& e.codepoint@ == codepoint_text(s[i] as u32)
    &&& e.description@ == description_text(s[i])
    &&& e.hex_bytes@ == hex_bytes_text(encode_scalar(s[i] as u32))
}

/// The escaped form of a string: pure-ASCII input is returned unchanged, any
/// other input is transliterated to its ASCII/IDNA host form.
pub open spec fn escaped_form(s: Seq<char>) -> Seq<char> {
    if is_ascii_chars(s) {
        s
    } else {
        idna_ascii_of(s)
    }
}

/// What `analyze_hostname` promises of its evidence: the raw input is kept,
/// the escaped form is as above, and there is one entry per non-ASCII
/// character, in input order, each carrying that character, its byte offset,
/// its `U+XXXX` codepoint text, its description, and its UTF-8 bytes in hex.
pub open spec fn analysis_matches(s: Seq<char>, e: Evidence) -> bool {
    &&& e matches Evidence::HomoglyphAnalysis { raw, escaped, suspicious_chars }
    &&& raw@ == s
    &&& escaped@ == escaped_form(s)
    &&& (is_ascii_chars(escaped@) || escaped@ == s)
    &&& escaped_form(escaped@) == escaped@
    &&& suspicious_chars@.len() == sus_indices(s).len()
    &&& forall|k: int|
        0 <= k < sus_indices(s).len() ==> describes_char(
            #[trigger] suspicious_chars@[k],
            s,
            sus_indices(s)[k],
        )
}

/// Every reported index is in range, points at a non-ASCII character, and the
/// indices are strictly increasing (input order).
pub proof fn lemma_sus_indices_wf(s: Seq<char>)
    ensures
        forall|k: int|
            0 <= k < sus_indices(s).len() ==> 0 <= #[trigger] sus_indices(s)[k] < s.len(),
        forall|k: int|
            0 <= k < sus_indices(s).len() ==> !char_is_ascii(s[#[trigger] sus_indices(s)[k]]),
        forall|k1: int, k2: int|
            0 <= k1 < k2 < sus_indices(s).len() ==> #[trigger] sus_indices(s)[k1]
                < #[trigger] sus_indices(s)[k2],
    decreases s.len(),
{
    if s.len() > 0 {
        lemma_sus_indices_wf(s.drop_last());
        assert(forall|k: int|
            0 <= k < sus_indices(s.drop_last()).len() ==> s.drop_last()[#[trigger] sus_indices(
                s.drop_last(),
            )[k]] == s[sus_indices(s.drop_last())[k]]);
    }
}

/// Law: an all-ASCII input yields no suspicious characters, and its escaped
/// form is the input itself.
pub proof fn lemma_ascii_input_clean(s: Seq<char>)
    requires
        is_ascii_chars(s),
    ensures
        sus_indices(s).len() == 0,
        escaped_form(s) == s,
    decreases s.len(),
{
    if s.len() > 0 {
        assert(char_is_ascii(s.last()));
        assert(is_ascii_chars(s.drop_last())) by {
            assert(forall|i: int|
                0 <= i < s.drop_last().len() ==> #[trigger] s.drop_last()[i] == s[i]);
        }
        lemma_ascii_input_clean(s.drop_last());
    }
}

/// The escaped form a homoglyph finding carries.
pub open spec fn finding_escaped(e: Evidence) -> Seq<char> {
    match e {
        Evidence::HomoglyphAnalysis { escaped, .. } => escaped@,
        _ => Seq::empty(),
    }
}

/// The suspicious-character list a homoglyph finding carries.
pub open spec fn finding_chars(e: Evidence) -> Seq<SuspiciousChar> {
    match e {
        Evidence::HomoglyphAnalysis { suspicious_chars, .. } => suspicious_chars@,
        _ => Seq::empty(),
    }
}

/// Field-by-field agreement of two reported entries.
pub open spec fn susp_agrees(a: SuspiciousChar, b: SuspiciousChar) -> bool {
    &&& a.offset == b.offset
    &&& a.character == b.character
    &&& a.codepoint@ == b.codepoint@
    &&& a.description@ == b.description@
    &&& a.hex_bytes@ == b.hex_bytes@
}

/// Law: the analysis is deterministic — any two evidence values that satisfy
/// the analyzer's contract for the same input agree on the escaped form and
/// on every field of every reported entry. Running the analyzer twice on the
/// same input therefore yields identical output.
pub proof fn lemma_analyze_deterministic(s: Seq<char>, e1: Evidence, e2: Evidence)
    requires
        analysis_matches(s, e1),
        analysis_matches(s, e2),
    ensures
        finding_escaped(e1) == finding_escaped(e2),
        finding_chars(e1).len() == finding_chars(e2).len(),
        forall|k: int|
            0 <= k < finding_chars(e1).len() ==> susp_agrees(
                #[trigger] finding_chars(e1)[k],
                finding_chars(e2)[k],
            ),
{
}

/// Analyze a string for suspicious non-ASCII characters and generate detailed
/// evidence: one entry per non-ASCII character, plus the ASCII/IDNA escaped
/// form of the whole string. Total over any input; empty input yields no
/// entries and `escaped == raw`.
pub fn analyze_hostname(raw: &str) -> (r: Evidence)
    ensures
        analysis_matches(raw@, r),
{
    let n = raw.unicode_len();
    let byte_len = raw.as_bytes().len();
    proof {
        broadcast use vstd::slice::axiom_spec_len;

        assert(byte_len == encode_utf8(raw@).len());
    }
    let mut suspicious_chars: Vec<SuspiciousChar> = Vec::new();
    let mut byte_offset: usize = 0;
    let mut i: usize = 0;
    while i < n
        invariant
            n == raw@.len(),
            byte_len == encode_utf8(raw@).len(),
            i <= n,
            byte_offset as int == char_offset(raw@, i as int),
            byte_offset <= byte_len,
            suspicious_chars@.len() == sus_indices(raw@.take(i as int)).len(),
            forall|k: int|
                0 <= k < suspicious_chars@.len() ==> describes_char(
                    #[trigger] suspicious_chars@[k],
                    raw@,
                    sus_indices(raw@.take(i as int))[k],
                ),
        decreases n - i,
    {
        let c = raw.get_char(i);
        proof {
            lemma_sus_indices_wf(raw@.take(i + 1));
            assert(raw@.take(i + 1).drop_last() =~= raw@.take(i as int));
            assert(raw@.take(i + 1).last() == raw@[i as int]);
        }
        if (c as u32) > 0x7F {
            let name = script_name(c);
            let desc = get_char_description(c, name.as_str());
            let cp = codepoint_string(c);
            let bytes = utf8_bytes_of_char(c);
            let hex = hex_bytes_string(&bytes);
            let entry = SuspiciousChar {
                offset: byte_offset,
                character: c,
                codepoint: cp,
                description: desc,
                hex_bytes: hex,
            };
            proof {
                assert(describes_char(entry, raw@, i as int));
            }
            suspicious_chars.push(entry);
        }
        let clen = utf8_char_len(c);
        proof {
            lemma_encode_utf8_push(raw@.take(i as int), c);
            assert(raw@.take(i as int).push(c) =~= raw@.take(i + 1));
            lemma_encode_utf8_split(raw@, i + 1);
            assert(encode_utf8(raw@.take(i + 1)).len() <= byte_len);
            assert(forall|k: int|
                0 <= k < sus_indices(raw@.take(i as int)).len() ==> #[trigger] sus_indices(
                    raw@.take(i as int),
                )[k] == sus_indices(raw@.take(i + 1))[k]);
        }
        byte_offset += clen;
        i += 1;
    }
    proof {
        assert(raw@.take(n as int) =~= raw@);
    }
    let escaped = escape_to_ascii(raw);
    Evidence::HomoglyphAnalysis { raw: raw.to_owned(), escaped, suspicious_chars }
}

/// Convert a hostname to its ASCII/punycode equivalent under IDNA rules:
/// pure-ASCII input is returned unchanged, anything else goes through the
/// `url` crate's host parsing, falling back to the input unchanged where that
/// fails — this path never rejects its input. The result is ASCII-only or,
/// where transliteration failed, the input itself; either way it is a fixed
/// point of escaping.
pub fn escape_to_ascii(raw: &str) -> (r: String)
    ensures
        r@ == escaped_form(raw@),
        is_ascii_chars(r@) || r@ == raw@,
        escaped_form(r@) == r@,
{
    if raw.is_ascii() {
        raw.to_owned()
    } else {
        let r = idna_host_ascii(raw);
        proof {
            if is_ascii_chars(r@) {
                assert(escaped_form(r@) == r@);
            } else {
                assert(r@ == raw@);
                assert(escaped_form(r@) == idna_ascii_of(raw@));
            }
        }
        r
    }
}

} // verus!
