//! The serialized wire form of the evidence model, for logging and host
//! consumption: a tagged-variant JSON encoding in which the homoglyph variant
//! appears under the `homoglyph_analysis` tag, the character field is named
//! `character`, and `suspicious_chars` is an ordered array of records. The
//! field names are a compatibility contract and are produced here exactly.

use vstd::prelude::*;

verus! {

use vstd::string::StrSliceExecFns;
use vstd::string::StringExecFns;
use crate::text::push_char;
use crate::text::hex_digit_lower;
use crate::text::hex_digit_lower_char;
use crate::verdict::Evidence;
use crate::verdict::SuspiciousChar;

/// The JSON escape of one character, as common emitters write it: the short
/// escapes for quote, backslash and the usual control characters, `\u00xx`
/// with lowercase hex for the other control characters, and the character
/// itself otherwise.
pub open spec fn json_char(c: char) -> Seq<char> {
    if c == '"' {
        seq!['\\', '"']
    } else if c == '\\' {
        seq!['\\', '\\']
    } else if c == '\u{8}' {
        seq!['\\', 'b']
    } else if c == '\u{c}' {
        seq!['\\', 'f']
    } else if c == '\n' {
        seq!['\\', 'n']
    } else if c == '\r' {
        seq!['\\', 'r']
    } else if c == '\t' {
        seq!['\\', 't']
    } else if (c as u32) < 0x20 {
        seq!['\\', 'u', '0', '0', hex_digit_lower(((c as u32) / 16) as u8), hex_digit_lower(
            ((c as u32) % 16) as u8,
        )]
    } else {
        seq![c]
    }
}

/// A whole string, escaped character by character.
pub open spec fn json_escaped(s: Seq<char>) -> Seq<char>
    decreases s.len(),
{
    if s.len() == 0 {
        Seq::empty()
    } else {
        json_escaped(s.drop_last()) + json_char(s.last())
    }
}

/// The decimal text of a number.
pub open spec fn dec_text(n: int) -> Seq<char>
    decreases n,
{
    if n < 10 {
        seq![hex_digit_lower(if 0 <= n { (n % 10) as u8 } else { 0 })]
    } else {
        dec_text(n / 10) + seq![hex_digit_lower((n % 10) as u8)]
    }
}

/// A JSON string: the escaped text between double quotes.
pub open spec fn json_string(s: Seq<char>) -> Seq<char> {
    seq!['"'] + json_escaped(s) + seq!['"']
}

/// One suspicious-character record on the wire.
pub open spec fn susp_json(sc: SuspiciousChar) -> Seq<char> {
    "{\"offset\":"@ + dec_text(sc.offset as int) + ",\"character\":"@ + json_string(
        seq![sc.character],
    ) + ",\"codepoint\":"@ + json_string(sc.codepoint@) + ",\"description\":"@ + json_string(
        sc.description@,
    ) + ",\"hex_bytes\":"@ + json_string(sc.hex_bytes@) + "}"@
}

/// The records of the array, comma-separated.
pub open spec fn susp_array_body(list: Seq<SuspiciousChar>) -> Seq<char>
    decreases list.len(),
{
    if list.len() == 0 {
        Seq::empty()
    } else if list.len() == 1 {
        susp_json(list[0])
    } else {
        susp_array_body(list.drop_last()) + seq![','] + susp_json(list.last())
    }
}

/// One finding on the wire: a tagged-variant record, the tag in snake case;
/// a variant without fields is its bare tag string.
pub open spec fn evidence_json_text(e: Evidence) -> Seq<char> {
    match e {
        Evidence::HomoglyphAnalysis { raw, escaped, suspicious_chars } => {
            "{\"homoglyph_analysis\":{\"raw\":"@ + json_string(raw@) + ",\"escaped\":"@
                + json_string(escaped@) + ",\"suspicious_chars\":["@ + susp_array_body(
                suspicious_chars@,
            ) + "]}}"@
        },
        Evidence::EmbeddedNul { offset } => {
            "{\"embedded_nul\":{\"offset\":"@ + dec_text(offset as int) + "}}"@
        },
        Evidence::AnsiEscape { offset } => {
            "{\"ansi_escape\":{\"offset\":"@ + dec_text(offset as int) + "}}"@
        },
        Evidence::ControlByte { offset, value } => {
            "{\"control_byte\":{\"offset\":"@ + dec_text(offset as int) + ",\"value\":"@
                + dec_text(value as int) + "}}"@
        },
        Evidence::UnterminatedQuote { offset } => {
            "{\"unterminated_quote\":{\"offset\":"@ + dec_text(offset as int) + "}}"@
        },
        Evidence::UnterminatedSubstitution => "\"unterminated_substitution\""@,
        Evidence::NestedSubstitution { offset } => {
            "{\"nested_substitution\":{\"offset\":"@ + dec_text(offset as int) + "}}"@
        },
        Evidence::DepthExceeded { depth } => {
            "{\"depth_exceeded\":{\"depth\":"@ + dec_text(depth as int) + "}}"@
        },
        Evidence::TraversalEscape { raw } => {
            "{\"traversal_escape\":{\"raw\":"@ + json_string(raw@) + "}}"@
        },
        Evidence::MalformedUrl { raw } => {
            "{\"malformed_url\":{\"raw\":"@ + json_string(raw@) + "}}"@
        },
    }
}

/// Append one escaped character.
fn push_json_char(out: &mut String, c: char)
    ensures
        final(out)@ == old(out)@ + json_char(c),
{
    if c == '"' {
        push_char(out, '\\');
        push_char(out, '"');
    } else if c == '\\' {
        push_char(out, '\\');
        push_char(out, '\\');
    } else if c == '\u{8}' {
        push_char(out, '\\');
        push_char(out, 'b');
    } else if c == '\u{c}' {
        push_char(out, '\\');
        push_char(out, 'f');
    } else if c == '\n' {
        push_char(out, '\\');
        push_char(out, 'n');
    } else if c == '\r' {
        push_char(out, '\\');
        push_char(out, 'r');
    } else if c == '\t' {
        push_char(out, '\\');
        push_char(out, 't');
    } else if (c as u32) < 0x20 {
        push_char(out, '\\');
        push_char(out, 'u');
        push_char(out, '0');
        push_char(out, '0');
        push_char(out, hex_digit_lower_char(((c as u32) / 16) as u8));
        push_char(out, hex_digit_lower_char(((c as u32) % 16) as u8));
    } else {
        push_char(out, c);
    }
    proof {
        assert(out@ =~= old(out)@ + json_char(c));
    }
}

/// Append a whole JSON string, quotes included.
fn push_json_string(out: &mut String, s: &str)
    ensures
        final(out)@ == old(out)@ + json_string(s@),
{
    push_char(out, '"');
    let n = s.unicode_len();
    let mut i: usize = 0;
    while i < n
        invariant
            n == s@.len(),
            i <= n,
            out@ == old(out)@ + seq!['"'] + json_escaped(s@.take(i as int)),
        decreases n - i,
    {
        let c = s.get_char(i);
        push_json_char(out, c);
        proof {
            assert(s@.take(i + 1).drop_last() =~= s@.take(i as int));
            assert(s@.take(i + 1).last() == s@[i as int]);
            assert(out@ =~= old(out)@ + seq!['"'] + json_escaped(s@.take(i + 1)));
        }
        i += 1;
    }
    push_char(out, '"');
    proof {
        assert(s@.take(n as int) =~= s@);
        assert(out@ =~= old(out)@ + json_string(s@));
    }
}

/// Append the decimal text of a number.
fn push_decimal(out: &mut String, n: u64)
    ensures
        final(out)@ == old(out)@ + dec_text(n as int),
    decreases n,
{
    if n < 10 {
        push_char(out, hex_digit_lower_char((n % 10) as u8));
        proof {
            assert(out@ =~= old(out)@ + dec_text(n as int));
        }
    } else {
        push_decimal(out, n / 10);
        push_char(out, hex_digit_lower_char((n % 10) as u8));
        proof {
            assert(out@ =~= old(out)@ + dec_text(n as int));
        }
    }
}

/// Append one suspicious-character record.
fn push_susp_json(out: &mut String, sc: &SuspiciousChar)
    ensures
        final(out)@ == old(out)@ + susp_json(*sc),
{
    out.append("{\"offset\":");
    push_decimal(out, sc.offset as u64);
    out.append(",\"character\":");
    push_char(out, '"');
    push_json_char(out, sc.character);
    push_char(out, '"');
    out.append(",\"codepoint\":");
    push_json_string(out, sc.codepoint.as_str());
    out.append(",\"description\":");
    push_json_string(out, sc.description.as_str());
    out.append(",\"hex_bytes\":");
    push_json_string(out, sc.hex_bytes.as_str());
    out.append("}");
    proof {
        assert(json_escaped(seq![sc.character]) =~= json_char(sc.character)) by {
            assert(seq![sc.character].drop_last() =~= Seq::<char>::empty());
            assert(json_escaped(Seq::<char>::empty()) =~= Seq::<char>::empty());
        }
        assert(out@ =~= old(out)@ + susp_json(*sc));
    }
}

/// Serialize one finding in the wire form: a tagged-variant record whose tag
/// and field names are fixed by the compatibility contract.
pub fn evidence_json(e: &Evidence) -> (r: String)
    ensures
        r@ == evidence_json_text(*e),
{
    let mut out = String::new();
    match e {
        Evidence::HomoglyphAnalysis { raw, escaped, suspicious_chars } => {
            out.append("{\"homoglyph_analysis\":{\"raw\":");
            push_json_string(&mut out, raw.as_str());
            out.append(",\"escaped\":");
            push_json_string(&mut out, escaped.as_str());
            out.append(",\"suspicious_chars\":[");
            let ghost head = out@;
            let mut i: usize = 0;
            while i < suspicious_chars.len()
                invariant
                    i <= suspicious_chars@.len(),
                    out@ == head + susp_array_body(suspicious_chars@.take(i as int)),
                decreases suspicious_chars@.len() - i,
            {
                if i > 0 {
                    push_char(&mut out, ',');
                }
                push_susp_json(&mut out, &suspicious_chars[i]);
                proof {
                    assert(suspicious_chars@.take(i + 1).drop_last() =~= suspicious_chars@.take(
                        i as int,
                    ));
                    assert(suspicious_chars@.take(i + 1).last() == suspicious_chars@[i as int]);
                    assert(out@ =~= head + susp_array_body(suspicious_chars@.take(i + 1)));
                }
                i += 1;
            }
            out.append("]}}");
            proof {
                assert(suspicious_chars@.take(suspicious_chars@.len() as int)
                    =~= suspicious_chars@);
                assert(out@ =~= evidence_json_text(*e));
            }
        },
        Evidence::EmbeddedNul { offset } => {
            out.append("{\"embedded_nul\":{\"offset\":");
            push_decimal(&mut out, *offset as u64);
            out.append("}}");
            proof {
                assert(out@ =~= evidence_json_text(*e));
            }
        },
        Evidence::AnsiEscape { offset } => {
            out.append("{\"ansi_escape\":{\"offset\":");
            push_decimal(&mut out, *offset as u64);
            out.append("}}");
            proof {
                assert(out@ =~= evidence_json_text(*e));
            }
        },
        Evidence::ControlByte { offset, value } => {
            out.append("{\"control_byte\":{\"offset\":");
            push_decimal(&mut out, *offset as u64);
            out.append(",\"value\":");
            push_decimal(&mut out, *value as u64);
            out.append("}}");
            proof {
                assert(out@ =~= evidence_json_text(*e));
            }
        },
        Evidence::UnterminatedQuote { offset } => {
            out.append("{\"unterminated_quote\":{\"offset\":");
            push_decimal(&mut out, *offset as u64);
            out.append("}}");
            proof {
                assert(out@ =~= evidence_json_text(*e));
            }
        },
        Evidence::UnterminatedSubstitution => {
            out.append("\"unterminated_substitution\"");
            proof {
                assert(out@ =~= evidence_json_text(*e));
            }
        },
        Evidence::NestedSubstitution { offset } => {
            out.append("{\"nested_substitution\":{\"offset\":");
            push_decimal(&mut out, *offset as u64);
            out.append("}}");
            proof {
                assert(out@ =~= evidence_json_text(*e));
            }
        },
        Evidence::DepthExceeded { depth } => {
            out.append("{\"depth_exceeded\":{\"depth\":");
            push_decimal(&mut out, *depth as u64);
            out.append("}}");
            proof {
                assert(out@ =~= evidence_json_text(*e));
            }
        },
        Evidence::TraversalEscape { raw } => {
            out.append("{\"traversal_escape\":{\"raw\":");
            push_json_string(&mut out, raw.as_str());
            out.append("}}");
            proof {
                assert(out@ =~= evidence_json_text(*e));
            }
        },
        Evidence::MalformedUrl { raw } => {
            out.append("{\"malformed_url\":{\"raw\":");
            push_json_string(&mut out, raw.as_str());
            out.append("}}");
            proof {
                assert(out@ =~= evidence_json_text(*e));
            }
        },
    }
    out
}

} // verus!
