use tirith_core::homoglyph::{analyze_hostname, escape_to_ascii};
use tirith_core::verdict::Evidence;

#[test]
fn test_analyze_cyrillic_i() {
    let evidence = analyze_hostname("іnstall");
    if let Evidence::HomoglyphAnalysis {
        raw,
        escaped: _,
        suspicious_chars,
    } = evidence
    {
        assert_eq!(raw, "іnstall");
        assert!(!suspicious_chars.is_empty());
        assert_eq!(suspicious_chars[0].codepoint, "U+0456");
        assert!(suspicious_chars[0]
            .description
            .contains("looks like Latin 'i'"));
    } else {
        panic!("Expected HomoglyphAnalysis evidence");
    }
}

#[test]
fn test_escape_to_ascii_punycode() {
    let escaped = escape_to_ascii("paradіgm.xyz");
    assert!(
        escaped.contains("xn--"),
        "Expected punycode, got: {escaped}"
    );
}

#[test]
fn test_escape_pure_ascii() {
    let escaped = escape_to_ascii("example.com");
    assert_eq!(escaped, "example.com");
}

#[test]
fn test_escape_google_cyrillic() {
    // Classic homograph: gооgle with Cyrillic о
    let escaped = escape_to_ascii("gооgle.com");
    assert!(
        escaped.contains("xn--"),
        "Expected punycode for Cyrillic o, got: {escaped}"
    );
    // A successful transliteration is ASCII-only.
    assert!(escaped.is_ascii());
}

#[test]
fn test_escape_invalid_host_unchanged() {
    // A space makes the host syntax invalid; transliteration failure must
    // degrade to the input unchanged, never reject it.
    let escaped = escape_to_ascii("і nstall");
    assert_eq!(escaped, "і nstall");
}

#[test]
fn test_escape_mixed_labels() {
    // First label has homoglyph, second is pure ASCII
    let escaped = escape_to_ascii("аpple.example.com");
    assert!(escaped.contains("xn--"), "First label should be punycode");
    assert!(escaped.contains("example.com"), "ASCII labels preserved");
}

#[test]
fn test_byte_offsets_correct() {
    let evidence = analyze_hostname("aіb");
    if let Evidence::HomoglyphAnalysis {
        suspicious_chars, ..
    } = evidence
    {
        assert_eq!(suspicious_chars.len(), 1);
        // 'a' is 1 byte, so Cyrillic і starts at offset 1
        assert_eq!(suspicious_chars[0].offset, 1);
    } else {
        panic!("Expected HomoglyphAnalysis evidence");
    }
}

#[test]
fn test_hex_bytes_format() {
    let evidence = analyze_hostname("і");
    if let Evidence::HomoglyphAnalysis {
        suspicious_chars, ..
    } = evidence
    {
        assert_eq!(suspicious_chars.len(), 1);
        // Cyrillic і is U+0456 = UTF-8 d1 96
        assert_eq!(suspicious_chars[0].hex_bytes, "d1 96");
    } else {
        panic!("Expected HomoglyphAnalysis evidence");
    }
}

#[test]
fn test_multiple_suspicious_chars() {
    let evidence = analyze_hostname("аррle");
    if let Evidence::HomoglyphAnalysis {
        suspicious_chars, ..
    } = evidence
    {
        // Should find Cyrillic а and two Cyrillic р
        assert_eq!(suspicious_chars.len(), 3);
    } else {
        panic!("Expected HomoglyphAnalysis evidence");
    }
}

#[test]
fn test_ascii_input_clean() {
    let evidence = analyze_hostname("example.com");
    if let Evidence::HomoglyphAnalysis {
        raw,
        escaped,
        suspicious_chars,
    } = evidence
    {
        assert_eq!(raw, "example.com");
        assert_eq!(escaped, "example.com");
        assert!(suspicious_chars.is_empty());
    } else {
        panic!("Expected HomoglyphAnalysis evidence");
    }
}

#[test]
fn test_uppercase_ascii_unchanged() {
    // Pure-ASCII input comes back unchanged, case included.
    let evidence = analyze_hostname("EXAMPLE.COM");
    if let Evidence::HomoglyphAnalysis { escaped, .. } = evidence {
        assert_eq!(escaped, "EXAMPLE.COM");
    } else {
        panic!("Expected HomoglyphAnalysis evidence");
    }
}

#[test]
fn test_codepoint_zero_padded() {
    // U+00E9 needs zero padding to four digits.
    let evidence = analyze_hostname("é");
    if let Evidence::HomoglyphAnalysis {
        suspicious_chars, ..
    } = evidence
    {
        assert_eq!(suspicious_chars.len(), 1);
        assert_eq!(suspicious_chars[0].codepoint, "U+00E9");
        assert_eq!(suspicious_chars[0].hex_bytes, "c3 a9");
    } else {
        panic!("Expected HomoglyphAnalysis evidence");
    }
}

#[test]
fn test_codepoint_wide_char() {
    // A character above U+FFFF keeps all of its hex digits.
    let evidence = analyze_hostname("\u{1F600}");
    if let Evidence::HomoglyphAnalysis {
        suspicious_chars, ..
    } = evidence
    {
        assert_eq!(suspicious_chars.len(), 1);
        assert_eq!(suspicious_chars[0].codepoint, "U+1F600");
        assert_eq!(suspicious_chars[0].hex_bytes, "f0 9f 98 80");
    } else {
        panic!("Expected HomoglyphAnalysis evidence");
    }
}

#[test]
fn test_script_fallback_description() {
    // A non-ASCII character outside the confusable table falls back to its
    // script name followed by "character".
    let evidence = analyze_hostname("日");
    if let Evidence::HomoglyphAnalysis {
        suspicious_chars, ..
    } = evidence
    {
        assert_eq!(suspicious_chars.len(), 1);
        assert_eq!(suspicious_chars[0].description, "Han character");
    } else {
        panic!("Expected HomoglyphAnalysis evidence");
    }
}

#[test]
fn test_analyze_twice_identical() {
    // The analysis is a pure function of its input.
    let a = analyze_hostname("раypal.com");
    let b = analyze_hostname("раypal.com");
    assert_eq!(a, b);
}

#[test]
fn test_empty_input() {
    let evidence = analyze_hostname("");
    if let Evidence::HomoglyphAnalysis {
        raw,
        escaped,
        suspicious_chars,
    } = evidence
    {
        assert_eq!(raw, "");
        assert_eq!(escaped, "");
        assert!(suspicious_chars.is_empty());
    } else {
        panic!("Expected HomoglyphAnalysis evidence");
    }
}

#[test]
fn test_evidence_serialization() {
    let evidence = analyze_hostname("tеst");
    let json = tirith_core::wire::evidence_json(&evidence);
    assert!(json.contains("homoglyph_analysis"));
    assert!(json.contains("suspicious_chars"));
    assert!(json.contains("character")); // renamed from char
}

#[test]
fn test_wire_form_is_valid_json() {
    let evidence = analyze_hostname("gооgle.com\"\\\u{1}");
    let json = tirith_core::wire::evidence_json(&evidence);
    let v: serde_json::Value = serde_json::from_str(&json).expect("emitted JSON must parse");
    let body = &v["homoglyph_analysis"];
    assert_eq!(body["raw"].as_str().unwrap(), "gооgle.com\"\\\u{1}");
    let chars = body["suspicious_chars"].as_array().unwrap();
    assert_eq!(chars.len(), 2);
    assert_eq!(chars[0]["character"].as_str().unwrap(), "о");
    assert_eq!(chars[0]["offset"].as_u64().unwrap(), 1);
}

#[test]
fn test_wire_form_matches_field_offsets() {
    let evidence = analyze_hostname("aіb");
    let json = tirith_core::wire::evidence_json(&evidence);
    let v: serde_json::Value = serde_json::from_str(&json).unwrap();
    let chars = v["homoglyph_analysis"]["suspicious_chars"].as_array().unwrap();
    assert_eq!(chars[0]["offset"].as_u64().unwrap(), 1);
    assert_eq!(chars[0]["codepoint"].as_str().unwrap(), "U+0456");
    assert_eq!(chars[0]["hex_bytes"].as_str().unwrap(), "d1 96");
}
