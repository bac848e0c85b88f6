use tirith_core::extract::{scan_bytes, tier1_scan, ScanContext};
use tirith_core::normalize::{normalize_path, NormalizeError};
use tirith_core::parse::{parse_url, ParseError};
use tirith_core::tokenize::{tokenize, ShellType, TokenKind};
use tirith_core::verdict::{aggregate, Evidence, Severity};

#[test]
fn test_tokenize_simple_pipe() {
    let r = tokenize("ls | wc", ShellType::Posix);
    let kinds: Vec<TokenKind> = r.tokens.iter().map(|t| t.kind).collect();
    assert_eq!(
        kinds,
        vec![TokenKind::Word, TokenKind::Operator, TokenKind::Word]
    );
    assert!(!r.unterminated_quote);
    assert!(!r.unterminated_subst);
}

#[test]
fn test_tokenize_quoted_operator_not_top_level() {
    // The pipe inside single quotes must not be classified as an operator.
    let r = tokenize("echo 'a|b'", ShellType::Posix);
    assert!(r.tokens.iter().all(|t| t.kind != TokenKind::Operator));
    assert!(r
        .tokens
        .iter()
        .any(|t| t.kind == TokenKind::SingleQuoted && t.start == 5 && t.end == 10));
}

#[test]
fn test_tokenize_unterminated_quote() {
    let r = tokenize("echo 'abc", ShellType::Posix);
    assert!(r.unterminated_quote);
    assert!(r
        .tokens
        .iter()
        .any(|t| t.kind == TokenKind::UnterminatedQuote && t.start == 5));
}

#[test]
fn test_tokenize_substitution_boundaries() {
    let r = tokenize("echo $(ls)", ShellType::Posix);
    assert!(r.tokens.iter().any(|t| t.kind == TokenKind::SubstOpen));
    assert!(r.tokens.iter().any(|t| t.kind == TokenKind::SubstClose));
    assert!(!r.unterminated_subst);
}

#[test]
fn test_tokenize_unterminated_substitution() {
    let r = tokenize("echo $(ls", ShellType::Posix);
    assert!(r.unterminated_subst);
}

#[test]
fn test_tokenize_powershell_backtick_escape() {
    // In PowerShell the backtick escapes the pipe: no operator results.
    let r = tokenize("a`|b", ShellType::PowerShell);
    assert!(r.tokens.iter().all(|t| t.kind != TokenKind::Operator));
    // In POSIX the same text has a backslash-free pipe: an operator.
    let r2 = tokenize("a`|b", ShellType::Posix);
    assert!(r2.tokens.iter().any(|t| t.kind == TokenKind::Operator));
}

#[test]
fn test_tokenize_posix_backtick_substitution() {
    let r = tokenize("echo `date`", ShellType::Posix);
    assert!(r.tokens.iter().any(|t| t.kind == TokenKind::SubstOpen));
    assert!(r.tokens.iter().any(|t| t.kind == TokenKind::SubstClose));
}

#[test]
fn test_normalize_resolves_dots() {
    assert_eq!(normalize_path("/a/b/../c").unwrap(), "/a/c");
    assert_eq!(normalize_path("a/./b").unwrap(), "a/b");
    assert_eq!(normalize_path("/a/b/./../c/d/..").unwrap(), "/a/c");
}

#[test]
fn test_normalize_escape_above_root() {
    assert_eq!(
        normalize_path("/a/../../b"),
        Err(NormalizeError::EscapesRoot)
    );
    assert_eq!(normalize_path("/.."), Err(NormalizeError::EscapesRoot));
}

#[test]
fn test_normalize_relative_keeps_dotdot() {
    assert_eq!(normalize_path("../a").unwrap(), "../a");
    assert_eq!(normalize_path("a/../../b").unwrap(), "../b");
}

#[test]
fn test_normalize_edges() {
    assert_eq!(normalize_path("").unwrap(), ".");
    assert_eq!(normalize_path("/").unwrap(), "/");
    assert_eq!(normalize_path(".").unwrap(), ".");
    assert_eq!(normalize_path("a//b").unwrap(), "a/b");
}

#[test]
fn test_parse_url_full() {
    let u = parse_url("https://example.com:8080/path?q=1#frag").unwrap();
    assert_eq!(u.scheme, "https");
    assert_eq!(u.host, "example.com");
    assert_eq!(u.port, Some(8080));
    assert_eq!(u.path, "/path");
    assert_eq!(u.query.as_deref(), Some("q=1"));
    assert_eq!(u.fragment.as_deref(), Some("frag"));
}

#[test]
fn test_parse_url_no_port_no_path() {
    let u = parse_url("http://host").unwrap();
    assert_eq!(u.scheme, "http");
    assert_eq!(u.host, "host");
    assert_eq!(u.port, None);
    assert_eq!(u.path, "");
    assert!(u.query.is_none());
    assert!(u.fragment.is_none());
}

#[test]
fn test_parse_url_rejects_userinfo() {
    assert_eq!(
        parse_url("https://user@example.com/"),
        Err(ParseError::UserinfoPresent)
    );
}

#[test]
fn test_parse_url_rejects_backslash_and_space() {
    assert_eq!(
        parse_url("https:\\\\example.com"),
        Err(ParseError::ForbiddenChar)
    );
    assert_eq!(
        parse_url("https://exa mple.com"),
        Err(ParseError::ForbiddenChar)
    );
}

#[test]
fn test_parse_url_errors() {
    assert_eq!(parse_url("no-url-here"), Err(ParseError::NoScheme));
    assert_eq!(parse_url("https://"), Err(ParseError::EmptyHost));
    assert_eq!(parse_url("https://:8080/"), Err(ParseError::EmptyHost));
    assert_eq!(
        parse_url("http://host:99999"),
        Err(ParseError::BadPort)
    );
    assert_eq!(parse_url("http://host:12ab"), Err(ParseError::BadPort));
    assert_eq!(
        parse_url("1http://example.com/"),
        Err(ParseError::BadScheme)
    );
}

#[test]
fn test_scan_bytes_findings() {
    let data = b"ab\x00c\x1b[31m\x01";
    let r = scan_bytes(data);
    assert_eq!(r.len(), 3);
    assert_eq!(r[0], Evidence::EmbeddedNul { offset: 2 });
    assert_eq!(r[1], Evidence::AnsiEscape { offset: 4 });
    assert_eq!(r[2], Evidence::ControlByte { offset: 9, value: 1 });
}

#[test]
fn test_scan_bytes_clean() {
    let r = scan_bytes(b"plain text\twith tabs\n");
    assert!(r.is_empty());
}

#[test]
fn test_tier1_depth_exceeded() {
    // Nesting far beyond the rescan bound terminates with a depth marker.
    let mut s = String::new();
    for _ in 0..50 {
        s.push_str("$(");
    }
    s.push_str("ls");
    for _ in 0..50 {
        s.push(')');
    }
    let r = tier1_scan(&s, ScanContext::Exec);
    assert!(r
        .iter()
        .any(|e| matches!(e, Evidence::DepthExceeded { .. })));
}

#[test]
fn test_tier1_paste_flags_substitution() {
    let r = tier1_scan("echo $(ls)", ScanContext::Paste);
    assert!(r
        .iter()
        .any(|e| matches!(e, Evidence::NestedSubstitution { .. })));
    assert!(!r.iter().any(|e| matches!(e, Evidence::DepthExceeded { .. })));
}

#[test]
fn test_tier1_url_homoglyph_pipeline() {
    // A URL with Cyrillic о in the host: the host's escaped form must carry
    // an xn-- label.
    let r = tier1_scan("curl https://gооgle.com/download", ScanContext::Exec);
    let mut found = false;
    for e in &r {
        if let Evidence::HomoglyphAnalysis {
            raw,
            escaped,
            suspicious_chars,
        } = e
        {
            assert_eq!(raw, "gооgle.com");
            assert!(escaped.contains("xn--"));
            assert_eq!(suspicious_chars.len(), 2);
            found = true;
        }
    }
    assert!(found, "expected homoglyph evidence for the URL host");
}

#[test]
fn test_tier1_unterminated_quote_flagged() {
    let r = tier1_scan("echo 'oops", ScanContext::Exec);
    assert!(r
        .iter()
        .any(|e| matches!(e, Evidence::UnterminatedQuote { offset: 5 })));
}

#[test]
fn test_tier1_unterminated_substitution_flagged() {
    let r = tier1_scan("echo $(ls", ScanContext::Exec);
    assert!(r
        .iter()
        .any(|e| matches!(e, Evidence::UnterminatedSubstitution)));
}

#[test]
fn test_tier1_nonascii_word_analyzed() {
    let r = tier1_scan("ping аррle.com", ScanContext::Paste);
    let mut found = false;
    for e in &r {
        if let Evidence::HomoglyphAnalysis {
            raw,
            suspicious_chars,
            ..
        } = e
        {
            assert_eq!(raw, "аррle.com");
            assert_eq!(suspicious_chars.len(), 3);
            found = true;
        }
    }
    assert!(found, "expected homoglyph evidence for the bare word");
}

#[test]
fn test_tier1_traversal() {
    let r = tier1_scan("cat /tmp/../../etc/passwd", ScanContext::Exec);
    assert!(r
        .iter()
        .any(|e| matches!(e, Evidence::TraversalEscape { .. })));
}

#[test]
fn test_tier1_malformed_url() {
    let r = tier1_scan("open https://user@example.com/x", ScanContext::Paste);
    assert!(r.iter().any(|e| matches!(e, Evidence::MalformedUrl { .. })));
}

#[test]
fn test_aggregate_max_severity() {
    let ev = vec![
        Evidence::ControlByte { offset: 0, value: 1 },
        Evidence::EmbeddedNul { offset: 3 },
        Evidence::AnsiEscape { offset: 5 },
    ];
    let v = aggregate(ev.clone());
    assert_eq!(v.severity, Severity::High);
    assert_eq!(v.evidence, ev);
}

#[test]
fn test_aggregate_empty_is_info() {
    let v = aggregate(Vec::new());
    assert_eq!(v.severity, Severity::Info);
    assert!(v.evidence.is_empty());
}

#[test]
fn test_aggregate_idempotent() {
    let ev = vec![
        Evidence::AnsiEscape { offset: 1 },
        Evidence::TraversalEscape { raw: "../x".to_string() },
    ];
    let v1 = aggregate(ev.clone());
    let v2 = aggregate(ev);
    assert_eq!(v1, v2);
}

#[test]
fn test_aggregate_never_averages() {
    // Many weak findings must not dilute one strong finding.
    let mut ev = vec![Evidence::EmbeddedNul { offset: 0 }];
    for i in 0..20 {
        ev.push(Evidence::ControlByte { offset: i, value: 2 });
    }
    let v = aggregate(ev);
    assert_eq!(v.severity, Severity::High);
}
