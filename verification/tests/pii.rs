use semantic_router::pii::{
    detectors, push_findings, redact, redact_with, scan, scan_with, try_redact, try_scan, PiiFinding,
};

#[test]
fn detects_email() {
    let findings = scan("reach me at jane.doe@example.com please");
    assert!(findings
        .iter()
        .any(|f| f.kind == "email" && f.matched == "jane.doe@example.com"));
}

#[test]
fn detects_ssn() {
    let findings = scan("my ssn is 123-45-6789");
    assert!(findings
        .iter()
        .any(|f| f.kind == "ssn" && f.matched == "123-45-6789"));
}

#[test]
fn detects_credit_card() {
    let findings = scan("card number 4111 1111 1111 1111 expires soon");
    assert!(findings.iter().any(|f| f.kind == "credit_card"));
}

#[test]
fn clean_text_has_no_findings() {
    let findings = scan("Write a Python function to sort a list");
    assert!(findings.is_empty());
}

#[test]
fn redact_replaces_email_and_reports_finding() {
    let (redacted, findings) = redact("contact jane.doe@example.com about this");
    assert_eq!(redacted, "contact [REDACTED_EMAIL] about this");
    assert_eq!(findings.len(), 1);
    assert_eq!(findings[0].kind, "email");
}

#[test]
fn redact_handles_multiple_pii_kinds() {
    let (redacted, findings) =
        redact("email jane@example.com or call 555-123-4567, ssn 123-45-6789");
    assert!(redacted.contains("[REDACTED_EMAIL]"));
    assert!(redacted.contains("[REDACTED_SSN]"));
    assert!(findings.len() >= 2);
}

#[test]
fn every_pattern_compiles() {
    let list = detectors().unwrap();
    let kinds: Vec<&str> = list.iter().map(|d| d.kind).collect();
    assert_eq!(kinds, ["email", "ssn", "credit_card", "phone", "ip_address"]);
}

#[test]
fn scan_lists_matches_kind_after_kind() {
    let text = "10.0.0.1 then a@b.co, 555-123-4567 and c@d.org";
    let pairs: Vec<(&str, String)> =
        scan(text).into_iter().map(|f| (f.kind, f.matched)).collect();
    assert_eq!(
        pairs,
        [
            ("email", "a@b.co".to_string()),
            ("email", "c@d.org".to_string()),
            ("phone", "555-123-4567".to_string()),
            ("ip_address", "10.0.0.1".to_string()),
        ]
    );
}

#[test]
fn redact_replaces_each_kind_by_its_placeholder() {
    let text = "a@b.co 123-45-6789 4111-1111-1111-1111 555-123-4567 10.0.0.1";
    let (redacted, findings) = redact(text);
    assert_eq!(
        redacted,
        "[REDACTED_EMAIL] [REDACTED_SSN] [REDACTED_CREDIT_CARD] [REDACTED_PHONE] [REDACTED_IP_ADDRESS]"
    );
    assert_eq!(findings.len(), 5);
    assert_eq!(findings[2].matched, "4111-1111-1111-1111");
}

#[test]
fn redaction_keeps_what_stands_between_matches() {
    let (redacted, _) = redact("äö a@b.co, ü; c@d.org ß");
    assert_eq!(redacted, "äö [REDACTED_EMAIL], ü; [REDACTED_EMAIL] ß");
}

#[test]
fn redaction_of_clean_text_changes_nothing() {
    let text = "Write a Python function to sort a list";
    assert!(scan(text).is_empty());
    let (redacted, findings) = redact(text);
    assert_eq!(redacted, text);
    assert!(findings.is_empty());
}

#[test]
fn redaction_finds_something_where_a_scan_does() {
    for text in ["call 555-123-4567", "at 10.0.0.1", "a@b.co", "nothing here"] {
        assert_eq!(scan(text).is_empty(), redact(text).1.is_empty());
    }
}

#[test]
fn a_later_detector_searches_what_earlier_ones_left() {
    let text = "1.2.3.4@example.com";
    let kinds: Vec<&str> = scan(text).iter().map(|f| f.kind).collect();
    assert_eq!(kinds, ["email", "ip_address"]);
    let (redacted, findings) = redact(text);
    assert_eq!(redacted, "[REDACTED_EMAIL]");
    assert_eq!(findings.len(), 1);
}

#[test]
fn compiled_detectors_can_be_kept() {
    let list = detectors().unwrap();
    let text = "write to jane@example.com";
    assert_eq!(scan_with(&list, text), scan(text));
    assert_eq!(redact_with(&list, text), redact(text));
    assert_eq!(try_scan(text), Some(scan(text)));
    assert_eq!(try_redact(text), Some(redact(text)));
}

#[test]
fn every_finding_of_a_scan_is_a_piece_of_the_text() {
    let text = "ä 10.0.0.1, a@b.co; 123-45-6789 / 4111 1111 1111 1111";
    let findings = scan(text);
    assert_eq!(findings.len(), 4);
    for finding in findings {
        assert!(text.contains(&finding.matched));
    }
}

#[test]
fn emails_are_found_alike_by_scan_and_redaction() {
    let text = "1.2.3.4@example.com, a@b.co and 10.0.0.1";
    let emails = |list: Vec<PiiFinding>| -> Vec<String> {
        list.into_iter().filter(|f| f.kind == "email").map(|f| f.matched).collect()
    };
    assert_eq!(emails(scan(text)), ["1.2.3.4@example.com", "a@b.co"]);
    assert_eq!(emails(redact(text).1), ["1.2.3.4@example.com", "a@b.co"]);
}

#[test]
fn matches_become_findings_in_their_order() {
    let mut findings = vec![PiiFinding { kind: "ssn", matched: "x".to_string() }];
    push_findings(&mut findings, "email", vec!["a".to_string(), "b".to_string()]);
    let pairs: Vec<(&str, &str)> =
        findings.iter().map(|f| (f.kind, f.matched.as_str())).collect();
    assert_eq!(pairs, [("ssn", "x"), ("email", "a"), ("email", "b")]);
}

#[test]
fn redaction_replaces_findings_and_nothing_else() {
    let text = "ä 10.0.0.1, a@b.co; 123-45-6789 / [x]";
    let (redacted, findings) = redact(text);
    assert_eq!(redacted, "ä [REDACTED_IP_ADDRESS], [REDACTED_EMAIL]; [REDACTED_SSN] / [x]");
    assert!(findings.iter().all(|f| text.contains(&f.matched)));
    let restored = redacted
        .replace("[REDACTED_IP_ADDRESS]", "10.0.0.1")
        .replace("[REDACTED_EMAIL]", "a@b.co")
        .replace("[REDACTED_SSN]", "123-45-6789");
    assert_eq!(restored, text);
}

#[test]
fn redaction_changes_the_text_exactly_where_it_finds_something() {
    for text in ["", "plain [text]", "a@b.co", "[REDACTED_EMAIL]", "x 10.0.0.1 y"] {
        let (redacted, findings) = redact(text);
        assert_eq!(redacted == text, findings.is_empty());
        assert_eq!(findings.is_empty(), scan(text).is_empty());
    }
}

#[test]
fn redacting_again_changes_nothing() {
    let (redacted, _) = redact("a@b.co 123-45-6789 4111-1111-1111-1111 555-123-4567 10.0.0.1");
    assert!(scan(&redacted).is_empty());
    assert_eq!(redact(&redacted), (redacted.clone(), vec![]));
}
