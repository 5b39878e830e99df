use eopkginst::digest::{matches_digest, to_hex};
use eopkginst::integrity::{judge, VerificationResult};

#[test]
fn hex_spelling_is_lower_case() {
    assert_eq!(to_hex(&[0x00, 0x0f, 0xa5, 0xff]), "000fa5ff");
    assert_eq!(to_hex(&[]), "");
}

#[test]
fn digest_comparison_ignores_case() {
    assert!(matches_digest("00AbFf", &[0x00, 0xab, 0xff]));
    assert!(matches_digest("00abff", &[0x00, 0xab, 0xff]));
    assert!(!matches_digest("00abfe", &[0x00, 0xab, 0xff]));
    assert!(!matches_digest("00ab", &[0x00, 0xab, 0xff]));
    assert!(!matches_digest("00abffff", &[0x00, 0xab, 0xff]));
    assert!(!matches_digest("00ab\u{ff}f", &[0x00, 0xab, 0xff]));
    assert!(!matches_digest("00abfg", &[0x00, 0xab, 0xff]));
    assert!(matches_digest("", &[]));
}

#[test]
fn mismatch_reports_both_digests() {
    assert_eq!(judge("0A1b", &[0x0a, 0x1b]), VerificationResult::Match);
    assert_eq!(
        judge("0A1C", &[0x0a, 0x1b]),
        VerificationResult::Mismatch { expected: "0A1C".to_string(), actual: "0a1b".to_string() }
    );
}
