//! Which factor approves.
use sigil::factor::{dev_insecure_requested, resolve, ArmInputs, Factor, DEV_INSECURE_WARNING};

#[test]
fn phone_is_the_top_factor_even_with_dev_insecure() {
    let f = resolve(&ArmInputs { dev_insecure: true, phone_paired: true, biometric: true });
    assert_eq!(f, Factor::Phone);
    assert!(f.is_real());
}

#[test]
fn biometric_wins_when_no_phone() {
    let f = resolve(&ArmInputs { dev_insecure: true, phone_paired: false, biometric: true });
    assert_eq!(f, Factor::Biometric);
    assert!(f.is_real());
}

#[test]
fn dev_insecure_only_applies_without_a_real_factor() {
    let f = resolve(&ArmInputs { dev_insecure: true, phone_paired: false, biometric: false });
    assert_eq!(f, Factor::DevInsecure);
    assert!(!f.is_real());
}

#[test]
fn no_factor_and_no_dev_flag_is_the_fail_closed_default() {
    let f = resolve(&ArmInputs { dev_insecure: false, phone_paired: false, biometric: false });
    assert_eq!(f, Factor::NoFactor);
    assert!(!f.is_real());
}

#[test]
fn dev_insecure_warning_names_the_same_uid_risk() {
    assert!(DEV_INSECURE_WARNING.contains("--dev-insecure"));
    assert!(DEV_INSECURE_WARNING.contains("same-UID self-approval"));
    assert!(DEV_INSECURE_WARNING.contains("ONLY for local development"));
    assert!(DEV_INSECURE_WARNING.lines().count() > 5);
    let boxed = DEV_INSECURE_WARNING.lines().filter(|l| !l.is_empty());
    for line in boxed {
        assert_eq!(line.len(), 66, "{line}");
    }
}

#[test]
fn dev_insecure_flag_is_detected_from_args() {
    assert!(dev_insecure_requested(&["--dev-insecure".to_string()], None));
    assert!(dev_insecure_requested(&["daemon".to_string(), "--dev-insecure".to_string()], None));
    assert!(!dev_insecure_requested(&["daemon".to_string()], None));
}

#[test]
fn dev_insecure_is_detected_from_the_environment() {
    assert!(dev_insecure_requested(&[], Some("1")));
    assert!(dev_insecure_requested(&[], Some("true")));
    assert!(!dev_insecure_requested(&[], Some("TRUE")));
    assert!(!dev_insecure_requested(&[], Some("0")));
    assert!(!dev_insecure_requested(&[], Some("")));
}

#[test]
fn each_factor_has_its_label() {
    assert_eq!(Factor::Phone.label(), "paired phone (sealed remote approval)");
    assert_eq!(Factor::Biometric.label(), "hardware biometric (Secure Enclave)");
    assert_eq!(Factor::DevInsecure.label(), "DEV-INSECURE (same-UID self-approval)");
    assert_eq!(Factor::NoFactor.label(), "none, gated requests fail closed");
}
