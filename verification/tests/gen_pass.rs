use rcli::process_genpass;

const UPPER: &str = "ABCDEFGHJKLMNPQRSTUVWXYZ";
const LOWER: &str = "abcdefghijkmnopqrstuvwxyz";
const NUMBER: &str = "123456789";
const SYMBOL: &str = "!@#$%^&*()-_=+[]{}|;:,.<>?/~";

#[test]
fn password_has_requested_length_and_all_classes() {
    let p = process_genpass(16, true, true, true, true).unwrap();
    assert_eq!(p.len(), 16);
    assert!(p.chars().all(|c| {
        UPPER.contains(c) || LOWER.contains(c) || NUMBER.contains(c) || SYMBOL.contains(c)
    }));
    assert!(p.chars().any(|c| UPPER.contains(c)));
    assert!(p.chars().any(|c| LOWER.contains(c)));
    assert!(p.chars().any(|c| NUMBER.contains(c)));
    assert!(p.chars().any(|c| SYMBOL.contains(c)));
}

#[test]
fn password_draws_only_from_enabled_classes() {
    let p = process_genpass(32, false, true, true, false).unwrap();
    assert_eq!(p.len(), 32);
    assert!(p.chars().all(|c| LOWER.contains(c) || NUMBER.contains(c)));
    assert!(p.chars().any(|c| LOWER.contains(c)));
    assert!(p.chars().any(|c| NUMBER.contains(c)));
}

#[test]
fn minimal_password_covers_each_enabled_class_once() {
    let p = process_genpass(4, true, true, true, true).unwrap();
    assert_eq!(p.len(), 4);
    assert!(p.chars().any(|c| UPPER.contains(c)));
    assert!(p.chars().any(|c| LOWER.contains(c)));
    assert!(p.chars().any(|c| NUMBER.contains(c)));
    assert!(p.chars().any(|c| SYMBOL.contains(c)));
}

#[test]
fn look_alike_characters_never_appear() {
    for _ in 0..8 {
        let p = process_genpass(64, true, true, true, false).unwrap();
        assert!(!p.contains('I') && !p.contains('O') && !p.contains('l') && !p.contains('0'));
    }
}

#[test]
fn empty_password_when_nothing_is_asked() {
    let p = process_genpass(0, false, false, false, false).unwrap();
    assert_eq!(p, "");
}
