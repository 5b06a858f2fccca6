use rcli::process::jwt::exp_duration_seconds;

#[test]
fn expiry_units_convert_to_seconds() {
    assert_eq!(exp_duration_seconds("14d"), Some(14 * 24 * 60 * 60));
    assert_eq!(exp_duration_seconds("2h"), Some(7200));
    assert_eq!(exp_duration_seconds("30m"), Some(1800));
    assert_eq!(exp_duration_seconds("45s"), Some(45));
    assert_eq!(exp_duration_seconds("100"), Some(100));
    assert_eq!(exp_duration_seconds("0"), Some(0));
}

#[test]
fn malformed_expiries_are_rejected() {
    assert_eq!(exp_duration_seconds(""), None);
    assert_eq!(exp_duration_seconds("d"), None);
    assert_eq!(exp_duration_seconds("12x"), None);
    assert_eq!(exp_duration_seconds("1.5h"), None);
    assert_eq!(exp_duration_seconds("-3d"), None);
    assert_eq!(exp_duration_seconds("9999999999999d"), None);
}
