use melminter::units::parse_coin_amount;

#[test]
fn default_loss_tolerance() {
    assert_eq!(parse_coin_amount("0.025"), Some(25_000));
}

#[test]
fn whole_and_fractional_amounts() {
    assert_eq!(parse_coin_amount("5"), Some(5_000_000));
    assert_eq!(parse_coin_amount("1.5"), Some(1_500_000));
    assert_eq!(parse_coin_amount("0.000001"), Some(1));
    assert_eq!(parse_coin_amount("12.345678"), Some(12_345_678));
}

#[test]
fn malformed_amounts() {
    assert_eq!(parse_coin_amount(""), None);
    assert_eq!(parse_coin_amount("1."), None);
    assert_eq!(parse_coin_amount(".5"), None);
    assert_eq!(parse_coin_amount("1.1234567"), None);
    assert_eq!(parse_coin_amount("abc"), None);
    assert_eq!(parse_coin_amount("1.2.3"), None);
    assert_eq!(parse_coin_amount("-1"), None);
}

#[test]
fn amounts_too_large() {
    assert_eq!(parse_coin_amount("340282366920938463463374607431768211455"), None);
    assert_eq!(parse_coin_amount("340282366920938463463374607431768"), Some(340282366920938463463374607431768_000000));
}
