use simtrack::market_files::{is_dummy_market, market_start_file_targets};

#[test]
fn placeholder_markets_are_recognized() {
    assert!(is_dummy_market("dummy_eth_fallba"));
    assert!(is_dummy_market("dummy_"));
    assert!(!is_dummy_market("dummy"));
    assert!(!is_dummy_market("0xdummy_"));
    assert!(!is_dummy_market("0x1234567890abcdef1234"));
}

#[test]
fn market_start_targets_skip_placeholders() {
    let real = "0x1234567890abcdef1234567890abcdef";
    assert_eq!(market_start_file_targets(real, real, real, real), (true, true, true, true));
    assert_eq!(
        market_start_file_targets("dummy_eth_fallba", "short", "dummy_solana_fal", "dummy_xrp_fallba"),
        (false, true, false, false)
    );
    assert_eq!(
        market_start_file_targets("0123456789abcdef", "0123456789abcdef", "0123456789abcdef", "0123456789abcdef"),
        (true, true, true, true)
    );
    assert_eq!(market_start_file_targets(real, "dummy_btc_fallba", real, real), (true, false, true, true));
    assert_eq!(market_start_file_targets(real, "dummy_btc_fallback_x", real, real), (true, false, true, true));
}
