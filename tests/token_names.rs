use tfn_dex::token::{lp_names_from_tickers, lp_token_names, same_token, ticker_with, token_ticker};

fn b(s: &str) -> Vec<u8> {
    s.as_bytes().to_vec()
}

#[test]
fn ticker_strips_random_suffix() {
    assert_eq!(token_ticker(&b("WEGLD-bd4d79")), b("WEGLD"));
    assert_eq!(token_ticker(&b("TKN-123456")), b("TKN"));
}

#[test]
fn ticker_of_malformed_identifier_is_whole() {
    assert_eq!(token_ticker(&b("USDC")), b("USDC"));
    assert_eq!(token_ticker(&b("tkn-123456")), b("tkn-123456"));
    assert_eq!(ticker_with(&b("TKN-123456"), false), b("TKN-123456"));
    assert_eq!(ticker_with(&b("TKN-123456"), true), b("TKN"));
}

#[test]
fn lp_names_of_short_tickers() {
    assert_eq!(lp_token_names(&b("TKN"), &b("USDC")), (b("TFNTKNUSDCLP"), b("TKNUSDC")));
    assert_eq!(
        lp_token_names(&b("TKN-123456"), &b("USDC-c76f1f")),
        (b("TFNTKNUSDCLP"), b("TKNUSDC"))
    );
}

#[test]
fn lp_names_are_truncated() {
    assert_eq!(
        lp_token_names(&b("ABCDEFGHIJ-123456"), &b("KLMNOPQRST-abcdef")),
        (b("TFNABCDEFGHIJKLMNOLP"), b("ABCDEFGHIJ"))
    );
    assert_eq!(
        lp_names_from_tickers(&b("ABCDEFGH"), &b("XYZ")),
        (b("TFNABCDEFGHXYZLP"), b("ABCDEFGHXY"))
    );
}

#[test]
fn same_token_compares_bytes() {
    assert!(same_token(&b("USDC"), &b("USDC")));
    assert!(!same_token(&b("USDC"), &b("USDT")));
    assert!(!same_token(&b("USDC"), &b("USD")));
}
