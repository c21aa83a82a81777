use balance_checker::{
    aggregate_outcomes, get_all_balances, plan_balance_queries, Balance, BalanceError,
    ChainConfig, ChainKind, ChainProvider, Config, Token, TokenInfo,
};

fn fake_config(chain_type: &str) -> Config {
    let chain = ChainConfig {
        chain_type: chain_type.to_string(),
        name: "Fake Chain".to_string(),
        rpc: "https://rpc.example".to_string(),
        chain_id: None,
        canister_id: None,
        native_token: TokenInfo { address: None, symbol: Some("FAKE".to_string()), decimals: 8 },
        tokens: vec![
            (
                "TK1".to_string(),
                TokenInfo {
                    address: Some("0xaaa".to_string()),
                    symbol: Some("TK1".to_string()),
                    decimals: 6,
                },
            ),
            (
                "TK2".to_string(),
                TokenInfo { address: None, symbol: Some("TK2".to_string()), decimals: 6 },
            ),
            (
                "TK3".to_string(),
                TokenInfo {
                    address: Some("0xccc".to_string()),
                    symbol: Some("TK3".to_string()),
                    decimals: 2,
                },
            ),
        ],
    };
    Config { chains: vec![("fake".to_string(), chain)] }
}

#[test]
fn test_plan_unknown_chain() {
    let config = Config::load().unwrap();
    let r = plan_balance_queries(&config, "not-a-real-chain");
    assert!(matches!(r, Err(BalanceError::UnknownChain(ref n)) if n == "not-a-real-chain"));
}

#[test]
fn test_plan_unsupported_chain_type() {
    let config = fake_config("cosmos");
    let r = plan_balance_queries(&config, "fake");
    assert!(matches!(r, Err(BalanceError::UnsupportedChainType(ref t)) if t == "cosmos"));
}

#[test]
fn test_plan_sepolia() {
    let config = Config::load().unwrap();
    let plan = plan_balance_queries(&config, "sepolia").unwrap();
    assert_eq!(plan.kind, ChainKind::Evm);
    assert_eq!(plan.rpc, "https://ethereum-sepolia-rpc.publicnode.com");
    assert_eq!(plan.queries.len(), 2);
    let Token::Erc20 { address, symbol, decimals } = &plan.queries[0];
    assert_eq!(symbol, "USDC");
    assert_eq!(address, "0x1c7D4B196Cb0C7B01d743Fbc6116a902379C7238");
    assert_eq!(*decimals, 6);
}

#[test]
fn test_plan_solana_devnet() {
    let config = Config::load().unwrap();
    let plan = plan_balance_queries(&config, "solana-devnet").unwrap();
    assert_eq!(plan.kind, ChainKind::Solana);
    assert_eq!(plan.rpc, "https://api.devnet.solana.com");
    assert_eq!(plan.queries.len(), 2);
}

#[test]
fn test_plan_skips_tokens_without_address() {
    let config = fake_config("evm");
    let plan = plan_balance_queries(&config, "fake").unwrap();
    // TK2 has no contract address and is not queried.
    assert_eq!(plan.queries.len(), 2);
    let Token::Erc20 { symbol, .. } = &plan.queries[0];
    assert_eq!(symbol, "TK1");
    let Token::Erc20 { symbol, .. } = &plan.queries[1];
    assert_eq!(symbol, "TK3");
}

/// A provider stub that fails on a chosen token symbol.
struct StubProvider {
    fail_on: Option<String>,
}

impl ChainProvider for StubProvider {
    fn get_native_balance(&self, _address: &str) -> Result<Balance, BalanceError> {
        Ok(Balance::new("NAT".to_string(), "5".to_string(), 0))
    }

    fn get_token_balance(
        &self,
        _address: &str,
        token: &Token,
    ) -> Result<Balance, BalanceError> {
        let Token::Erc20 { symbol, decimals, .. } = token;
        if let Some(bad) = &self.fail_on {
            if symbol == bad {
                return Err(BalanceError::ProviderUnavailable);
            }
        }
        Ok(Balance::new(symbol.clone(), "100".to_string(), *decimals))
    }
}

fn three_tokens() -> Vec<Token> {
    vec![
        Token::Erc20 { address: "a1".to_string(), symbol: "TK1".to_string(), decimals: 2 },
        Token::Erc20 { address: "a2".to_string(), symbol: "TK2".to_string(), decimals: 2 },
        Token::Erc20 { address: "a3".to_string(), symbol: "TK3".to_string(), decimals: 2 },
    ]
}

#[test]
fn test_native_first_ordering() {
    let stub = StubProvider { fail_on: None };
    let balances = get_all_balances(&stub, "addr", &three_tokens()).unwrap();
    assert_eq!(balances.len(), 4);
    assert_eq!(balances[0].token, "NAT");
    assert_eq!(balances[1].token, "TK1");
    assert_eq!(balances[2].token, "TK2");
    assert_eq!(balances[3].token, "TK3");
}

#[test]
fn test_fail_fast_on_second_token() {
    let stub = StubProvider { fail_on: Some("TK2".to_string()) };
    let r = get_all_balances(&stub, "addr", &three_tokens());
    // The aggregate fails outright: none of the three tokens appears.
    assert!(matches!(r, Err(BalanceError::ProviderUnavailable)));
}

#[test]
fn test_native_entry_with_empty_token_list() {
    let stub = StubProvider { fail_on: None };
    let balances = get_all_balances(&stub, "addr", &Vec::new()).unwrap();
    assert_eq!(balances.len(), 1);
    assert_eq!(balances[0].token, "NAT");
}

#[test]
fn test_aggregate_outcomes_all_ok() {
    let native = Ok(Balance::new("NAT".to_string(), "5".to_string(), 0));
    let tokens = vec![
        Ok(Balance::new("TK1".to_string(), "1".to_string(), 0)),
        Ok(Balance::new("TK2".to_string(), "2".to_string(), 0)),
    ];
    let out = aggregate_outcomes(native, tokens).unwrap();
    assert_eq!(out.len(), 3);
    assert_eq!(out[0].token, "NAT");
    assert_eq!(out[1].token, "TK1");
    assert_eq!(out[2].token, "TK2");
}

#[test]
fn test_aggregate_outcomes_fails_with_first_error() {
    let native = Ok(Balance::new("NAT".to_string(), "5".to_string(), 0));
    let tokens = vec![
        Ok(Balance::new("TK1".to_string(), "1".to_string(), 0)),
        Err(BalanceError::DecodeFailure),
        Err(BalanceError::ProviderUnavailable),
    ];
    let r = aggregate_outcomes(native, tokens);
    assert!(matches!(r, Err(BalanceError::DecodeFailure)));
}

#[test]
fn test_aggregate_outcomes_native_error_wins() {
    let native: Result<Balance, BalanceError> = Err(BalanceError::InvalidAddress);
    let tokens = vec![Err(BalanceError::ProviderUnavailable)];
    let r = aggregate_outcomes(native, tokens);
    assert!(matches!(r, Err(BalanceError::InvalidAddress)));
}
