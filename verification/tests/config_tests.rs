use balance_checker::Config;

#[test]
fn test_load_config() {
    let config = Config::load().unwrap();
    assert!(config.get_chain("sepolia").is_some());
    assert!(config.get_chain("solana-devnet").is_some());
}

#[test]
fn test_sepolia_config() {
    let config = Config::load().unwrap();
    let sepolia = config.get_chain("sepolia").unwrap();
    assert_eq!(sepolia.chain_type, "evm");
    assert_eq!(sepolia.native_token.decimals, 18);
    assert!(sepolia.tokens.iter().any(|(symbol, _)| symbol == "USDC"));
    assert!(sepolia.tokens.iter().any(|(symbol, _)| symbol == "EURC"));
}

#[test]
fn test_solana_config() {
    let config = Config::load().unwrap();
    let solana = config.get_chain("solana-devnet").unwrap();
    assert_eq!(solana.chain_type, "solana");
    assert_eq!(solana.native_token.decimals, 9);
    assert!(solana.tokens.iter().any(|(symbol, _)| symbol == "USDC"));
}

#[test]
fn test_config_loads() {
    let config = Config::load();
    assert!(config.is_ok());
}

#[test]
fn test_get_chain_unknown_is_none() {
    let config = Config::load().unwrap();
    assert!(config.get_chain("not-a-real-chain").is_none());
}
