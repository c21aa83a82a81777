use base64::Engine;

use balance_checker::{
    eth_native_balance, hex_to_decimal, sol_native_balance, sum_token_account_amounts,
    token_balance_from_accounts, token_balance_from_amount, BalanceError, EthereumProvider,
    SolanaProvider, Token, TokenAccountData,
};

/// A minimal valid SPL token account: 165 bytes, the amount at offset 64 in
/// little endian, and the account-state byte at offset 108 set to initialized.
fn spl_account_bytes(amount: u64) -> Vec<u8> {
    let mut data = vec![0u8; 165];
    data[64..72].copy_from_slice(&amount.to_le_bytes());
    data[108] = 1;
    data
}

fn encode(bytes: &[u8]) -> String {
    base64::engine::general_purpose::STANDARD.encode(bytes)
}

#[test]
fn test_sum_binary_account() {
    let accounts = vec![TokenAccountData::Binary(encode(&spl_account_bytes(5000)))];
    assert_eq!(sum_token_account_amounts(&accounts).unwrap(), 5000);
}

#[test]
fn test_sum_multiple_accounts_same_mint() {
    // An address may hold several accounts for one mint: all are counted.
    let accounts = vec![
        TokenAccountData::Binary(encode(&spl_account_bytes(30000))),
        TokenAccountData::Binary(encode(&spl_account_bytes(12))),
        TokenAccountData::Parsed(Some("8".to_string())),
    ];
    assert_eq!(sum_token_account_amounts(&accounts).unwrap(), 30020);
}

#[test]
fn test_undecodable_account_fails_sum() {
    // A single malformed account fails the whole query: a decode failure is
    // propagated, never converted to a smaller (or zero) balance.
    let bad_accounts = [
        TokenAccountData::Binary("!!!not base64!!!".to_string()),
        TokenAccountData::Binary(encode(&[0u8; 10])),
        TokenAccountData::Parsed(None),
        TokenAccountData::Parsed(Some("not-a-number".to_string())),
    ];
    for bad in bad_accounts {
        let accounts = vec![
            TokenAccountData::Binary(encode(&spl_account_bytes(7))),
            bad,
        ];
        let r = sum_token_account_amounts(&accounts);
        assert!(matches!(r, Err(BalanceError::DecodeFailure)));
    }
}

#[test]
fn test_uninitialized_account_fails_sum() {
    let mut data = spl_account_bytes(999);
    data[108] = 0;
    let accounts = vec![TokenAccountData::Binary(encode(&data))];
    let r = sum_token_account_amounts(&accounts);
    assert!(matches!(r, Err(BalanceError::DecodeFailure)));
}

#[test]
fn test_token_balance_from_accounts() {
    let usdc = Token::Erc20 {
        address: "4zMMC9srt5Ri5X14GAgXhaHii3GnPAEERYPJgZJDncDU".to_string(),
        symbol: "USDC".to_string(),
        decimals: 6,
    };
    let accounts = vec![
        TokenAccountData::Binary(encode(&spl_account_bytes(1_200_000))),
        TokenAccountData::Parsed(Some("300000".to_string())),
    ];
    let b = token_balance_from_accounts(&usdc, &accounts).unwrap();
    assert_eq!(b.token, "USDC");
    assert_eq!(b.amount, "1500000");
    assert_eq!(b.decimals, 6);
    assert_eq!(b.formatted, "1.5");
}

#[test]
fn test_sol_native_balance() {
    let b = sol_native_balance(1_500_000_000);
    assert_eq!(b.token, "SOL");
    assert_eq!(b.amount, "1500000000");
    assert_eq!(b.decimals, 9);
    assert_eq!(b.formatted, "1.5");
}

#[test]
fn test_eth_native_balance() {
    let b = eth_native_balance("2000000000000000000".to_string());
    assert_eq!(b.token, "ETH");
    assert_eq!(b.decimals, 18);
    assert_eq!(b.formatted, "2");
}

#[test]
fn test_erc20_token_balance_from_amount() {
    let usdc = Token::Erc20 {
        address: "0x1c7D4B196Cb0C7B01d743Fbc6116a902379C7238".to_string(),
        symbol: "USDC".to_string(),
        decimals: 6,
    };
    let b = token_balance_from_amount(&usdc, "123456".to_string());
    assert_eq!(b.token, "USDC");
    assert_eq!(b.formatted, "0.123456");
}

#[test]
fn test_provider_constructors() {
    let eth = EthereumProvider::new("https://rpc.example".to_string());
    assert_eq!(eth.rpc_url, "https://rpc.example");
    let sepolia = EthereumProvider::new_sepolia();
    assert_eq!(sepolia.rpc_url, "https://ethereum-sepolia-rpc.publicnode.com");
    let sol = SolanaProvider::new("https://rpc.example".to_string());
    assert_eq!(sol.rpc_url, "https://rpc.example");
    let devnet = SolanaProvider::new_devnet();
    assert_eq!(devnet.rpc_url, "https://api.devnet.solana.com");
}

#[test]
fn test_hex_to_decimal_exact() {
    assert_eq!(hex_to_decimal("de0b6b3a7640000").unwrap(), "1000000000000000000");
    assert_eq!(hex_to_decimal("0").unwrap(), "0");
    assert_eq!(hex_to_decimal("00ff").unwrap(), "255");
    assert_eq!(hex_to_decimal("Ff").unwrap(), "255");
    assert_eq!(hex_to_decimal("a").unwrap(), "10");
}

#[test]
fn test_hex_to_decimal_full_width() {
    // The largest 256-bit quantity survives the conversion exactly.
    let all_f = "f".repeat(64);
    assert_eq!(
        hex_to_decimal(&all_f).unwrap(),
        "115792089237316195423570985008687907853269984665640564039457584007913129639935"
    );
}

#[test]
fn test_hex_to_decimal_rejects_malformed() {
    assert!(hex_to_decimal("").is_none());
    assert!(hex_to_decimal("xyz").is_none());
    assert!(hex_to_decimal("12g4").is_none());
}
