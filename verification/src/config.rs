//! The static chain registry: which chains are supported, their RPC
//! endpoints, and their configured tokens.
use vstd::prelude::*;

use crate::digits::str_eq;
use crate::errors::BalanceError;

verus! {

/// Token information from the configuration.
#[derive(Clone, Debug)]
pub struct TokenInfo {
    pub address: Option<String>,
    pub symbol: Option<String>,
    pub decimals: u8,
}

impl TokenInfo {
    /// Decimal counts are small: the formatting divisor must fit its type.
    pub open spec fn wf(&self) -> bool {
        self.decimals <= 38
    }
}

/// Configuration for a single chain.
#[derive(Clone, Debug)]
pub struct ChainConfig {
    pub chain_type: String,
    pub name: String,
    pub rpc: String,
    pub chain_id: Option<u64>,
    pub canister_id: Option<String>,
    pub native_token: TokenInfo,
    pub tokens: Vec<(String, TokenInfo)>,
}

impl ChainConfig {
    /// Token entries are well formed and keyed by distinct symbols.
    pub open spec fn wf(&self) -> bool {
        &&& self.native_token.wf()
        &&& forall|i: int| 0 <= i < self.tokens@.len() ==> (#[trigger] self.tokens@[i]).1.wf()
        &&& forall|i: int, j: int|
            0 <= i < j < self.tokens@.len() ==> self.tokens@[i].0@ != self.tokens@[j].0@
    }
}

/// First-match lookup of a chain name in the registry list.
pub open spec fn chain_lookup(
    chains: Seq<(String, ChainConfig)>,
    name: Seq<char>,
) -> Option<ChainConfig>
    decreases chains.len(),
{
    if chains.len() == 0 {
        None
    } else if chains[0].0@ == name {
        Some(chains[0].1)
    } else {
        chain_lookup(chains.drop_first(), name)
    }
}

/// A successful lookup returns one of the listed chain entries.
pub proof fn lemma_chain_lookup_member(chains: Seq<(String, ChainConfig)>, name: Seq<char>)
    requires
        chain_lookup(chains, name) is Some,
    ensures
        exists|i: int|
            0 <= i < chains.len() && (#[trigger] chains[i]).1 == chain_lookup(chains, name)->0,
    decreases chains.len(),
{
    if chains.len() > 0 && chains[0].0@ != name {
        lemma_chain_lookup_member(chains.drop_first(), name);
        let j = choose|i: int|
            0 <= i < chains.drop_first().len() && (#[trigger] chains.drop_first()[i]).1
                == chain_lookup(chains.drop_first(), name)->0;
        assert(chains[j + 1] == chains.drop_first()[j]);
    }
}

/// Configuration for all supported chains, keyed by chain name.
#[derive(Clone, Debug)]
pub struct Config {
    pub chains: Vec<(String, ChainConfig)>,
}

impl Config {
    /// Every chain entry is well formed and chain names are distinct.
    pub open spec fn wf(&self) -> bool {
        &&& forall|i: int| 0 <= i < self.chains@.len() ==> (#[trigger] self.chains@[i]).1.wf()
        &&& forall|i: int, j: int|
            0 <= i < j < self.chains@.len() ==> self.chains@[i].0@ != self.chains@[j].0@
    }

    /// The chain registered under `name`, if any.
    pub open spec fn spec_get(&self, name: Seq<char>) -> Option<ChainConfig> {
        chain_lookup(self.chains@, name)
    }

    /// Get a specific chain configuration: a pure lookup, no I/O.
    pub fn get_chain(&self, chain_name: &str) -> (r: Option<&ChainConfig>)
        ensures
            match r {
                Some(c) => self.spec_get(chain_name@) == Some(*c),
                None => self.spec_get(chain_name@) is None,
            },
    {
        let mut i: usize = 0;
        proof {
            assert(self.chains@.skip(0) =~= self.chains@);
        }
        while i < self.chains.len()
            invariant
                i <= self.chains@.len(),
                chain_lookup(self.chains@, chain_name@) == chain_lookup(
                    self.chains@.skip(i as int),
                    chain_name@,
                ),
            decreases self.chains@.len() - i,
        {
            proof {
                assert(self.chains@.skip(i as int)[0] == self.chains@[i as int]);
                assert(self.chains@.skip(i as int).drop_first() =~= self.chains@.skip(
                    i + 1 as int));
            }
            if str_eq(self.chains[i].0.as_str(), chain_name) {
                return Some(&self.chains[i].1);
            }
            i += 1;
        }
        proof {
            assert(self.chains@.skip(self.chains@.len() as int) =~= Seq::<(
                String,
                ChainConfig,
            )>::empty());
        }
        None
    }

    /// Load the bundled configuration. The registry is built in code from
    /// trusted constants, so loading always succeeds; the `Result` keeps the
    /// contract of a loader whose source could in principle be malformed.
    pub fn load() -> (r: Result<Config, BalanceError>)
        ensures
            r is Ok,
            r->Ok_0.wf(),
            r->Ok_0.chains@.len() == 2,
            r->Ok_0.chains@[0].0@ == "sepolia"@,
            sepolia_chain_pinned(r->Ok_0.chains@[0].1),
            r->Ok_0.chains@[1].0@ == "solana-devnet"@,
            solana_devnet_chain_pinned(r->Ok_0.chains@[1].1),
            r->Ok_0.spec_get("sepolia"@) == Some(r->Ok_0.chains@[0].1),
            r->Ok_0.spec_get("solana-devnet"@) == Some(r->Ok_0.chains@[1].1),
    {
        let sepolia = sepolia_config();
        let solana = solana_devnet_config();
        let mut chains: Vec<(String, ChainConfig)> = Vec::new();
        chains.push((String::from_str("sepolia"), sepolia));
        chains.push((String::from_str("solana-devnet"), solana));
        let config = Config { chains };
        proof {
            reveal_strlit("sepolia");
            reveal_strlit("solana-devnet");
            assert("sepolia"@.len() == 7);
            assert("solana-devnet"@.len() == 13);
            assert(config.chains@.drop_first() =~= seq![config.chains@[1]]);
            assert("sepolia"@ != "solana-devnet"@);
            assert(chain_lookup(config.chains@, "sepolia"@) == Some(config.chains@[0].1));
            assert(chain_lookup(config.chains@, "solana-devnet"@) == chain_lookup(
                config.chains@.drop_first(),
                "solana-devnet"@,
            ));
            assert(chain_lookup(config.chains@.drop_first(), "solana-devnet"@) == Some(
                config.chains@[1].1,
            ));
        }
        Ok(config)
    }
}

/// Every field of the Sepolia entry, pinned at the view level.
pub open spec fn sepolia_chain_pinned(c: ChainConfig) -> bool {
    &&& c.chain_type@ == "evm"@
    &&& c.name@ == "Sepolia"@
    &&& c.rpc@ == "https://ethereum-sepolia-rpc.publicnode.com"@
    &&& c.chain_id == Some(11155111u64)
    &&& c.canister_id is None
    &&& c.native_token.address is None
    &&& c.native_token.symbol matches Some(s) && s@ == "ETH"@
    &&& c.native_token.decimals == 18
    &&& c.tokens@.len() == 2
    &&& c.tokens@[0].0@ == "USDC"@
    &&& c.tokens@[0].1.address matches Some(a) && a@
        == "0x1c7D4B196Cb0C7B01d743Fbc6116a902379C7238"@ && a@.len() > 0
    &&& c.tokens@[0].1.symbol matches Some(s) && s@ == "USDC"@
    &&& c.tokens@[0].1.decimals == 6
    &&& c.tokens@[1].0@ == "EURC"@
    &&& c.tokens@[1].1.address matches Some(a) && a@
        == "0x08210F9170F89Ab7658F0B5E3fF39b0E03C594D4"@ && a@.len() > 0
    &&& c.tokens@[1].1.symbol matches Some(s) && s@ == "EURC"@
    &&& c.tokens@[1].1.decimals == 6
}

/// Every field of the Solana devnet entry, pinned at the view level.
pub open spec fn solana_devnet_chain_pinned(c: ChainConfig) -> bool {
    &&& c.chain_type@ == "solana"@
    &&& c.name@ == "Solana Devnet"@
    &&& c.rpc@ == "https://api.devnet.solana.com"@
    &&& c.chain_id is None
    &&& c.canister_id is None
    &&& c.native_token.address is None
    &&& c.native_token.symbol matches Some(s) && s@ == "SOL"@
    &&& c.native_token.decimals == 9
    &&& c.tokens@.len() == 2
    &&& c.tokens@[0].0@ == "USDC"@
    &&& c.tokens@[0].1.address matches Some(a) && a@
        == "4zMMC9srt5Ri5X14GAgXhaHii3GnPAEERYPJgZJDncDU"@ && a@.len() > 0
    &&& c.tokens@[0].1.symbol matches Some(s) && s@ == "USDC"@
    &&& c.tokens@[0].1.decimals == 6
    &&& c.tokens@[1].0@ == "EURC"@
    &&& c.tokens@[1].1.address matches Some(a) && a@
        == "HzwqbKZw8HxMN6bF2yFZNrht3c2iXXzpKcFu7uBEDKtr"@ && a@.len() > 0
    &&& c.tokens@[1].1.symbol matches Some(s) && s@ == "EURC"@
    &&& c.tokens@[1].1.decimals == 6
}

fn sepolia_config() -> (c: ChainConfig)
    ensures
        c.wf(),
        sepolia_chain_pinned(c),
{
    let native = TokenInfo {
        address: None,
        symbol: Some(String::from_str("ETH")),
        decimals: 18,
    };
    let usdc = TokenInfo {
        address: Some(String::from_str("0x1c7D4B196Cb0C7B01d743Fbc6116a902379C7238")),
        symbol: Some(String::from_str("USDC")),
        decimals: 6,
    };
    let eurc = TokenInfo {
        address: Some(String::from_str("0x08210F9170F89Ab7658F0B5E3fF39b0E03C594D4")),
        symbol: Some(String::from_str("EURC")),
        decimals: 6,
    };
    let mut tokens: Vec<(String, TokenInfo)> = Vec::new();
    tokens.push((String::from_str("USDC"), usdc));
    tokens.push((String::from_str("EURC"), eurc));
    proof {
        reveal_strlit("USDC");
        reveal_strlit("EURC");
        assert("USDC"@[0] == 'U');
        assert("EURC"@[0] == 'E');
        reveal_strlit("0x1c7D4B196Cb0C7B01d743Fbc6116a902379C7238");
        reveal_strlit("0x08210F9170F89Ab7658F0B5E3fF39b0E03C594D4");
        assert("0x1c7D4B196Cb0C7B01d743Fbc6116a902379C7238"@.len() == 42);
        assert("0x08210F9170F89Ab7658F0B5E3fF39b0E03C594D4"@.len() == 42);
    }
    ChainConfig {
        chain_type: String::from_str("evm"),
        name: String::from_str("Sepolia"),
        rpc: String::from_str("https://ethereum-sepolia-rpc.publicnode.com"),
        chain_id: Some(11155111),
        canister_id: None,
        native_token: native,
        tokens,
    }
}

fn solana_devnet_config() -> (c: ChainConfig)
    ensures
        c.wf(),
        solana_devnet_chain_pinned(c),
{
    let native = TokenInfo {
        address: None,
        symbol: Some(String::from_str("SOL")),
        decimals: 9,
    };
    let usdc = TokenInfo {
        address: Some(String::from_str("4zMMC9srt5Ri5X14GAgXhaHii3GnPAEERYPJgZJDncDU")),
        symbol: Some(String::from_str("USDC")),
        decimals: 6,
    };
    let eurc = TokenInfo {
        address: Some(String::from_str("HzwqbKZw8HxMN6bF2yFZNrht3c2iXXzpKcFu7uBEDKtr")),
        symbol: Some(String::from_str("EURC")),
        decimals: 6,
    };
    let mut tokens: Vec<(String, TokenInfo)> = Vec::new();
    tokens.push((String::from_str("USDC"), usdc));
    tokens.push((String::from_str("EURC"), eurc));
    proof {
        reveal_strlit("USDC");
        reveal_strlit("EURC");
        assert("USDC"@[0] == 'U');
        assert("EURC"@[0] == 'E');
        reveal_strlit("4zMMC9srt5Ri5X14GAgXhaHii3GnPAEERYPJgZJDncDU");
        reveal_strlit("HzwqbKZw8HxMN6bF2yFZNrht3c2iXXzpKcFu7uBEDKtr");
        assert("4zMMC9srt5Ri5X14GAgXhaHii3GnPAEERYPJgZJDncDU"@.len() == 44);
        assert("HzwqbKZw8HxMN6bF2yFZNrht3c2iXXzpKcFu7uBEDKtr"@.len() == 44);
    }
    ChainConfig {
        chain_type: String::from_str("solana"),
        name: String::from_str("Solana Devnet"),
        rpc: String::from_str("https://api.devnet.solana.com"),
        chain_id: None,
        canister_id: None,
        native_token: native,
        tokens,
    }
}

} // verus!
