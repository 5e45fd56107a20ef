//! What a query needs to know of its surroundings: the endpoint of each chain,
//! the address of the batch contract, and the pair that a command names.

use crate::correlate::QueryContext;
use crate::error::FeedError;
use crate::types::Address;
use vstd::prelude::*;
use vstd::string::StringExecFns;

verus! {

/// The address of the batch contract, which is the same on every chain
/// supported, as text.
pub const MULTICALL3: &'static str = "0xcA11bde05977b3631167028862bE2a173976CA11";

/// The address of the batch contract, as bytes.
pub const MULTICALL3_BYTES: [u8; 20] = [
    0xca, 0x11, 0xbd, 0xe0, 0x59, 0x77, 0xb3, 0x63, 0x11, 0x67,
    0x02, 0x88, 0x62, 0xbe, 0x2a, 0x17, 0x39, 0x76, 0xca, 0x11,
];

/// The addresses that a query is sent to besides the feeds themselves. Held
/// as a value, so that a caller can put its own batch contract in place of
/// the well-known one.
#[derive(Clone, Copy, Debug, PartialEq, Eq)]
pub struct Settings {
    /// The batch contract.
    pub multicall: Address,
}

impl Settings {
    /// The settings with the well-known batch contract.
    pub fn standard() -> (settings: Settings)
        ensures
            settings.multicall.bytes == MULTICALL3_BYTES,
    {
        Settings { multicall: Address { bytes: MULTICALL3_BYTES } }
    }
}

/// A chain, a token and the currency it is quoted in, as a command names
/// them.
#[derive(Clone, Debug, PartialEq, Eq)]
pub struct PairSetting {
    pub chain: String,
    pub base: String,
    pub quote: String,
}

impl PairSetting {
    /// The context of a query for this pair: the token is the setting's base,
    /// quoted in the setting's quote.
    pub fn context(&self) -> (context: QueryContext)
        ensures
            context matches QueryContext::Pair { token, base } && token@ == self.base@ && base@
                == self.quote@,
    {
        QueryContext::Pair { token: self.base.clone(), base: self.quote.clone() }
    }
}

/// The part of an endpoint before the caller's key, for the chains that are
/// reached through a keyed endpoint.
pub open spec fn keyed_endpoint(chain: u64) -> Option<Seq<char>> {
    if chain == 1 {
        Some("https://mainnet.infura.io/v3/"@)
    } else if chain == 11_155_111 {
        Some("https://sepolia.infura.io/v3/"@)
    } else if chain == 137 {
        Some("https://polygon-mainnet.infura.io/v3/"@)
    } else if chain == 80_001 {
        Some("https://polygon-mumbai.infura.io/v3/"@)
    } else if chain == 10 {
        Some("https://optimism-mainnet.infura.io/v3/"@)
    } else if chain == 420 {
        Some("https://optimism-goerli.infura.io/v3/"@)
    } else if chain == 42_161 {
        Some("https://arbitrum-mainnet.infura.io/v3/"@)
    } else if chain == 421_613 {
        Some("https://arbitrum-goerli.infura.io/v3/"@)
    } else if chain == 43_114 {
        Some("https://avalanche-mainnet.infura.io/v3/"@)
    } else if chain == 43_113 {
        Some("https://avalanche-fuji.infura.io/v3/"@)
    } else {
        None
    }
}

/// The endpoint of the chains that are reached without a key.
pub open spec fn open_endpoint(chain: u64) -> Option<Seq<char>> {
    if chain == 97 {
        Some("https://data-seed-prebsc-1-s1.binance.org:8545/"@)
    } else if chain == 84_531 {
        Some("https://base-goerli.blockpi.network/v1/rpc/public"@)
    } else {
        None
    }
}

/// The endpoint of a chain for the key given, if the chain is supported: a
/// keyed endpoint ends in the key, an open one does not hold it.
pub open spec fn rpc_url(chain: u64, key: Seq<char>) -> Option<Seq<char>> {
    match keyed_endpoint(chain) {
        Some(prefix) => Some(prefix + key),
        None => open_endpoint(chain),
    }
}

/// The part of a keyed endpoint before the key.
fn keyed_prefix(chain: u64) -> (prefix: Option<&'static str>)
    ensures
        match prefix {
            Some(p) => keyed_endpoint(chain) == Some(p@),
            None => keyed_endpoint(chain) is None,
        },
{
    match chain {
        1 => Some("https://mainnet.infura.io/v3/"),
        11_155_111 => Some("https://sepolia.infura.io/v3/"),
        137 => Some("https://polygon-mainnet.infura.io/v3/"),
        80_001 => Some("https://polygon-mumbai.infura.io/v3/"),
        10 => Some("https://optimism-mainnet.infura.io/v3/"),
        420 => Some("https://optimism-goerli.infura.io/v3/"),
        42_161 => Some("https://arbitrum-mainnet.infura.io/v3/"),
        421_613 => Some("https://arbitrum-goerli.infura.io/v3/"),
        43_114 => Some("https://avalanche-mainnet.infura.io/v3/"),
        43_113 => Some("https://avalanche-fuji.infura.io/v3/"),
        _ => None,
    }
}

/// The endpoint through which the chain with the identifier `chain` is
/// reached, for the caller's key `rpc_url_id`. Fails, with
/// `FeedError::Config`, exactly on a chain that is not supported.
pub fn get_provider_rpc_url(chain: u64, rpc_url_id: &str) -> (url: Result<String, FeedError>)
    ensures
        match url {
            Ok(u) => rpc_url(chain, rpc_url_id@) == Some(u@),
            Err(e) => e == FeedError::Config && rpc_url(chain, rpc_url_id@) is None,
        },
{
    match keyed_prefix(chain) {
        Some(prefix) => Ok(String::from_str(prefix).concat(rpc_url_id)),
        None => {
            if chain == 97 {
                Ok(String::from_str("https://data-seed-prebsc-1-s1.binance.org:8545/"))
            } else if chain == 84_531 {
                Ok(String::from_str("https://base-goerli.blockpi.network/v1/rpc/public"))
            } else {
                Err(FeedError::Config)
            }
        },
    }
}

} // verus!
