//! The parameter sets with which a node is launched.

use vstd::prelude::*;
use vstd::string::*;
use crate::decimal::{parse_u64, parse_unsigned};
use crate::ledger::{BLOCK_TIME, FEE, TOTAL_SUPPLY};

verus! {

/// The names of the launch parameters, in the order in which both sets give
/// them.
pub open spec fn parameter_names() -> Seq<Seq<char>> {
    seq!["NODE_ADDR"@, "API_ADDR"@, "TOTAL_SUPPLY"@, "FEE"@, "BLOCK_TIME"@]
}

/// The values of the test network's parameters.
pub open spec fn testnet_values() -> Seq<Seq<char>> {
    seq!["127.0.0.1:7878"@, "127.0.0.1:8000"@, "1000000000"@, "1000"@, "10"@]
}

/// The values of the main network's parameters.
pub open spec fn mainnet_values() -> Seq<Seq<char>> {
    seq!["127.0.0.1:7878"@, "127.0.0.1:8000"@, "1000000000000000"@, "5000"@, "5"@]
}

/// `params` pairs each name of `parameter_names` with the value at the same
/// place of `values`.
pub open spec fn pairs_up(
    params: Seq<(&'static str, &'static str)>,
    values: Seq<Seq<char>>,
) -> bool {
    &&& params.len() == parameter_names().len()
    &&& forall|i: int|
        0 <= i < params.len() ==> (#[trigger] params[i]).0@ == parameter_names()[i]
            && params[i].1@ == values[i]
}

/// The parameters of the test network: a small supply, low fees, and a
/// block every ten seconds.
pub fn get_testnet_params() -> (params: Vec<(&'static str, &'static str)>)
    ensures
        pairs_up(params@, testnet_values()),
{
    let params = vec![
        ("NODE_ADDR", "127.0.0.1:7878"),
        ("API_ADDR", "127.0.0.1:8000"),
        ("TOTAL_SUPPLY", "1000000000"),
        ("FEE", "1000"),
        ("BLOCK_TIME", "10"),
    ];
    params
}

/// The parameters of the main network: the full supply, the standard fee,
/// and a block every five seconds.
pub fn get_mainnet_params() -> (params: Vec<(&'static str, &'static str)>)
    ensures
        pairs_up(params@, mainnet_values()),
{
    let params = vec![
        ("NODE_ADDR", "127.0.0.1:7878"),
        ("API_ADDR", "127.0.0.1:8000"),
        ("TOTAL_SUPPLY", "1000000000000000"),
        ("FEE", "5000"),
        ("BLOCK_TIME", "5"),
    ];
    params
}

/// The parameters for a launch mode: `testnet` or `mainnet`. Any other mode
/// has none.
pub fn launch_params(mode: &str) -> (params: Option<Vec<(&'static str, &'static str)>>)
    ensures
        match params {
            Some(params) => if mode@ == "testnet"@ {
                pairs_up(params@, testnet_values())
            } else {
                mode@ == "mainnet"@ && pairs_up(params@, mainnet_values())
            },
            None => mode@ != "testnet"@ && mode@ != "mainnet"@,
        },
{
    let mode = String::from_str(mode);
    if mode == String::from_str("testnet") {
        Some(get_testnet_params())
    } else if mode == String::from_str("mainnet") {
        Some(get_mainnet_params())
    } else {
        None
    }
}

/// The address on which a node listens for peers unless told otherwise.
pub open spec fn default_node_addr() -> Seq<char> {
    "127.0.0.1:7878"@
}

/// The address on which a node serves clients unless told otherwise.
pub open spec fn default_api_addr() -> Seq<char> {
    "127.0.0.1:8000"@
}

/// The settings of a node.
#[derive(Debug)]
pub struct NodeConfig {
    /// Where the node listens for peers.
    pub node_addr: String,
    /// Where the node serves clients.
    pub api_addr: String,
    /// Base units in the treasury at genesis.
    pub total_supply: u64,
    /// The fee that client tools offer by default.
    pub fee: u64,
    /// Seconds between two ticks of the producer.
    pub block_time: u64,
}

/// The text given for a setting, or the default where none was given.
pub open spec fn text_setting(given: Option<String>, default: Seq<char>) -> Seq<char> {
    match given {
        Some(text) => text@,
        None => default,
    }
}

/// The number given for a setting, or the default where none was given or
/// what was given does not read as an unsigned number.
pub open spec fn number_setting(given: Option<String>, default: u64) -> u64 {
    match given {
        Some(text) => match parse_unsigned(text@) {
            Some(n) => n,
            None => default,
        },
        None => default,
    }
}

/// The number given for a setting, or the default.
pub fn number_or(given: &Option<String>, default: u64) -> (n: u64)
    ensures
        n == number_setting(*given, default),
{
    match given {
        Some(text) => match parse_u64(text.as_str()) {
            Some(n) => n,
            None => default,
        },
        None => default,
    }
}

impl NodeConfig {
    /// The settings of a node, from the values of the variables
    /// `NODE_ADDR`, `API_ADDR`, `TOTAL_SUPPLY`, `FEE` and `BLOCK_TIME`.
    /// Whatever is missing takes its default, and so does a number that
    /// does not read as one.
    pub fn resolve(
        node_addr: Option<String>,
        api_addr: Option<String>,
        total_supply: Option<String>,
        fee: Option<String>,
        block_time: Option<String>,
    ) -> (config: NodeConfig)
        ensures
            config.node_addr@ == text_setting(node_addr, default_node_addr()),
            config.api_addr@ == text_setting(api_addr, default_api_addr()),
            config.total_supply == number_setting(total_supply, TOTAL_SUPPLY),
            config.fee == number_setting(fee, FEE),
            config.block_time == number_setting(block_time, BLOCK_TIME),
    {
        let total_supply = number_or(&total_supply, TOTAL_SUPPLY);
        let fee = number_or(&fee, FEE);
        let block_time = number_or(&block_time, BLOCK_TIME);
        NodeConfig {
            node_addr: match node_addr {
                Some(addr) => addr,
                None => String::from_str("127.0.0.1:7878"),
            },
            api_addr: match api_addr {
                Some(addr) => addr,
                None => String::from_str("127.0.0.1:8000"),
            },
            total_supply,
            fee,
            block_time,
        }
    }
}

} // verus!
