//! The node's settings, as its configuration file gives them, and the
//! announcement that a cache node publishes from them.
use vstd::prelude::*;

use crate::address::address_payload;
use crate::broker::announcement_topic;

verus! {

/// Where the node meets its broker and cache, and who it is.
#[derive(Debug, Clone)]
pub struct Params {
    pub broker_ip: String,
    pub broker_port: u16,
    pub cache_ip: Option<String>,
    pub cache_port: Option<u16>,
    pub cache_name: Option<String>,
    pub id: String,
    pub contract_addr: Option<[u8; 20]>,
    pub pub_key: Option<[u8; 20]>,
}

/// How the node reaches the chain, and the contracts it uses there.
#[derive(Debug, Clone)]
pub struct Blockchain {
    pub rpc_url_http: String,
    pub rpc_url_ws: String,
    pub wallet_key: String,
    pub contract_addr: [u8; 20],
    pub contract_unowned_addr: Option<[u8; 20]>,
}

/// The whole configuration; either part may be missing.
#[derive(Debug, Clone)]
pub struct Config {
    pub params: Option<Params>,
    pub blockchain: Option<Blockchain>,
}

/// The configuration with which the client contract is looked up: the
/// factory address is replaced by `address` when one is given, and nothing
/// else changes.
pub fn with_factory_address(config: Config, address: Option<[u8; 20]>) -> (r: Config)
    requires
        address is Some ==> config.blockchain is Some,
    ensures
        address is None ==> r == config,
        address matches Some(a) ==> {
            &&& r.params == config.params
            &&& r.blockchain matches Some(b) && b == (Blockchain {
                contract_addr: a,
                ..config.blockchain->0
            })
        },
{
    match address {
        None => config,
        Some(a) => {
            let Config { params, blockchain } = config;
            match blockchain {
                Some(b) => {
                    let nb = Blockchain { contract_addr: a, ..b };
                    Config { params, blockchain: Some(nb) }
                },
                None => Config { params, blockchain: None },
            }
        },
    }
}

/// The announcement that a cache node publishes at start: on the topic
/// `srvList/broker_ip:broker_port`, its contract address in text.
pub fn announcement_of(params: &Params, blockchain: &Blockchain) -> (m: (String, String))
    ensures
        m.0@ == crate::broker::announcement_topic_text(params.broker_ip@, params.broker_port),
        m.1@ == crate::address::address_text(blockchain.contract_addr@),
{
    (
        announcement_topic(params.broker_ip.as_str(), params.broker_port),
        address_payload(&blockchain.contract_addr),
    )
}

} // verus!
