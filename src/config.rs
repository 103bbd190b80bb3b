use vstd::prelude::*;
use vstd::string::*;

verus! {

/// The network a wallet talks to.
#[derive(Clone, Copy, Debug, PartialEq, Eq, Structural)]
pub enum ChainType {
    Mainnet,
    Floonet,
    UserTesting,
}

/// Port on which the owner API listens unless configured otherwise.
pub const DEFAULT_OWNER_API_LISTEN_PORT: u16 = 3420;

/// Port on which the foreign API listens.
pub const API_LISTEN_PORT: u16 = 13415;

/// Settings of one wallet session, derived from its data directory, network
/// name and node address.
#[derive(Clone, Debug)]
pub struct WalletConfig {
    pub chain_type: ChainType,
    pub api_listen_interface: String,
    pub api_listen_port: u16,
    pub api_secret_path: String,
    pub node_api_secret_path: String,
    pub check_node_api_http_addr: String,
    pub data_file_dir: String,
    pub dark_background_color_scheme: bool,
    pub keybase_notify_ttl: u16,
    pub owner_api_listen_port: u16,
}

/// The network selected by a name: unknown names select mainnet.
pub open spec fn chain_type_of(name: Seq<char>) -> ChainType {
    if name == "floonet"@ {
        ChainType::Floonet
    } else if name == "usernet"@ {
        ChainType::UserTesting
    } else {
        ChainType::Mainnet
    }
}

/// Whether two strings hold the same characters.
pub fn same_text(a: &str, b: &str) -> (r: bool)
    ensures
        r == (a@ == b@),
{
    let x = String::from_str(a);
    let y = String::from_str(b);
    x.eq(&y)
}

/// Maps a network name to the network it selects.
pub fn chain_type_from_name(name: &str) -> (r: ChainType)
    ensures
        r == chain_type_of(name@),
{
    if same_text(name, "floonet") {
        ChainType::Floonet
    } else if same_text(name, "usernet") {
        ChainType::UserTesting
    } else {
        ChainType::Mainnet
    }
}

/// Builds the session settings for a wallet kept under `wallet_dir`.
pub fn get_wallet_config(wallet_dir: &str, chain_type: &str, check_node_api_http_addr: &str) -> (r:
    WalletConfig)
    ensures
        r.chain_type == chain_type_of(chain_type@),
        r.api_listen_interface@ == "127.0.0.1"@,
        r.api_listen_port == API_LISTEN_PORT,
        r.api_secret_path@ == ".api_secret"@,
        r.node_api_secret_path@ == wallet_dir@ + "/.api_secret"@,
        r.check_node_api_http_addr@ == check_node_api_http_addr@,
        r.data_file_dir@ == wallet_dir@ + "/wallet_data"@,
        r.dark_background_color_scheme,
        r.keybase_notify_ttl == 1,
        r.owner_api_listen_port == DEFAULT_OWNER_API_LISTEN_PORT,
{
    let dir = String::from_str(wallet_dir);
    WalletConfig {
        chain_type: chain_type_from_name(chain_type),
        api_listen_interface: String::from_str("127.0.0.1"),
        api_listen_port: API_LISTEN_PORT,
        api_secret_path: String::from_str(".api_secret"),
        node_api_secret_path: dir.clone().concat("/.api_secret"),
        check_node_api_http_addr: String::from_str(check_node_api_http_addr),
        data_file_dir: dir.concat("/wallet_data"),
        dark_background_color_scheme: true,
        keybase_notify_ttl: 1,
        owner_api_listen_port: DEFAULT_OWNER_API_LISTEN_PORT,
    }
}

} // verus!
