//! Configuration snapshot, hot-reload decision, and content hashing.

use vstd::prelude::*;
use vstd::string::StringExecFns;

verus! {

/// Command-line arguments: the configuration file path.
#[derive(Debug, Clone)]
pub struct Args {
    pub config: String,
}

impl Default for Args {
    /// The default configuration file location.
    fn default() -> (r: Self)
        ensures
            r.config@ == "config/client.toml"@,
    {
        Args { config: String::from_str("config/client.toml") }
    }
}

/// Static descriptor of one monitored target.
#[derive(Debug, Clone)]
pub struct ChainSender {
    pub chain_name: String,
    pub sender_url: String,
    pub data_for_send: String,
    pub user_code: String,
}

/// One immutable configuration snapshot.
#[derive(Debug, Clone)]
pub struct Config {
    /// Units in seconds.
    pub sender_interval: u64,
    /// Units in seconds.
    pub validator_interval: u64,
    /// Units in seconds.
    pub validator_timeout: u64,
    pub storage_path: String,
    pub verify_api_url: String,
    pub metrics_port: u16,
    pub chain_sender_vec: Vec<ChainSender>,
}

impl Default for Config {
    fn default() -> (r: Self)
        ensures
            r.sender_interval == 30,
            r.validator_interval == 10,
            r.validator_timeout == 300,
            r.storage_path@ == "default_db"@,
            r.verify_api_url@ == "http://127.0.0.1:3000/auto_tx/api/get_onchain_hash"@,
            r.metrics_port == 61616,
            r.chain_sender_vec@.len() == 0,
    {
        Config {
            sender_interval: 30,
            validator_interval: 10,
            validator_timeout: 300,
            storage_path: String::from_str("default_db"),
            verify_api_url: String::from_str("http://127.0.0.1:3000/auto_tx/api/get_onchain_hash"),
            metrics_port: 61616,
            chain_sender_vec: Vec::new(),
        }
    }
}

/// Name for the md5 digest of a text: sixteen bytes, a function of the
/// content alone.
pub uninterp spec fn md5_of(s: Seq<char>) -> Seq<u8>;

/// Relies on md5::compute: the 16-byte digest of the content.
#[verifier::external_body]
pub fn calculate_md5(content: &str) -> (r: Vec<u8>)
    ensures
        r@ == md5_of(content@),
        r@.len() == 16,
{
    md5::compute(content.as_bytes()).0.to_vec()
}

/// Byte-for-byte equality of two digests.
pub fn bytes_eq(a: &Vec<u8>, b: &Vec<u8>) -> (r: bool)
    ensures
        r == (a@ == b@),
{
    if a.len() != b.len() {
        proof {
            assert(a@.len() != b@.len());
        }
        return false;
    }
    let mut i: usize = 0;
    while i < a.len()
        invariant
            i <= a@.len(),
            a@.len() == b@.len(),
            forall|j: int| 0 <= j < i ==> a@[j] == b@[j],
        decreases a@.len() - i,
    {
        if a[i] != b[i] {
            return false;
        }
        i += 1;
    }
    proof {
        assert(a@ =~= b@);
    }
    true
}

/// Applies one hot-reload observation. When the content digest changed, the
/// tracked digest is replaced; the snapshot is replaced only by a reload
/// that parsed, and a malformed reload keeps the previous snapshot. Returns
/// whether the snapshot was replaced.
pub fn hot_update(config: &mut Config, config_md5: &mut Vec<u8>, new_md5: Vec<u8>, parsed: Option<
    Config,
>) -> (r: bool)
    ensures
        old(config_md5)@ == new_md5@ ==> !r && *final(config) == *old(config) && final(config_md5)@
            == old(config_md5)@,
        old(config_md5)@ != new_md5@ ==> final(config_md5)@ == new_md5@ && (match parsed {
            Some(c) => r && *final(config) == c,
            None => !r && *final(config) == *old(config),
        }),
{
    if bytes_eq(config_md5, &new_md5) {
        return false;
    }
    *config_md5 = new_md5;
    match parsed {
        Some(c) => {
            *config = c;
            true
        },
        None => false,
    }
}

} // verus!
