//! The load generator's configuration and the requests it sends.

use crate::percent::{encode, percent_encoded};
use rand::rngs::ThreadRng;
use rand::seq::SliceRandom;
use vstd::prelude::*;
use vstd::string::*;

verus! {

/// How the load generator is started.
#[derive(Debug)]
pub struct CommandLineArgs {
    /// The greeting server address to bench.
    pub greeting_server_address: String,
    /// How many workers send requests at the same time.
    pub concurrent: usize,
    /// Bench time in seconds.
    pub bench_secs: u64,
    /// Worker threads of the runtime.
    pub tokio_worker_threads: usize,
}

impl Default for CommandLineArgs {
    fn default() -> (args: CommandLineArgs)
        ensures
            args.greeting_server_address@ == "127.0.0.1:3000"@,
            args.concurrent == 32,
            args.bench_secs == 300,
            args.tokio_worker_threads == 16,
    {
        CommandLineArgs {
            greeting_server_address: String::from_str("127.0.0.1:3000"),
            concurrent: 32,
            bench_secs: 300,
            tokio_worker_threads: 16,
        }
    }
}

/// The names that requests ask a greeting for.
pub open spec fn names() -> Seq<Seq<char>> {
    seq![
        "刘备"@,
        "关羽"@,
        "张飞"@,
        "Harry Potter"@,
        "Ronald Weasley"@,
        "Hermione Granger"@,
        "新垣結衣"@,
        "石原さとみ"@,
        "長澤まさみ"@,
    ]
}

/// The names that requests ask a greeting for.
pub fn name_pool() -> (pool: Vec<&'static str>)
    ensures
        pool@.len() == names().len(),
        forall|i: int| 0 <= i < pool@.len() ==> pool@[i]@ == names()[i],
{
    vec![
        "刘备",
        "关羽",
        "张飞",
        "Harry Potter",
        "Ronald Weasley",
        "Hermione Granger",
        "新垣結衣",
        "石原さとみ",
        "長澤まさみ",
    ]
}

/// The URI that asks the server at `address` to greet `name`.
pub open spec fn request_uri_text(address: Seq<char>, name: Seq<char>) -> Seq<char> {
    "http://"@ + address + "/greeting?name="@ + percent_encoded(name)
}

/// The URI that asks the server at `greeting_server_address` to greet `name`.
pub fn request_uri(greeting_server_address: &str, name: &str) -> (uri: String)
    ensures
        uri@ == request_uri_text(greeting_server_address@, name@),
{
    let encoded = encode(name);
    let mut uri = String::from_str("http://");
    uri.append(greeting_server_address);
    uri.append("/greeting?name=");
    uri.append(encoded.as_str());
    uri
}

/// Picks one of `pool` with `rand`'s `SliceRandom::choose` and the thread's
/// generator.
///
/// Trusted: from an empty pool nothing is picked; from any other, one of its
/// items is. Which one is left open.
#[verifier::external_body]
fn pick(pool: &Vec<&'static str>) -> (picked: Option<&'static str>)
    ensures
        match picked {
            Some(name) => exists|i: int| 0 <= i < pool@.len() && pool@[i]@ == name@,
            None => pool@.len() == 0,
        },
{
    pool.choose(&mut ThreadRng::default()).copied()
}

/// Whether `hyper`'s parser takes a text for a URI.
pub uninterp spec fn is_uri(text: Seq<char>) -> bool;

/// Asks `hyper`'s parser, `<Uri as FromStr>::from_str`, whether `text` is a
/// URI.
///
/// Trusted: the answer depends on the text alone; `is_uri` names it.
#[verifier::external_body]
fn parses_as_uri(text: &str) -> (yes: bool)
    ensures
        yes == is_uri(text@),
{
    text.parse::<hyper::Uri>().is_ok()
}

/// True when every request that can be generated for the server at
/// `address` is a URI.
pub open spec fn valid_target(address: Seq<char>) -> bool {
    forall|i: int|
        0 <= i < names().len() ==> is_uri(#[trigger] request_uri_text(address, names()[i]))
}

/// Tells whether every request that can be generated for the server at
/// `greeting_server_address` is a URI.
pub fn is_valid_target(greeting_server_address: &str) -> (yes: bool)
    ensures
        yes == valid_target(greeting_server_address@),
{
    let pool = name_pool();
    let mut i: usize = 0;
    while i < pool.len()
        invariant
            i <= pool@.len(),
            pool@.len() == names().len(),
            forall|j: int| 0 <= j < pool@.len() ==> pool@[j]@ == names()[j],
            forall|j: int|
                0 <= j < i ==> is_uri(
                    #[trigger] request_uri_text(greeting_server_address@, names()[j]),
                ),
        decreases pool@.len() - i,
    {
        let uri = request_uri(greeting_server_address, pool[i]);
        if !parses_as_uri(uri.as_str()) {
            return false;
        }
        i += 1;
    }
    true
}

/// Why a configuration is turned down.
#[derive(Clone, Copy, Debug, PartialEq, Eq, Structural)]
pub enum ConfigError {
    /// No worker would send requests.
    Concurrent,
    /// The run would last no time.
    BenchSecs,
    /// The runtime would have no thread.
    WorkerThreads,
    /// A request to the server's address would not be a URI.
    Address,
}

impl CommandLineArgs {
    /// What is wrong with a configuration, if anything: the numbers must be
    /// positive and the server's address must make URIs.
    pub open spec fn verdict(self) -> Result<(), ConfigError> {
        if self.concurrent == 0 {
            Err(ConfigError::Concurrent)
        } else if self.bench_secs == 0 {
            Err(ConfigError::BenchSecs)
        } else if self.tokio_worker_threads == 0 {
            Err(ConfigError::WorkerThreads)
        } else if !valid_target(self.greeting_server_address@) {
            Err(ConfigError::Address)
        } else {
            Ok(())
        }
    }

    /// Checks the configuration before anything is started.
    pub fn validate(&self) -> (checked: Result<(), ConfigError>)
        ensures
            checked == self.verdict(),
    {
        if self.concurrent == 0 {
            Err(ConfigError::Concurrent)
        } else if self.bench_secs == 0 {
            Err(ConfigError::BenchSecs)
        } else if self.tokio_worker_threads == 0 {
            Err(ConfigError::WorkerThreads)
        } else if !is_valid_target(self.greeting_server_address.as_str()) {
            Err(ConfigError::Address)
        } else {
            Ok(())
        }
    }
}

/// A URI that asks the server at `greeting_server_address` to greet one of
/// the names of the pool, picked at random. For a valid target it is a
/// URI to `hyper`'s parser too.
pub fn generate_request_uri(greeting_server_address: &str) -> (uri: String)
    ensures
        exists|i: int|
            0 <= i < names().len() && uri@ == request_uri_text(
                greeting_server_address@,
                #[trigger] names()[i],
            ),
        valid_target(greeting_server_address@) ==> is_uri(uri@),
{
    let pool = name_pool();
    let picked = pick(&pool);
    let name = picked.unwrap();
    let ghost i = choose|i: int| 0 <= i < pool@.len() && pool@[i]@ == name@;
    assert(names()[i] == name@);
    request_uri(greeting_server_address, name)
}

} // verus!
