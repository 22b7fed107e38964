//! What the plugin remembers between two calls.

use vstd::prelude::*;
use vstd::string::*;

verus! {

/// The state of the plugin: where the node's RPC socket lies, and the
/// network that the node works on. Both are unknown until the node has
/// told.
#[derive(Debug, PartialEq, Eq)]
pub struct State {
    pub cln_rpc_path: Option<String>,
    pub network: Option<String>,
}

/// The path of `file` in `dir`.
pub open spec fn joined(dir: Seq<char>, file: Seq<char>) -> Seq<char> {
    dir + "/"@ + file
}

/// The path of the node's RPC socket `rpc_file` in `lightning_dir`.
pub fn rpc_path(lightning_dir: &str, rpc_file: &str) -> (r: String)
    ensures
        r@ == joined(lightning_dir@, rpc_file@),
{
    let mut path = lightning_dir.to_owned();
    path.append("/");
    path.append(rpc_file);
    path
}

impl State {
    /// The state before the node has told anything.
    pub fn new() -> (r: Self)
        ensures
            r.cln_rpc_path is None,
            r.network is None,
    {
        State { cln_rpc_path: None, network: None }
    }

    /// Takes down what the node tells at start: its directory, the name
    /// of its RPC socket in there, and its network.
    pub fn configure(&mut self, lightning_dir: &str, rpc_file: &str, network: &str)
        ensures
            final(self).cln_rpc_path matches Some(path) && path@ == joined(
                lightning_dir@,
                rpc_file@,
            ),
            final(self).network matches Some(name) && name@ == network@,
    {
        self.network = Some(network.to_owned());
        self.cln_rpc_path = Some(rpc_path(lightning_dir, rpc_file));
    }
}

impl Clone for State {
    fn clone(&self) -> (r: Self)
        ensures
            r.cln_rpc_path is Some <==> self.cln_rpc_path is Some,
            r.network is Some <==> self.network is Some,
            self.cln_rpc_path matches Some(path) ==> r.cln_rpc_path.unwrap()@ == path@,
            self.network matches Some(name) ==> r.network.unwrap()@ == name@,
    {
        State {
            cln_rpc_path: match &self.cln_rpc_path {
                Some(path) => Some(path.clone()),
                None => None,
            },
            network: match &self.network {
                Some(name) => Some(name.clone()),
                None => None,
            },
        }
    }
}

} // verus!
