//! Which hosts a leaf certificate is served for during the TLS handshake.

use vstd::prelude::*;

use crate::config::{hosts_of, Tool};
use crate::text::{same, strs};

verus! {

/// Is a leaf to be minted for this server name?
///
/// A client that sends none cannot be talking to one of the hijacked hosts. Minting for arbitrary
/// names would let any local process grow the cache without bounds.
pub fn serves(server_name: Option<&str>) -> (b: bool)
    ensures
        b == (server_name is Some && hosts_of(Tool::Kiro).contains(server_name->0@)),
{
    let name = match server_name {
        Some(name) => name,
        None => {
            return false;
        },
    };
    let hosts = Tool::Kiro.hosts();
    let mut i: usize = 0;
    while i < hosts.len()
        invariant
            i <= hosts@.len(),
            server_name == Some(name),
            strs(hosts@) == hosts_of(Tool::Kiro),
            forall|j: int| 0 <= j < i ==> #[trigger] hosts_of(Tool::Kiro)[j] != name@,
        decreases hosts@.len() - i,
    {
        assert(hosts_of(Tool::Kiro)[i as int] == hosts@[i as int]@);
        if same(hosts[i], name) {
            return true;
        }
        i += 1;
    }
    false
}

/// A certificate is served for the three hosts that are taken over, by their very names, and for no
/// other name.
pub proof fn law_only_redirected_hosts_are_served(name: &str, b: bool, none: bool)
    requires
        call_ensures(serves, (Some(name),), b),
        call_ensures(serves, (None::<&str>,), none),
    ensures
        b <==> (name@ == "runtime.us-east-1.kiro.dev"@ || name@ == "q.us-east-1.amazonaws.com"@
            || name@ == "codewhisperer.us-east-1.amazonaws.com"@),
        !none,
{
    let hosts = hosts_of(Tool::Kiro);
    assert(hosts[0] == "runtime.us-east-1.kiro.dev"@);
    assert(hosts[1] == "q.us-east-1.amazonaws.com"@);
    assert(hosts[2] == "codewhisperer.us-east-1.amazonaws.com"@);
    assert(hosts.contains(hosts[0]) && hosts.contains(hosts[1]) && hosts.contains(hosts[2]));
}

} // verus!
