//! The name of the notifications protocol.
use vstd::prelude::*;
use vstd::string::StringExecFns;

verus! {

/// What every name ends with.
pub const NAME: &'static str = "/pbft/1";

/// Name of the notifications protocol used by PBFT: the chain's genesis hash, as text, the
/// fork id of the chain if it has one, and `NAME`.
///
/// Must be registered towards the networking in order for PBFT to properly function.
pub fn standard_name(genesis_hash: &str, fork_id: Option<&str>) -> (r: String)
    ensures
        r@ == "/"@ + genesis_hash@ + (match fork_id {
            Some(fork_id) => "/"@ + fork_id@,
            None => Seq::empty(),
        }) + NAME@,
{
    let mut name = String::new();
    name.append("/");
    name.append(genesis_hash);
    if let Some(fork_id) = fork_id {
        name.append("/");
        name.append(fork_id);
    }
    name.append(NAME);
    assert(name@ =~= "/"@ + genesis_hash@ + (match fork_id {
        Some(fork_id) => "/"@ + fork_id@,
        None => Seq::empty(),
    }) + NAME@);
    name
}

/// Chains with different genesis hashes of one length, and forks of a chain with different ids,
/// have different names.
pub proof fn law_names_differ(
    genesis: (&str, &str),
    fork: (Option<&str>, Option<&str>),
    name: (String, String),
)
    requires
        call_ensures(standard_name, (genesis.0, fork.0), name.0),
        call_ensures(standard_name, (genesis.1, fork.1), name.1),
        genesis.0@.len() == genesis.1@.len(),
        name.0@ == name.1@,
    ensures
        genesis.0@ == genesis.1@,
        fork.0 is Some <==> fork.1 is Some,
        fork.0 is Some ==> (fork.0->0)@ == (fork.1->0)@,
{
    reveal_strlit("/");
    assert("/"@ =~= seq!['/']);
    let n = genesis.0@.len() as int;
    let (a, b) = (name.0@, name.1@);
    assert(genesis.0@ =~= a.subrange(1, n + 1));
    assert(genesis.1@ =~= b.subrange(1, n + 1));
    let m = a.len() - NAME@.len();
    if fork.0 is Some {
        assert((fork.0->0)@ =~= a.subrange(n + 2, m));
    }
    if fork.1 is Some {
        assert((fork.1->0)@ =~= b.subrange(n + 2, m));
    }
}

} // verus!
