//! What the daemon is started with.

use vstd::prelude::*;

verus! {

/// Whether and how an address may be served.
#[derive(Clone, Copy, Debug, PartialEq, Eq, Structural)]
pub enum Binding {
    /// Only this machine can reach it.
    Loopback,
    /// The network can reach it, and that was asked for; a warning is due.
    Exposed,
    /// The network could reach it, and nobody asked for that.
    Refused,
}

/// How an address may be served.
pub open spec fn binding_of(is_loopback: bool, allow_remote: bool) -> Binding {
    if is_loopback {
        Binding::Loopback
    } else if allow_remote {
        Binding::Exposed
    } else {
        Binding::Refused
    }
}

/// Beyond this machine the interface is served only where that was acknowledged:
/// what it carries is not encrypted.
pub fn check_bind(is_loopback: bool, allow_remote: bool) -> (r: Binding)
    ensures
        r == binding_of(is_loopback, allow_remote),
{
    if is_loopback {
        Binding::Loopback
    } else if allow_remote {
        Binding::Exposed
    } else {
        Binding::Refused
    }
}

/// The directory for sockets.
pub open spec fn chosen_dir(
    argument: Option<String>,
    environment: Option<String>,
) -> Option<String> {
    match argument {
        Some(dir) => Some(dir),
        None => environment,
    }
}

/// The directory for sockets: the one of the command line before the one of the
/// environment.
pub fn runtime_dir(argument: Option<String>, environment: Option<String>) -> (r: Option<String>)
    ensures
        r == chosen_dir(argument, environment),
{
    match argument {
        Some(dir) => Some(dir),
        None => environment,
    }
}


/// The network reaches the interface only where that was allowed; this machine always
/// does, and no address of it is refused or warned of.
pub proof fn law_network_needs_permission(is_loopback: bool, allow_remote: bool)
    ensures
        binding_of(is_loopback, allow_remote) == Binding::Exposed <==> !is_loopback && allow_remote,
        binding_of(is_loopback, allow_remote) == Binding::Refused <==> !is_loopback
            && !allow_remote,
        binding_of(true, allow_remote) == Binding::Loopback,
{
}

/// What was said on the command line wins over the environment.
pub proof fn law_command_line_wins(argument: Option<String>, environment: Option<String>)
    ensures
        argument is Some ==> chosen_dir(argument, environment) == argument,
        argument is None ==> chosen_dir(argument, environment) == environment,
{
}

} // verus!
