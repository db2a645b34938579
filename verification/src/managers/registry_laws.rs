//! What holds of the registry's operations taken together.

use vstd::prelude::*;
use crate::managers::error::ServerError;
use crate::managers::service_manager::helper::{taken, RegistryView};
use crate::managers::service_manager::{add_plan, after_connect, after_handshake, route};

verus! {

/// Once an address is bound to a name, neither is free: a check of that name
/// with any address, and of any name with that address, finds them taken.
pub proof fn law_bound_is_taken(
    ports: Map<Seq<char>, Seq<char>>,
    name: Seq<char>,
    address: Seq<char>,
    other_name: Seq<char>,
    other_address: Seq<char>,
)
    ensures
        taken(ports.insert(name, address), name, other_address),
        taken(ports.insert(name, address), other_name, address),
{
    let after = ports.insert(name, address);
    assert(after.dom().contains(name) && after[name] == address);
}

/// Taking a name out of the registry frees it and its address again, unless
/// the address is also bound to another name.
pub proof fn law_remove_frees(
    ports: Map<Seq<char>, Seq<char>>,
    name: Seq<char>,
    address: Seq<char>,
)
    requires
        forall|other: Seq<char>|
            ports.contains_key(other) && other != name ==> #[trigger] ports[other] != address,
    ensures
        !taken(ports.insert(name, address).remove(name), name, address),
{
    let after = ports.insert(name, address).remove(name);
    if after.contains_value(address) {
        let other = choose|other: Seq<char>| #[trigger]
            after.dom().contains(other) && after[other] == address;
        assert(ports.contains_key(other) && other != name);
        assert(ports[other] != address);
    }
}

/// No address is bound to two names.
pub open spec fn exclusive(ports: Map<Seq<char>, Seq<char>>) -> bool {
    forall|a: Seq<char>, b: Seq<char>|
        ports.contains_key(a) && ports.contains_key(b) && a != b ==> #[trigger] ports[a]
            != #[trigger] ports[b]
}

/// Binding an address to a name after the check found both free keeps every
/// address with one name at most; so does taking a name out.
pub proof fn law_checked_binding_is_exclusive(
    ports: Map<Seq<char>, Seq<char>>,
    name: Seq<char>,
    address: Seq<char>,
)
    requires
        exclusive(ports),
    ensures
        !taken(ports, name, address) ==> exclusive(ports.insert(name, address)),
        exclusive(ports.remove(name)),
{
    if !taken(ports, name, address) {
        let after = ports.insert(name, address);
        assert forall|a: Seq<char>, b: Seq<char>|
            after.contains_key(a) && after.contains_key(b) && a != b implies #[trigger] after[a]
            != #[trigger] after[b] by {
            if a != name {
                assert(ports.dom().contains(a));
            }
            if b != name {
                assert(ports.dom().contains(b));
            }
        }
    }
}

/// An `ADD` never binds an address that is bound already: where the address
/// that the argument stands for is bound to a name, the plan fails with
/// `TAKEN`, whatever the name.
pub proof fn law_add_refuses_bound_address(
    ports: Map<Seq<char>, Seq<char>>,
    name: Seq<char>,
    arg: Seq<char>,
)
    ensures
        add_plan(ports, name, arg) is Ok ==> !ports.contains_value(
            add_plan(ports, name, arg)->Ok_0,
        ),
        add_plan(ports, name, arg) is Err ==> add_plan(ports, name, arg) == Err::<
            Seq<char>,
            ServerError,
        >(ServerError::TAKEN),
{
}

/// The hub keeps every address with one name at most: a command, a
/// connection attempt at the address that the plan of an `ADD` gave, and a
/// handshake each leave a registry in which no address is bound to two
/// names, where they found one.
pub proof fn law_hub_keeps_addresses_exclusive(
    state: RegistryView,
    dump: Seq<char>,
    message: Seq<char>,
    name: Seq<char>,
    arg: Seq<char>,
    connection: Option<u64>,
    reply: Result<Seq<char>, ServerError>,
)
    requires
        exclusive(state.ports),
    ensures
        exclusive(route(state, dump, message).0.ports),
        add_plan(state.ports, name, arg) is Ok ==> exclusive(
            after_connect(state, name, add_plan(state.ports, name, arg)->Ok_0, connection).0.ports,
        ),
        exclusive(after_handshake(state, name, reply).0.ports),
{
    if add_plan(state.ports, name, arg) is Ok {
        let address = add_plan(state.ports, name, arg)->Ok_0;
        let after = after_connect(state, name, address, connection).0.ports;
        assert forall|a: Seq<char>, b: Seq<char>|
            after.contains_key(a) && after.contains_key(b) && a != b implies #[trigger] after[a]
            != #[trigger] after[b] by {
            if after[a] == after[b] {
                if state.ports.contains_key(a) && after[a] == state.ports[a] {
                    assert(state.ports.dom().contains(a));
                }
                if state.ports.contains_key(b) && after[b] == state.ports[b] {
                    assert(state.ports.dom().contains(b));
                }
            }
        }
    }
}

} // verus!
