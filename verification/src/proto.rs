//! Trust decisions on the keys that a handshake authenticates.

use crate::auth::{AuthorizedKeys, KnownHosts, PublicKey, Tofu};
use vstd::prelude::*;

verus! {

/// Decide whether a client's authenticated static key is authorized, taking the
/// raw 32-byte key as produced by the handshake.
pub fn authorize_client(authorized: &AuthorizedKeys, client_static: &[u8]) -> (r: bool)
    ensures
        r == is_authorized(authorized@, client_static@),
{
    match PublicKey::from_bytes(client_static) {
        Ok(key) => authorized.contains(&key),
        Err(_) => false,
    }
}

/// The key is one of those listed.
pub open spec fn is_authorized(keys: Seq<(Seq<u8>, Seq<char>)>, key: Seq<u8>) -> bool {
    key.len() == crate::auth::KEY_LEN && exists|i: int|
        0 <= i < keys.len() && (#[trigger] keys[i]).0 == key
}

/// Run the client's TOFU decision against known_hosts for a server's
/// authenticated static key. Records the pin on first use.
pub fn verify_server(known: &mut KnownHosts, host: &str, server_static: &[u8]) -> (r: Tofu)
    requires
        old(known).wf(),
    ensures
        final(known).wf(),
        if server_static@.len() == crate::auth::KEY_LEN {
            &&& r == crate::auth::trusted(old(known)@, host@, server_static@)
            &&& final(known)@ == crate::auth::remembered(old(known)@, host@, server_static@)
        } else {
            r == Tofu::Mismatch && final(known)@ == old(known)@
        },
{
    match PublicKey::from_bytes(server_static) {
        Ok(key) => known.check_or_add(host, &key),
        Err(_) => Tofu::Mismatch,
    }
}

/// A client whose key is not listed is not authorized; one whose key was added
/// is.
pub proof fn law_only_listed_keys(
    keys: Seq<(Seq<u8>, Seq<char>)>,
    key: Seq<u8>,
    comment: Seq<char>,
    other: Seq<u8>,
)
    requires
        key.len() == crate::auth::KEY_LEN,
    ensures
        is_authorized(keys.push((key, comment)), key),
        other != key ==> is_authorized(keys.push((key, comment)), other) == is_authorized(
            keys,
            other,
        ),
        !is_authorized(Seq::empty(), other),
{
    let more = keys.push((key, comment));
    assert(more[keys.len() as int].0 == key);
    if other != key {
        if is_authorized(more, other) {
            let i = choose|i: int| 0 <= i < more.len() && (#[trigger] more[i]).0 == other;
            assert(keys[i] == more[i]);
        }
        if is_authorized(keys, other) {
            let i = choose|i: int| 0 <= i < keys.len() && (#[trigger] keys[i]).0 == other;
            assert(more[i] == keys[i]);
        }
    }
}

} // verus!
