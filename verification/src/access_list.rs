//! Which torrents are served.

use vstd::prelude::*;

use aquatic_common::access_list::{AccessList, AccessListMode as ListMode};

use crate::config::AccessListMode;
use crate::protocol::InfoHash;

verus! {

/// `aquatic_common::access_list::AccessList`, a set of info hashes.
#[verifier::external_type_specification]
#[verifier::external_body]
pub struct ExAccessList(AccessList);

/// The info hashes on an access list.
pub uninterp spec fn listed_hashes(list: AccessList) -> Set<Seq<u8>>;

/// Whether a torrent is served.
pub open spec fn is_allowed(mode: AccessListMode, listed: Set<Seq<u8>>, hash: Seq<u8>) -> bool {
    match mode {
        AccessListMode::Allow => listed.contains(hash),
        AccessListMode::Deny => !listed.contains(hash),
        AccessListMode::Off => true,
    }
}

/// Calls `aquatic_common::access_list::AccessList::allows`. With mode `Allow` it
/// tells whether the info hash is on the list, with mode `Deny` whether it is not,
/// and with mode `Off` it is always true.
#[verifier::external_body]
pub(crate) fn allows(list: &AccessList, mode: AccessListMode, hash: &InfoHash) -> (result: bool)
    ensures
        result == is_allowed(mode, listed_hashes(*list), hash@),
{
    let mode = match mode {
        AccessListMode::Allow => ListMode::Allow,
        AccessListMode::Deny => ListMode::Deny,
        AccessListMode::Off => ListMode::Off,
    };
    list.allows(mode, &hash.0)
}

/// A torrent is served under exactly one of the two uses of a list, and always where
/// the list is not used. To list a torrent matters to that torrent alone.
pub proof fn listing_decides_on_service(
    mode: AccessListMode,
    listed: Set<Seq<u8>>,
    hash: Seq<u8>,
    other: Seq<u8>,
)
    ensures
        is_allowed(AccessListMode::Off, listed, hash),
        is_allowed(AccessListMode::Allow, listed, hash) <==> !is_allowed(
            AccessListMode::Deny,
            listed,
            hash,
        ),
        is_allowed(AccessListMode::Allow, listed.insert(hash), hash),
        !is_allowed(AccessListMode::Allow, listed.remove(hash), hash),
        other != hash ==> is_allowed(mode, listed.insert(hash), other) == is_allowed(
            mode,
            listed,
            other,
        ),
        other != hash ==> is_allowed(mode, listed.remove(hash), other) == is_allowed(
            mode,
            listed,
            other,
        ),
{
}

} // verus!
