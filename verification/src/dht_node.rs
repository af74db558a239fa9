//! What a node reports of its dealings with the distributed hash table.

use crate::text::{bytes_hex_debug, hex_debug_bytes};
use vstd::prelude::*;

verus! {

/// What can be asked of the distributed hash table.
#[derive(Clone, Copy, Debug, PartialEq, Eq, Structural)]
pub enum DhtOperation {
    AnnouncePeer,
    FindNodes,
    GetPeers,
}

/// What is reported where an operation on the file with this infohash failed.
pub open spec fn failure_text(operation: DhtOperation, info_hash: Seq<u8>) -> Seq<char> {
    (match operation {
        DhtOperation::AnnouncePeer => "announce peer failed for infohash "@,
        DhtOperation::FindNodes => "find nodes failed for infohash "@,
        DhtOperation::GetPeers => "get peers failed for infohash "@,
    }) + bytes_hex_debug(info_hash)
}

impl DhtOperation {
    /// What is reported where the operation on the file with this infohash
    /// failed.
    pub fn failure(self, info_hash: &[u8]) -> (res: String)
        ensures
            res@ == failure_text(self, info_hash@),
            res@ == (match self {
                DhtOperation::AnnouncePeer => "announce peer failed for infohash "@,
                DhtOperation::FindNodes => "find nodes failed for infohash "@,
                DhtOperation::GetPeers => "get peers failed for infohash "@,
            }) + bytes_hex_debug(info_hash@),
    {
        let mut text = match self {
            DhtOperation::AnnouncePeer => String::from_str("announce peer failed for infohash "),
            DhtOperation::FindNodes => String::from_str("find nodes failed for infohash "),
            DhtOperation::GetPeers => String::from_str("get peers failed for infohash "),
        };
        text.append(hex_debug_bytes(info_hash).as_str());
        text
    }
}

} // verus!
