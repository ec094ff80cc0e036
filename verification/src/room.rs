//! What members of a conversation send each other inside the encryption.
use vstd::prelude::*;

verus! {

/// An application message of a room or of a direct conversation.
#[derive(Debug)]
pub enum RoomAppMessage {
    /// A line of text.
    Text {
        text: String,
    },
    /// The announcement of a file.
    FileMeta {
        id: Vec<u8>,
        name: String,
        mime: String,
        size: u64,
        chunks: u32,
        chunk_size: u32,
        content_hash: Vec<u8>,
    },
    /// A piece of a file.
    FileChunk {
        id: Vec<u8>,
        index: u32,
        bytes: Vec<u8>,
    },
    /// A member's key for envelopes through a hub.
    KemAdvertisement {
        fingerprint: String,
        kem_pub: Vec<u8>,
    },
}

} // verus!
