//! Packets on a stream: four bytes of length, the highest first, and the payload.
use vstd::prelude::*;
use crate::digits::{be_bytes, be_value, lemma_be_round_trip, pow256, push_be, read_be32};

verus! {

/// The largest packet of the chat protocol.
pub const MAX_CHAT_PACKET: usize = 262_144;

/// The largest packet of the presence protocol.
pub const MAX_STATUS_PACKET: usize = 65_536;

/// Which packets a protocol allows.
#[derive(Clone, Copy, Debug, PartialEq, Eq, Structural)]
pub enum PacketRule {
    /// Up to `MAX_CHAT_PACKET` bytes.
    Chat,
    /// From one to `MAX_STATUS_PACKET` bytes.
    Status,
}

impl PacketRule {
    /// Whether a payload of this length is allowed.
    pub open spec fn allows(self, len: int) -> bool {
        match self {
            PacketRule::Chat => len <= MAX_CHAT_PACKET,
            PacketRule::Status => 1 <= len <= MAX_STATUS_PACKET,
        }
    }

    fn check(self, len: usize) -> (r: bool)
        ensures
            r == self.allows(len as int),
    {
        match self {
            PacketRule::Chat => len <= MAX_CHAT_PACKET,
            PacketRule::Status => 1 <= len && len <= MAX_STATUS_PACKET,
        }
    }
}

/// A payload with its length in front.
pub open spec fn framed(payload: Seq<u8>) -> Seq<u8> {
    be_bytes(payload.len(), 4) + payload
}

/// What a receiver reads out of a stream: the length, then as many bytes.
pub open spec fn unframed(rule: PacketRule, stream: Seq<u8>) -> Option<Seq<u8>> {
    if stream.len() < 4 {
        None
    } else {
        let len = be_value(stream.take(4)) as int;
        if rule.allows(len) && stream.len() >= 4 + len {
            Some(stream.subrange(4, 4 + len))
        } else {
            None
        }
    }
}

/// The bytes to send for a payload, or nothing if it may not be sent.
pub fn frame(rule: PacketRule, payload: &Vec<u8>) -> (r: Option<Vec<u8>>)
    ensures
        match r {
            Some(bytes) => rule.allows(payload@.len() as int) && bytes@ == framed(payload@),
            None => !rule.allows(payload@.len() as int),
        },
{
    if !rule.check(payload.len()) {
        return None;
    }
    let mut bytes: Vec<u8> = Vec::new();
    push_be(&mut bytes, payload.len() as u64, 4);
    let mut i: usize = 0;
    let ghost head = bytes@;
    while i < payload.len()
        invariant
            0 <= i <= payload@.len(),
            bytes@ == head + payload@.take(i as int),
        decreases payload@.len() - i,
    {
        bytes.push(payload[i]);
        i += 1;
        assert(payload@.take(i as int) =~= payload@.take(i - 1).push(payload@[i - 1]));
    }
    assert(bytes@ =~= framed(payload@)) by {
        assert(payload@.take(payload@.len() as int) =~= payload@);
        assert(head =~= be_bytes(payload@.len(), 4));
    }
    Some(bytes)
}

/// How many bytes follow the four bytes of length, or nothing if the packet is to be refused.
pub fn frame_length(rule: PacketRule, head: [u8; 4]) -> (r: Option<usize>)
    ensures
        match r {
            Some(len) => len == be_value(head@) && rule.allows(len as int),
            None => !rule.allows(be_value(head@) as int),
        },
{
    assert(head@.subrange(0, 4) =~= head@);
    let len: u32 = read_be32(head.as_slice(), 0);
    if rule.check(len as usize) {
        Some(len as usize)
    } else {
        None
    }
}

/// Whether the answer to a chat packet acknowledges it.
pub fn is_acknowledgement(answer: [u8; 2]) -> (r: bool)
    ensures
        r == (answer@ == seq![111u8, 107u8]),
{
    let r: bool = answer[0] == 111 && answer[1] == 107;
    assert(r ==> answer@ =~= seq![111u8, 107u8]);
    r
}

/// What was framed is read back, whatever follows it on the stream.
pub proof fn law_frames_are_read_back(rule: PacketRule, payload: Seq<u8>, rest: Seq<u8>)
    requires
        rule.allows(payload.len() as int),
    ensures
        unframed(rule, framed(payload) + rest) == Some(payload),
{
    reveal_with_fuel(pow256, 6);
    lemma_be_round_trip(payload.len(), 4);
    let stream = framed(payload) + rest;
    assert(stream.take(4) =~= be_bytes(payload.len(), 4));
    assert(stream.subrange(4, 4 + payload.len() as int) =~= payload);
}

/// Packets of the chat have at most 256 KiB and those of presence from one byte to 64 KiB:
/// nothing larger is read from a stream, whatever it says of its length.
pub proof fn law_packets_are_bounded(rule: PacketRule, stream: Seq<u8>)
    ensures
        unframed(PacketRule::Chat, stream) is Some ==> unframed(
            PacketRule::Chat,
            stream,
        )->0.len() <= 262_144,
        unframed(PacketRule::Status, stream) is Some ==> 1 <= unframed(
            PacketRule::Status,
            stream,
        )->0.len() <= 65_536,
        unframed(rule, stream) is Some ==> unframed(rule, stream)->0.len() + 4 <= stream.len(),
        forall|len: int| 0 <= len <= 262_144 ==> #[trigger] PacketRule::Chat.allows(len),
        forall|len: int| 1 <= len <= 65_536 ==> #[trigger] PacketRule::Status.allows(len),
{
}

} // verus!
