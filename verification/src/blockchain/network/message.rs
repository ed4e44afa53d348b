//! Messages between peers: a type byte, a big-endian payload length, then
//! the payload.
use vstd::prelude::*;
use vstd::utf8::encode_utf8;
use crate::text::{decimal, push_char, push_str, u64_text};

verus! {

#[derive(Debug, Clone, Copy, PartialEq, Eq, Structural)]
pub enum Message {
    Ping,
    Pong,
    Transaction,
    BalanceRequest,
    BalanceResponse,
    GetPeers,
    Peers,
    NodeAddress,
    RegisterAssetRequest,
    RegisterAssetResponse,
    GetStatus,
    Status,
    GetBlocks,
    Blocks,
    Hello,
    HelloAck,
    GetHeaders,
    Headers,
    GetBlock,
    Block,
    NewBlock,
    NewTransaction,
}

/// The byte a message type is sent as.
pub open spec fn code(m: Message) -> u8 {
    match m {
        Message::Ping => 1,
        Message::Pong => 2,
        Message::Transaction => 3,
        Message::BalanceRequest => 4,
        Message::BalanceResponse => 5,
        Message::GetPeers => 6,
        Message::Peers => 7,
        Message::NodeAddress => 8,
        Message::RegisterAssetRequest => 9,
        Message::RegisterAssetResponse => 10,
        Message::GetStatus => 11,
        Message::Status => 12,
        Message::GetBlocks => 13,
        Message::Blocks => 14,
        Message::Hello => 15,
        Message::HelloAck => 16,
        Message::GetHeaders => 17,
        Message::Headers => 18,
        Message::GetBlock => 19,
        Message::Block => 20,
        Message::NewBlock => 21,
        Message::NewTransaction => 22,
    }
}

/// The message type a byte stands for.
pub open spec fn of_code(b: u8) -> Option<Message> {
    if b == 1 {
        Some(Message::Ping)
    } else if b == 2 {
        Some(Message::Pong)
    } else if b == 3 {
        Some(Message::Transaction)
    } else if b == 4 {
        Some(Message::BalanceRequest)
    } else if b == 5 {
        Some(Message::BalanceResponse)
    } else if b == 6 {
        Some(Message::GetPeers)
    } else if b == 7 {
        Some(Message::Peers)
    } else if b == 8 {
        Some(Message::NodeAddress)
    } else if b == 9 {
        Some(Message::RegisterAssetRequest)
    } else if b == 10 {
        Some(Message::RegisterAssetResponse)
    } else if b == 11 {
        Some(Message::GetStatus)
    } else if b == 12 {
        Some(Message::Status)
    } else if b == 13 {
        Some(Message::GetBlocks)
    } else if b == 14 {
        Some(Message::Blocks)
    } else if b == 15 {
        Some(Message::Hello)
    } else if b == 16 {
        Some(Message::HelloAck)
    } else if b == 17 {
        Some(Message::GetHeaders)
    } else if b == 18 {
        Some(Message::Headers)
    } else if b == 19 {
        Some(Message::GetBlock)
    } else if b == 20 {
        Some(Message::Block)
    } else if b == 21 {
        Some(Message::NewBlock)
    } else if b == 22 {
        Some(Message::NewTransaction)
    } else {
        None
    }
}

/// The most payload bytes a frame may declare.
pub const MAX_PAYLOAD_SIZE: usize = 64 * 1024 * 1024;

/// The value of four bytes read big-endian.
pub open spec fn be32(b: Seq<u8>) -> nat {
    (b[0] * 16777216 + b[1] * 65536 + b[2] * 256 + b[3]) as nat
}

/// The bytes of a frame: type byte, four length bytes (big-endian), payload.
pub open spec fn frame_bytes(m: Message, payload: Seq<u8>) -> Seq<u8> {
    let n = payload.len();
    seq![code(m), (n / 16777216) as u8, ((n / 65536) % 256) as u8, ((n / 256) % 256) as u8, (n % 256) as u8] + payload
}

/// The text of a HELLO (and HELLO ACK) payload.
pub open spec fn hello_text(network: Seq<char>, protocol: u32, chain_id: u64, height: u64, tip: Seq<char>) -> Seq<char> {
    network + seq!['|'] + decimal(protocol as nat) + seq!['|'] + decimal(chain_id as nat) + seq!['|'] + decimal(height as nat)
        + seq!['|'] + tip
}

impl Message {
    pub fn to_bytes(&self) -> (r: [u8; 1])
        ensures
            r@ == seq![code(*self)],
    {
        let b: u8 = match self {
            Message::Ping => 1,
            Message::Pong => 2,
            Message::Transaction => 3,
            Message::BalanceRequest => 4,
            Message::BalanceResponse => 5,
            Message::GetPeers => 6,
            Message::Peers => 7,
            Message::NodeAddress => 8,
            Message::RegisterAssetRequest => 9,
            Message::RegisterAssetResponse => 10,
            Message::GetStatus => 11,
            Message::Status => 12,
            Message::GetBlocks => 13,
            Message::Blocks => 14,
            Message::Hello => 15,
            Message::HelloAck => 16,
            Message::GetHeaders => 17,
            Message::Headers => 18,
            Message::GetBlock => 19,
            Message::Block => 20,
            Message::NewBlock => 21,
            Message::NewTransaction => 22,
        };
        let r = [b];
        assert(r@ =~= seq![code(*self)]);
        r
    }

    pub fn from_byte(byte: u8) -> (r: Option<Self>)
        ensures
            r == of_code(byte),
    {
        match byte {
            1 => Some(Message::Ping),
            2 => Some(Message::Pong),
            3 => Some(Message::Transaction),
            4 => Some(Message::BalanceRequest),
            5 => Some(Message::BalanceResponse),
            6 => Some(Message::GetPeers),
            7 => Some(Message::Peers),
            8 => Some(Message::NodeAddress),
            9 => Some(Message::RegisterAssetRequest),
            10 => Some(Message::RegisterAssetResponse),
            11 => Some(Message::GetStatus),
            12 => Some(Message::Status),
            13 => Some(Message::GetBlocks),
            14 => Some(Message::Blocks),
            15 => Some(Message::Hello),
            16 => Some(Message::HelloAck),
            17 => Some(Message::GetHeaders),
            18 => Some(Message::Headers),
            19 => Some(Message::GetBlock),
            20 => Some(Message::Block),
            21 => Some(Message::NewBlock),
            22 => Some(Message::NewTransaction),
            _ => None,
        }
    }

    /// The frame `write_to` sends: `None` when the payload is longer than a
    /// 32-bit length can say.
    pub fn frame(&self, payload: &[u8]) -> (r: Option<Vec<u8>>)
        ensures
            payload@.len() > u32::MAX ==> r is None,
            payload@.len() <= u32::MAX ==> (r matches Some(f) && f@ == frame_bytes(*self, payload@)),
    {
        if payload.len() > 4294967295usize {
            return None;
        }
        let n = payload.len() as u64;
        let mut out: Vec<u8> = Vec::new();
        out.push(self.to_bytes()[0]);
        out.push((n / 16777216) as u8);
        out.push(((n / 65536) % 256) as u8);
        out.push(((n / 256) % 256) as u8);
        out.push((n % 256) as u8);
        let mut i: usize = 0;
        while i < payload.len()
            invariant
                i <= payload@.len(),
                payload@.len() <= u32::MAX,
                n == payload@.len(),
                out@ == frame_bytes(*self, payload@).take(5 + i),
            decreases payload@.len() - i,
        {
            out.push(payload[i]);
            assert(frame_bytes(*self, payload@).take(5 + i + 1) =~= frame_bytes(*self, payload@).take(5 + i).push(payload@[i as int]));
            i += 1;
        }
        assert(frame_bytes(*self, payload@).take(5 + payload@.len() as int) =~= frame_bytes(*self, payload@));
        Some(out)
    }

    /// The payload length four header bytes declare, or `None` when it is
    /// over `MAX_PAYLOAD_SIZE`.
    pub fn declared_length(length: [u8; 4]) -> (r: Option<usize>)
        ensures
            be32(length@) > MAX_PAYLOAD_SIZE ==> r is None,
            be32(length@) <= MAX_PAYLOAD_SIZE ==> r == Some(be32(length@) as usize),
    {
        let n: u64 = length[0] as u64 * 16777216 + length[1] as u64 * 65536 + length[2] as u64 * 256 + length[3] as u64;
        if n > MAX_PAYLOAD_SIZE as u64 {
            return None;
        }
        Some(n as usize)
    }

    /// `network|protocol|chain_id|height|tip` in UTF-8.
    pub fn hello_payload(network: &str, protocol: u32, chain_id: u64, height: u64, tip: &str) -> (r: Vec<u8>)
        ensures
            r@ == encode_utf8(hello_text(network@, protocol, chain_id, height, tip@)),
    {
        let mut s = String::new();
        push_str(&mut s, network);
        push_char(&mut s, '|');
        push_str(&mut s, u64_text(protocol as u64).as_str());
        push_char(&mut s, '|');
        push_str(&mut s, u64_text(chain_id).as_str());
        push_char(&mut s, '|');
        push_str(&mut s, u64_text(height).as_str());
        push_char(&mut s, '|');
        push_str(&mut s, tip);
        assert(s@ =~= hello_text(network@, protocol, chain_id, height, tip@));
        s.as_str().as_bytes_vec()
    }

    /// The same payload as HELLO.
    pub fn hello_ack_payload(network: &str, protocol: u32, chain_id: u64, height: u64, tip: &str) -> (r: Vec<u8>)
        ensures
            r@ == encode_utf8(hello_text(network@, protocol, chain_id, height, tip@)),
    {
        Message::hello_payload(network, protocol, chain_id, height, tip)
    }
}

/// A type byte reads back as the message it was written from, and a byte
/// that reads as a message is that message's byte.
pub proof fn lemma_code_round_trip(m: Message, b: u8)
    ensures
        of_code(code(m)) == Some(m),
        of_code(b) matches Some(x) ==> code(x) == b,
{
}

} // verus!
