//! Packets of the virtual network, as far as forwarding reads them.

use vstd::prelude::*;

use crate::ipv4::Ipv4Addr;

verus! {

/// What a packet carries.
#[derive(Clone, Copy, Debug, PartialEq, Eq, Structural)]
pub enum Protocol {
    /// An IPv4 packet between clients.
    IpTurn,
    /// Anything else; the protocol number.
    Unknown(u8),
}

/// The numbers by which packets name their protocols.
#[derive(Clone, Copy, Debug, PartialEq, Eq, Structural)]
pub struct ProtocolNumbers {
    /// The number of `Protocol::IpTurn`.
    pub ip_turn: u8,
}

impl ProtocolNumbers {
    /// The protocol with the given number.
    pub open spec fn named(self, number: u8) -> Protocol {
        if number == self.ip_turn {
            Protocol::IpTurn
        } else {
            Protocol::Unknown(number)
        }
    }

    /// The protocol with the given number.
    pub fn protocol(&self, number: u8) -> (r: Protocol)
        ensures
            r == self.named(number),
    {
        if number == self.ip_turn {
            Protocol::IpTurn
        } else {
            Protocol::Unknown(number)
        }
    }
}

/// A packet: its bytes, and the header fields that forwarding reads.
#[derive(Debug)]
pub struct NetPacket {
    /// All bytes, header and data.
    pub buffer: Vec<u8>,
    /// The time to live, once the hop to the server was counted.
    pub ttl: u8,
    /// The sender's virtual address.
    pub source: Ipv4Addr,
    /// The receiver's virtual address.
    pub destination: Ipv4Addr,
    /// Whether the data is encrypted for the server.
    pub encrypt: bool,
    /// The number of data bytes.
    pub data_len: usize,
}

impl NetPacket {
    /// The protocol that the first byte names. A packet without bytes is of protocol number 0,
    /// which then stands for no known protocol.
    pub open spec fn carried(self, numbers: ProtocolNumbers) -> Protocol {
        if self.buffer@.len() > 0 {
            numbers.named(self.buffer@[0])
        } else {
            Protocol::Unknown(0)
        }
    }

    /// The protocol of the packet.
    pub fn protocol(&self, numbers: &ProtocolNumbers) -> (r: Protocol)
        ensures
            r == self.carried(*numbers),
    {
        if self.buffer.len() > 0 {
            numbers.protocol(self.buffer[0])
        } else {
            Protocol::Unknown(0)
        }
    }
}

/// A packet carries IPv4 if and only if its first byte is the number of IPv4, whatever follows.
/// Any other first byte is the number of its protocol.
pub proof fn law_first_byte_names_the_protocol(packet: NetPacket, numbers: ProtocolNumbers)
    ensures
        packet.carried(numbers) == Protocol::IpTurn <==> packet.buffer@.len() > 0
            && packet.buffer@[0] == numbers.ip_turn,
        packet.buffer@.len() > 0 && packet.buffer@[0] != numbers.ip_turn ==> packet.carried(numbers)
            == Protocol::Unknown(packet.buffer@[0]),
        packet.buffer@.len() == 0 ==> packet.carried(numbers) == Protocol::Unknown(0u8),
{
}

/// Different protocol numbers name different protocols.
pub proof fn law_numbers_name_protocols_apart(numbers: ProtocolNumbers, a: u8, b: u8)
    ensures
        numbers.named(numbers.ip_turn) == Protocol::IpTurn,
        numbers.named(a) == numbers.named(b) <==> a == b,
{
}

} // verus!
