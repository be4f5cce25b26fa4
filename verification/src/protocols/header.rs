//! The closed set of header variants, for code that handles any of them.

use vstd::prelude::*;
use crate::error::DecodeError;
use crate::protocols::arp_header::ArpHeader;
use crate::protocols::ethernet_header::EthernetHeader;
use crate::protocols::ip::ipv4_header::IPv4Header;
use crate::protocols::ip::ipv6_header::IPv6Header;
use crate::protocols::tcp::tcp_header::TcpHeader;
use crate::types::bit_stream::{BitStream, Bits};
use crate::types::byte_object::ByteObject;

verus! {

/// Which header a run of bits is to be read as.
#[derive(Clone, Copy, Debug, PartialEq, Eq, Structural)]
pub enum HeaderKind {
    Ethernet,
    Arp,
    IPv4,
    IPv6,
    Tcp,
}

/// Any one of the headers that this stack knows.
#[derive(Clone, Copy, Debug, PartialEq, Eq)]
pub enum Header {
    Ethernet(EthernetHeader),
    Arp(ArpHeader),
    IPv4(IPv4Header),
    IPv6(IPv6Header),
    Tcp(TcpHeader),
}

/// `value` as a header of its variant, or the fault it stands for.
pub open spec fn wrapped<T>(
    value: Result<T, DecodeError>,
    wrap: spec_fn(T) -> Header,
) -> Result<Header, DecodeError> {
    match value {
        Ok(header) => Ok(wrap(header)),
        Err(e) => Err(e),
    }
}

impl Header {
    /// The variant of the header.
    pub open spec fn kind_of(&self) -> HeaderKind {
        match self {
            Header::Ethernet(_) => HeaderKind::Ethernet,
            Header::Arp(_) => HeaderKind::Arp,
            Header::IPv4(_) => HeaderKind::IPv4,
            Header::IPv6(_) => HeaderKind::IPv6,
            Header::Tcp(_) => HeaderKind::Tcp,
        }
    }

    /// The wire layout of the header.
    pub open spec fn encoding(&self) -> Seq<bool> {
        match self {
            Header::Ethernet(h) => h.encoding(),
            Header::Arp(h) => h.encoding(),
            Header::IPv4(h) => h.encoding(),
            Header::IPv6(h) => h.encoding(),
            Header::Tcp(h) => h.encoding(),
        }
    }

    /// The header meets the invariant of its variant.
    pub open spec fn valid(&self) -> bool {
        match self {
            Header::Ethernet(h) => h.valid(),
            Header::Arp(h) => h.valid(),
            Header::IPv4(h) => h.valid(),
            Header::IPv6(h) => h.valid(),
            Header::Tcp(h) => h.valid(),
        }
    }

    /// How many bits behind the encoding a decoder consumes and drops.
    pub open spec fn discarded(&self) -> nat {
        match self {
            Header::Ethernet(h) => h.discarded(),
            Header::Arp(h) => h.discarded(),
            Header::IPv4(h) => h.discarded(),
            Header::IPv6(h) => h.discarded(),
            Header::Tcp(h) => h.discarded(),
        }
    }

    /// What decoding makes of a run of bits that starts with a header of
    /// the given kind.
    pub open spec fn decoding(kind: HeaderKind, bits: Seq<bool>) -> Result<Header, DecodeError> {
        match kind {
            HeaderKind::Ethernet => wrapped(
                EthernetHeader::decoding(bits),
                |h: EthernetHeader| Header::Ethernet(h),
            ),
            HeaderKind::Arp => wrapped(ArpHeader::decoding(bits), |h: ArpHeader| Header::Arp(h)),
            HeaderKind::IPv4 => wrapped(
                IPv4Header::decoding(bits),
                |h: IPv4Header| Header::IPv4(h),
            ),
            HeaderKind::IPv6 => wrapped(
                IPv6Header::decoding(bits),
                |h: IPv6Header| Header::IPv6(h),
            ),
            HeaderKind::Tcp => wrapped(TcpHeader::decoding(bits), |h: TcpHeader| Header::Tcp(h)),
        }
    }

    /// How many of the bits a successful decoding of the given kind
    /// consumes.
    pub open spec fn decoded_len(kind: HeaderKind, bits: Seq<bool>) -> nat {
        match kind {
            HeaderKind::Ethernet => EthernetHeader::decoded_len(bits),
            HeaderKind::Arp => ArpHeader::decoded_len(bits),
            HeaderKind::IPv4 => IPv4Header::decoded_len(bits),
            HeaderKind::IPv6 => IPv6Header::decoded_len(bits),
            HeaderKind::Tcp => TcpHeader::decoded_len(bits),
        }
    }

    /// The variant of the header.
    pub fn kind(&self) -> (kind: HeaderKind)
        ensures
            kind == self.kind_of(),
    {
        match self {
            Header::Ethernet(_) => HeaderKind::Ethernet,
            Header::Arp(_) => HeaderKind::Arp,
            Header::IPv4(_) => HeaderKind::IPv4,
            Header::IPv6(_) => HeaderKind::IPv6,
            Header::Tcp(_) => HeaderKind::Tcp,
        }
    }

    /// The header in its wire layout.
    pub fn to_bits(&self) -> (bits: Bits)
        ensures
            bits@ == self.encoding(),
    {
        match self {
            Header::Ethernet(h) => h.to_bits(),
            Header::Arp(h) => h.to_bits(),
            Header::IPv4(h) => h.to_bits(),
            Header::IPv6(h) => h.to_bits(),
            Header::Tcp(h) => h.to_bits(),
        }
    }

    /// Reads one header of the given kind from the cursor. On success
    /// exactly the bits of the header are consumed; on failure the cursor
    /// stays where it was.
    pub fn from_stream(kind: HeaderKind, src: &mut BitStream) -> (decoded: Result<
        Header,
        DecodeError,
    >)
        requires
            old(src).wf(),
        ensures
            final(src).wf(),
            final(src).bits() == old(src).bits(),
            decoded == Header::decoding(kind, old(src).unread()),
            decoded is Ok ==> final(src).pos() == old(src).pos() + Header::decoded_len(
                kind,
                old(src).unread(),
            ),
            decoded is Err ==> final(src).pos() == old(src).pos(),
    {
        match kind {
            HeaderKind::Ethernet => match EthernetHeader::from_stream(src) {
                Ok(h) => Ok(Header::Ethernet(h)),
                Err(e) => Err(e),
            },
            HeaderKind::Arp => match ArpHeader::from_stream(src) {
                Ok(h) => Ok(Header::Arp(h)),
                Err(e) => Err(e),
            },
            HeaderKind::IPv4 => match IPv4Header::from_stream(src) {
                Ok(h) => Ok(Header::IPv4(h)),
                Err(e) => Err(e),
            },
            HeaderKind::IPv6 => match IPv6Header::from_stream(src) {
                Ok(h) => Ok(Header::IPv6(h)),
                Err(e) => Err(e),
            },
            HeaderKind::Tcp => match TcpHeader::from_stream(src) {
                Ok(h) => Ok(Header::Tcp(h)),
                Err(e) => Err(e),
            },
        }
    }

    /// For every header variant, decoding what was encoded gives the
    /// header back, whatever bits follow it, so long as the bits that the
    /// decoder drops are there.
    pub proof fn lemma_round_trip(&self, rest: Seq<bool>)
        requires
            self.valid(),
            rest.len() >= self.discarded(),
        ensures
            Header::decoding(self.kind_of(), self.encoding() + rest) == Ok::<Header, DecodeError>(
                *self,
            ),
            Header::decoded_len(self.kind_of(), self.encoding() + rest) == self.encoding().len()
                + self.discarded(),
    {
        match self {
            Header::Ethernet(h) => h.lemma_round_trip(rest),
            Header::Arp(h) => h.lemma_round_trip(rest),
            Header::IPv4(h) => h.lemma_round_trip(rest),
            Header::IPv6(h) => h.lemma_round_trip(rest),
            Header::Tcp(h) => h.lemma_round_trip(rest),
        }
    }
}

} // verus!
