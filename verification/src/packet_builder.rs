//! Replies assembled by the `etherparse` packet builder. They serve as a
//! second source for the frames that the responder encodes itself.

use vstd::prelude::*;
use vstd::string::StringSliceAdditionalSpecFns;
use crate::responder::{next_sequence, sequence_after, Body, INITIAL_SEQUENCE, REPLY_TTL};

verus! {

/// `etherparse::err::packet::BuildWriteError`, the error of the packet
/// builder's `write`. Nothing is known of a value of it.
#[verifier::external_type_specification]
#[verifier::external_body]
pub struct ExBuildWriteError(etherparse::err::packet::BuildWriteError);

/// The bytes that `etherparse`'s packet builder writes for an IPv4 packet
/// with a TCP header that has SYN and ACK set. Nothing is proved of them
/// here; they are named so that contracts can speak of them.
pub uninterp spec fn built_syn_ack(
    source: Seq<u8>,
    destination: Seq<u8>,
    ttl: u8,
    source_port: u16,
    destination_port: u16,
    sequence: u32,
    window: u16,
    acknowledgment: u32,
    payload: Seq<u8>,
) -> Seq<u8>;

/// The bytes that `etherparse`'s packet builder writes for an IPv4 packet
/// with a TCP header that has ACK and FIN set. Nothing is proved of them
/// here; they are named so that contracts can speak of them.
pub uninterp spec fn built_ack_fin(
    source: Seq<u8>,
    destination: Seq<u8>,
    ttl: u8,
    source_port: u16,
    destination_port: u16,
    sequence: u32,
    window: u16,
    acknowledgment: u32,
    payload: Seq<u8>,
) -> Seq<u8>;

/// Calls `etherparse::PacketBuilder::ipv4(..).tcp(..).syn().ack(..)` and
/// `write` on the result. Not proved, but taken from the builder's source:
/// the bytes written depend on the arguments alone, and `write` into a
/// vector fails only where the payload does not fit the sixteen bits of the
/// IPv4 total length beside the twenty bytes of each header.
#[verifier::external_body]
fn write_syn_ack(
    source: [u8; 4],
    destination: [u8; 4],
    ttl: u8,
    source_port: u16,
    destination_port: u16,
    sequence: u32,
    window: u16,
    acknowledgment: u32,
    payload: &[u8],
) -> (written: Result<Vec<u8>, etherparse::err::packet::BuildWriteError>)
    ensures
        written matches Ok(bytes) ==> bytes@ == built_syn_ack(
            source@,
            destination@,
            ttl,
            source_port,
            destination_port,
            sequence,
            window,
            acknowledgment,
            payload@,
        ),
        payload@.len() <= 65495 ==> written is Ok,
{
    let mut out = Vec::new();
    etherparse::PacketBuilder::ipv4(source, destination, ttl)
        .tcp(source_port, destination_port, sequence, window)
        .syn()
        .ack(acknowledgment)
        .write(&mut out, payload)?;
    Ok(out)
}

/// Calls `etherparse::PacketBuilder::ipv4(..).tcp(..).ack(..).fin()` and
/// `write` on the result. Not proved, but taken from the builder's source:
/// the bytes written depend on the arguments alone, and `write` into a
/// vector fails only where the payload does not fit the sixteen bits of the
/// IPv4 total length beside the twenty bytes of each header.
#[verifier::external_body]
fn write_ack_fin(
    source: [u8; 4],
    destination: [u8; 4],
    ttl: u8,
    source_port: u16,
    destination_port: u16,
    sequence: u32,
    window: u16,
    acknowledgment: u32,
    payload: &[u8],
) -> (written: Result<Vec<u8>, etherparse::err::packet::BuildWriteError>)
    ensures
        written matches Ok(bytes) ==> bytes@ == built_ack_fin(
            source@,
            destination@,
            ttl,
            source_port,
            destination_port,
            sequence,
            window,
            acknowledgment,
            payload@,
        ),
        payload@.len() <= 65495 ==> written is Ok,
{
    let mut out = Vec::new();
    etherparse::PacketBuilder::ipv4(source, destination, ttl)
        .tcp(source_port, destination_port, sequence, window)
        .ack(acknowledgment)
        .fin()
        .write(&mut out, payload)?;
    Ok(out)
}

/// Why no packet was built.
#[derive(Clone, Copy, Debug, PartialEq, Eq, Structural)]
pub enum BuildError {
    /// The packet builder refused the packet.
    Refused,
}

/// The packet that the builder wrote, or the fact that it refused.
pub fn packet_or_refusal(
    written: Result<Vec<u8>, etherparse::err::packet::BuildWriteError>,
) -> (packet: Result<Vec<u8>, BuildError>)
    ensures
        match written {
            Ok(bytes) => packet == Ok::<Vec<u8>, BuildError>(bytes),
            Err(_) => packet == Err::<Vec<u8>, BuildError>(BuildError::Refused),
        },
{
    match written {
        Ok(bytes) => Ok(bytes),
        Err(_) => Err(BuildError::Refused),
    }
}

/// The SYN+ACK that answers a SYN sent from `src_ip:src_port` to
/// `dest_ip:dest_port` with sequence number `seq_num`, as the packet
/// builder writes it: addresses and ports swapped, the acknowledgment one
/// past `seq_num`, and its low sixteen bits as window.
pub fn syn_ack_packet(
    src_ip: [u8; 4],
    dest_ip: [u8; 4],
    src_port: u16,
    dest_port: u16,
    seq_num: u32,
) -> (packet: Result<Vec<u8>, BuildError>)
    ensures
        packet matches Ok(bytes) && bytes@ == built_syn_ack(
            dest_ip@,
            src_ip@,
            REPLY_TTL,
            dest_port,
            src_port,
            INITIAL_SEQUENCE,
            (next_sequence(seq_num) % 0x10000) as u16,
            next_sequence(seq_num),
            Seq::empty(),
        ),
{
    let acknowledgment = sequence_after(seq_num);
    let window = (acknowledgment % 0x10000) as u16;
    let payload = Body::Empty.as_bytes();
    packet_or_refusal(
        write_syn_ack(
            dest_ip,
            src_ip,
            REPLY_TTL,
            dest_port,
            src_port,
            INITIAL_SEQUENCE,
            window,
            acknowledgment,
            payload,
        ),
    )
}

/// The segment that carries the page and ends the exchange, in answer to a
/// segment sent from `src_ip:src_port` to `dest_ip:dest_port` with sequence
/// number `seq_num` and acknowledgment `ack_num`, as the packet builder
/// writes it.
pub fn page_packet(
    src_ip: [u8; 4],
    dest_ip: [u8; 4],
    src_port: u16,
    dest_port: u16,
    seq_num: u32,
    ack_num: u32,
) -> (packet: Result<Vec<u8>, BuildError>)
    ensures
        packet matches Ok(bytes) && bytes@ == built_ack_fin(
            dest_ip@,
            src_ip@,
            REPLY_TTL,
            dest_port,
            src_port,
            ack_num,
            (next_sequence(seq_num) % 0x10000) as u16,
            next_sequence(seq_num),
            Body::Page.bytes(),
        ),
{
    let acknowledgment = sequence_after(seq_num);
    let window = (acknowledgment % 0x10000) as u16;
    let payload = Body::Page.as_bytes();
    proof {
        Body::Page.lemma_len();
    }
    packet_or_refusal(
        write_ack_fin(
            dest_ip,
            src_ip,
            REPLY_TTL,
            dest_port,
            src_port,
            ack_num,
            window,
            acknowledgment,
            payload,
        ),
    )
}

} // verus!
