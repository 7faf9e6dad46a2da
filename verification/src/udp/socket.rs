//! Buffers and batching for the UDP socket that carries QUIC.
//!
//! With generic segmentation offload the kernel takes several packets in
//! one datagram and cuts them apart again; without it every packet is a
//! datagram of its own.

use vstd::prelude::*;

verus! {

/// Size of one segment under generic segmentation offload.
pub const GSO_SEGMENT_SIZE: usize = 1200;

/// Size of the receive buffer.
pub const RECV_BUFFER_SIZE: usize = 65536;

/// Size asked for the socket's send and receive buffers: 2 MiB.
pub const SOCKET_BUFFER_SIZE: i32 = 2 * 1024 * 1024;

/// A receive buffer: 65536 zero bytes.
pub fn create_recv_buffer() -> (r: Vec<u8>)
    ensures
        r@.len() == RECV_BUFFER_SIZE,
        forall|i: int| 0 <= i < r@.len() ==> r@[i] == 0,
{
    let mut buf: Vec<u8> = Vec::new();
    let mut i: usize = 0;
    while i < RECV_BUFFER_SIZE
        invariant
            i <= RECV_BUFFER_SIZE,
            buf@.len() == i,
            forall|j: int| 0 <= j < i ==> buf@[j] == 0,
        decreases RECV_BUFFER_SIZE - i,
    {
        buf.push(0);
        i += 1;
    }
    buf
}

/// The bytes of a list of packets, one after the other.
pub open spec fn concatenated(packets: Seq<Vec<u8>>) -> Seq<u8>
    decreases packets.len(),
{
    if packets.len() == 0 {
        Seq::empty()
    } else {
        concatenated(packets.drop_last()) + packets.last()@
    }
}

/// The bytes of each datagram of a list.
pub open spec fn datagrams_view(list: Seq<Vec<u8>>) -> Seq<Seq<u8>> {
    Seq::new(list.len(), |i: int| list[i]@)
}

/// The datagrams that carry a list of packets: with segmentation offload
/// and at least one packet, a single datagram with all packets in a row;
/// otherwise one datagram per packet.
pub open spec fn spec_gso_datagrams(gso_enabled: bool, packets: Seq<Vec<u8>>) -> Seq<Seq<u8>> {
    if gso_enabled && packets.len() > 0 {
        seq![concatenated(packets)]
    } else {
        datagrams_view(packets)
    }
}

/// The datagrams to send for a list of packets.
pub fn gso_datagrams(gso_enabled: bool, packets: &[Vec<u8>]) -> (r: Vec<Vec<u8>>)
    ensures
        datagrams_view(r@) == spec_gso_datagrams(gso_enabled, packets@),
{
    let mut out: Vec<Vec<u8>> = Vec::new();
    if !gso_enabled || packets.len() == 0 {
        let mut i: usize = 0;
        while i < packets.len()
            invariant
                i <= packets.len(),
                datagrams_view(out@) == datagrams_view(packets@).subrange(0, i as int),
            decreases packets.len() - i,
        {
            let ghost before = datagrams_view(out@);
            let copy = vstd::slice::slice_to_vec(packets[i].as_slice());
            out.push(copy);
            assert(datagrams_view(out@) =~= before.push(packets@[i as int]@));
            assert(datagrams_view(out@) =~= datagrams_view(packets@).subrange(0, i + 1));
            i += 1;
        }
        assert(datagrams_view(packets@).subrange(0, packets.len() as int) =~= datagrams_view(packets@));
        return out;
    }
    let mut combined: Vec<u8> = Vec::new();
    let mut i: usize = 0;
    assert(packets@.subrange(0, 0) =~= Seq::empty());
    while i < packets.len()
        invariant
            i <= packets.len(),
            combined@ == concatenated(packets@.subrange(0, i as int)),
        decreases packets.len() - i,
    {
        assert(packets@.subrange(0, i + 1).drop_last() =~= packets@.subrange(0, i as int));
        combined.extend_from_slice(packets[i].as_slice());
        assert(combined@ =~= concatenated(packets@.subrange(0, i + 1)));
        i += 1;
    }
    assert(packets@.subrange(0, packets.len() as int) =~= packets@);
    out.push(combined);
    assert(datagrams_view(out@) =~= seq![concatenated(packets@)]);
    out
}

} // verus!
