//! Tracks known peers for certificate checking and reconnecting
use crate::announce_address::{AnnounceAddress, PeerConnectionDetails};
use crate::bytes::{copy_range, to_array_32};
use crate::connections::discovery::traversal::{DiscoveredPeer, DiscoveryMethod};
use crate::peer_id::PeerId;
use vstd::prelude::*;

verus! {

/// The key under which a known peer is stored: its raw public key.
pub fn record_key(announce_address: &AnnounceAddress) -> (r: Vec<u8>)
    ensures
        r@ == announce_address.public_key@,
{
    let key = announce_address.public_key.into_bytes();
    copy_range(key.as_slice(), 0, 32)
}

/// Reads a record back: its key, and the connection details that its value holds, if any. Records
/// under other keys than a raw public key are ignored.
pub fn known_peer(key: &[u8], connection_details: Option<PeerConnectionDetails>) -> (r: Option<
    AnnounceAddress,
>)
    ensures
        match r {
            Some(address) => address.public_key@ == key@ && connection_details == Some(
                address.connection_details,
            ),
            None => key@.len() != 32 || connection_details is None,
        },
{
    if key.len() != 32 {
        return None;
    }
    match connection_details {
        Some(connection_details) => Some(
            AnnounceAddress { public_key: PeerId::new(to_array_32(key)), connection_details },
        ),
        None => None,
    }
}

/// A record that is read back is the peer that was stored, and nothing that has a key of another
/// length is taken for one.
pub proof fn law_known_peer_round_trip(address: AnnounceAddress, read: AnnounceAddress)
    requires
        read.public_key@ == address.public_key@,
        read.connection_details == address.connection_details,
    ensures
        read == address,
{
    address.public_key.lemma_view(read.public_key);
}

/// The known peers that can be reached without NAT traversal.
pub open spec fn public_peers(known: Seq<AnnounceAddress>) -> Seq<DiscoveredPeer>
    decreases known.len(),
{
    if known.len() == 0 {
        Seq::empty()
    } else {
        let rest = public_peers(known.drop_last());
        match known.last().connection_details {
            PeerConnectionDetails::NoNat(socket_address) => rest.push(
                DiscoveredPeer {
                    socket_address,
                    own_socket: false,
                    discovery_method: DiscoveryMethod::Direct,
                    announce_address: known.last(),
                },
            ),
            _ => rest,
        }
    }
}

/// Look at our known peers, and if there are any without NAT, connect to them
pub fn startup_connections(known: &Vec<AnnounceAddress>) -> (r: Vec<DiscoveredPeer>)
    ensures
        r@ == public_peers(known@),
{
    let mut r: Vec<DiscoveredPeer> = Vec::new();
    let mut i: usize = 0;
    while i < known.len()
        invariant
            i <= known@.len(),
            r@ == public_peers(known@.take(i as int)),
        decreases known@.len() - i,
    {
        assert(known@.take(i + 1).drop_last() == known@.take(i as int));
        match known[i].connection_details {
            PeerConnectionDetails::NoNat(socket_address) => {
                r.push(
                    DiscoveredPeer {
                        socket_address,
                        own_socket: false,
                        discovery_method: DiscoveryMethod::Direct,
                        announce_address: known[i],
                    },
                );
            },
            _ => {},
        }
        i += 1;
    }
    assert(known@.take(i as int) == known@);
    r
}

/// At the start we connect to each known peer without NAT, at the address that it announces, and to
/// no other. Each is connected to as often as it is known.
pub proof fn law_startup_connects_to_public_peers(
    known: Seq<AnnounceAddress>,
    more: Seq<AnnounceAddress>,
    address: AnnounceAddress,
)
    ensures
        public_peers(known + more) == public_peers(known) + public_peers(more),
        match address.connection_details {
            PeerConnectionDetails::NoNat(addr) => public_peers(seq![address]) == seq![
                DiscoveredPeer {
                    socket_address: addr,
                    own_socket: false,
                    discovery_method: DiscoveryMethod::Direct,
                    announce_address: address,
                },
            ],
            _ => public_peers(seq![address]).len() == 0,
        },
    decreases more.len(),
{
    let one = seq![address];
    assert(one.drop_last() =~= Seq::<AnnounceAddress>::empty());
    assert(one.last() == address);
    assert(public_peers(one.drop_last()) =~= Seq::<DiscoveredPeer>::empty());
    match address.connection_details {
        PeerConnectionDetails::NoNat(addr) => {
            assert(public_peers(one) =~= seq![
                DiscoveredPeer {
                    socket_address: addr,
                    own_socket: false,
                    discovery_method: DiscoveryMethod::Direct,
                    announce_address: address,
                },
            ]);
        },
        _ => {},
    }
    if more.len() == 0 {
        assert(known + more =~= known);
        assert(public_peers(more) =~= Seq::<DiscoveredPeer>::empty());
    } else {
        law_startup_connects_to_public_peers(known, more.drop_last(), address);
        assert((known + more).drop_last() =~= known + more.drop_last());
        assert((known + more).last() == more.last());
    }
    assert(public_peers(known + more) =~= public_peers(known) + public_peers(more));
}

} // verus!
