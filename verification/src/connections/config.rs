//! What is kept of an instance from one run to the next
use crate::bytes;
use crate::bytes::{from_be_bytes, to_be_bytes};
use crate::connections::certificate;
use crate::connections::certificate::{OurCertificate, generate_certificate};
use vstd::prelude::*;

verus! {

/// The certificate and the private key that were stored. Where one of them is missing, both have to
/// be made anew.
pub fn stored_certificate(certificate: Option<Vec<u8>>, private_key: Option<Vec<u8>>) -> (r: Option<
    (Vec<u8>, Vec<u8>),
>)
    ensures
        match r {
            Some((stored_certificate, stored_key)) => certificate == Some(stored_certificate)
                && private_key == Some(stored_key),
            None => certificate is None || private_key is None,
        },
{
    match (certificate, private_key) {
        (Some(certificate), Some(private_key)) => Some((certificate, private_key)),
        _ => None,
    }
}

/// Attempt to get keypair / certificate from storage, and otherwise generate them
pub fn our_certificate(certificate: Option<Vec<u8>>, private_key: Option<Vec<u8>>) -> (r: Option<
    OurCertificate,
>)
    ensures
        match (certificate, private_key) {
            (Some(certificate), Some(private_key)) => r == Some(
                OurCertificate { certificate, private_key, is_new: false },
            ),
            _ => r matches Some(ours) ==> {
                &&& ours.is_new
                &&& certificate::is_key_pair(ours.certificate@, ours.private_key@)
            },
        },
{
    match stored_certificate(certificate, private_key) {
        Some((certificate, private_key)) => Some(
            OurCertificate { certificate, private_key, is_new: false },
        ),
        None => generate_certificate(),
    }
}

/// Read the port from storage
/// We attempt to use the same port as last time if possible, so that if the process is
/// stopped and restarted, peers can reconnect without needing to exchange details again
pub fn last_used_port(record: &Option<Vec<u8>>) -> (r: Option<u16>)
    ensures
        match r {
            Some(port) => record is Some && record->Some_0@ == bytes::be_bytes(port as nat, 2),
            None => record matches Some(bytes) ==> bytes@.len() != 2,
        },
{
    match record {
        Some(bytes) => {
            if bytes.len() != 2 {
                return None;
            }
            proof {
                bytes::lemma_byte_ranges();
                bytes::lemma_be_bytes_of_value(bytes@);
            }
            Some(from_be_bytes(bytes.as_slice()) as u16)
        },
        None => None,
    }
}

/// The record of a port.
pub fn port_record(port: u16) -> (r: Vec<u8>)
    ensures
        r@ == bytes::be_bytes(port as nat, 2),
{
    to_be_bytes(port as u128, 2)
}

/// The port that was stored is the one that is used again.
pub proof fn law_port_round_trip(stored: u16, read: u16)
    requires
        bytes::be_bytes(stored as nat, 2) == bytes::be_bytes(read as nat, 2),
    ensures
        stored == read,
{
    bytes::lemma_byte_ranges();
    bytes::lemma_be_value_of_bytes(stored as nat, 2);
    bytes::lemma_be_value_of_bytes(read as nat, 2);
}

/// How other peers can reach us.
#[derive(Debug)]
pub enum ServerConnection {
    /// A single endpoint, with its local address as text, if there is one
    WithEndpoint(Option<String>),
    /// An endpoint for each peer connection
    Symmetric,
}

impl ServerConnection {
    /// What is shown of it.
    pub fn to_string(&self) -> (r: String)
        ensures
            r@ == match *self {
                ServerConnection::WithEndpoint(Some(local_addr)) => local_addr@,
                ServerConnection::WithEndpoint(None) => "No local adddress"@,
                ServerConnection::Symmetric => "Behind symmetric NAT"@,
            },
    {
        match self {
            ServerConnection::WithEndpoint(Some(local_addr)) => local_addr.clone(),
            ServerConnection::WithEndpoint(None) => "No local adddress".to_owned(),
            ServerConnection::Symmetric => "Behind symmetric NAT".to_owned(),
        }
    }
}

} // verus!
