use glia::netting::client_id::PeerAddr;
use glia::netting::synapse::{
    ack_datagram, OutboundSynapseTransmission, OutboundSynapseTransmissionKind,
    SynapseTransmission, SynapseTransmissionKind,
};

#[test]
fn kinds_live_in_the_top_three_bits() {
    let kinds = [
        SynapseTransmissionKind::HandshakeInitiate,
        SynapseTransmissionKind::HandshakeResponse,
        SynapseTransmissionKind::Ack,
        SynapseTransmissionKind::KnownPacket,
        SynapseTransmissionKind::PeerDiscovery,
    ];
    for (i, kind) in kinds.iter().enumerate() {
        let byte = kind.to_discriminant();
        assert_eq!(byte, (i as u8) << 5);
        for reserved in [0u8, 1, 31] {
            assert_eq!(SynapseTransmissionKind::from_discriminant(byte | reserved), *kind);
        }
    }
}

#[test]
fn a_datagram_is_taken_apart() {
    let st = SynapseTransmission::parse_datagram(&[0b0110_0101, 7, 1, 2, 3]);
    assert_eq!(st.kind, SynapseTransmissionKind::KnownPacket);
    assert_eq!(st.transmission_number, 7);
    assert_eq!(st.bytes, vec![1, 2, 3]);
}

#[test]
fn an_acknowledgement_carries_nothing() {
    let st = SynapseTransmission::parse_datagram(&[64, 200, 1, 2]);
    assert_eq!(st.kind, SynapseTransmissionKind::Ack);
    assert_eq!(st.transmission_number, 200);
    assert!(st.bytes.is_empty());
    let cut = SynapseTransmission::parse_datagram(&[64]);
    assert_eq!(cut.transmission_number, 0);
}

#[test]
fn malformed_datagrams_are_told_apart() {
    assert!(!SynapseTransmission::is_well_formed(&[]));
    assert!(!SynapseTransmission::is_well_formed(&[160, 0, 0]));
    assert!(!SynapseTransmission::is_well_formed(&[255, 0]));
    assert!(!SynapseTransmission::is_well_formed(&[96]));
    assert!(SynapseTransmission::is_well_formed(&[96, 0]));
    assert!(SynapseTransmission::is_well_formed(&[64]));
}

#[test]
fn an_acknowledgement_reads_back() {
    for n in [0usize, 1, 255] {
        let dg = ack_datagram(n);
        assert_eq!(dg, vec![64, n as u8]);
        let st = SynapseTransmission::parse_datagram(&dg);
        assert_eq!(st.kind, SynapseTransmissionKind::Ack);
        assert_eq!(st.transmission_number, n);
    }
}

#[test]
fn outbound_kinds_announce_themselves() {
    let addr = PeerAddr::V4 { bits: 0x7f00_0001, port: 1 };
    assert_eq!(OutboundSynapseTransmissionKind::HandshakeInitiate(addr).to_discriminant(), 0);
    assert_eq!(OutboundSynapseTransmissionKind::HandshakeResponse.to_discriminant(), 32);
    assert_eq!(OutboundSynapseTransmissionKind::Ack { transmission_number: 3 }.to_discriminant(), 64);
    assert_eq!(OutboundSynapseTransmissionKind::KnownPacket.to_discriminant(), 96);
    assert_eq!(OutboundSynapseTransmissionKind::PeerDiscovery.to_discriminant(), 128);
    assert!(OutboundSynapseTransmissionKind::KnownPacket.is_sealed());
    assert!(OutboundSynapseTransmissionKind::PeerDiscovery.is_sealed());
    assert!(!OutboundSynapseTransmissionKind::HandshakeResponse.is_sealed());
}

#[test]
fn a_connection_is_asked_for_by_address() {
    let addr = PeerAddr::V6 { segments: 1, port: 9, flowinfo: 0, scope_id: 0 };
    let osynt = OutboundSynapseTransmission::handshake_to(addr);
    assert!(matches!(
        osynt.kind,
        OutboundSynapseTransmissionKind::HandshakeInitiate(a) if a == addr
    ));
    assert!(osynt.bytes.is_empty());
    assert!(osynt.maybe_target.is_none());
}
