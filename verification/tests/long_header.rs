use quic_header::error::DecodeError;
use quic_header::pkt::{
    decode_hd_long, decode_version_cid, PktType, PKT_FLAG_FIXED_BIT_CLEAR, PKT_FLAG_LONG_FORM,
    PROTO_VER_V2,
};
use quic_header::pkt_decode_hd_long;

const INITIAL_V1: [u8; 11] = [0xC0, 0x00, 0x00, 0x00, 0x01, 0x04, 0xAA, 0xBB, 0xCC, 0xDD, 0x00];

fn error_of(buf: &[u8]) -> DecodeError {
    match decode_hd_long(buf) {
        Ok(_) => panic!("decoded"),
        Err(e) => e,
    }
}

/// Long header of `version` with first byte `first`, the two connection IDs
/// and then `rest`.
fn long_packet(first: u8, version: u32, dcid: &[u8], scid: &[u8], rest: &[u8]) -> Vec<u8> {
    let mut buf = vec![first];
    buf.extend_from_slice(&version.to_be_bytes());
    buf.push(dcid.len() as u8);
    buf.extend_from_slice(dcid);
    buf.push(scid.len() as u8);
    buf.extend_from_slice(scid);
    buf.extend_from_slice(rest);
    buf
}

#[test]
fn initial_of_version_1_with_four_byte_dcid() {
    let (pkt, used) = decode_hd_long(&INITIAL_V1).unwrap();
    assert_eq!(pkt.type_(), PktType::Initial);
    assert_eq!(pkt.dcid(), &[0xAA, 0xBB, 0xCC, 0xDD]);
    assert_eq!(pkt.scid(), None);
    assert_eq!(used, 11);
    assert_eq!(pkt.version(), Some(1));
    assert_eq!(pkt.token(), None);
    assert_eq!(pkt.len(), 0);
    assert_eq!(pkt.flags().bits(), PKT_FLAG_LONG_FORM);
    assert!(pkt.flags().is_long_form());
}

#[test]
fn version_zero_is_version_negotiation() {
    let mut buf = INITIAL_V1;
    buf[1] = 0x00;
    buf[2] = 0x00;
    buf[3] = 0x00;
    buf[4] = 0x00;
    let (pkt, used) = decode_hd_long(&buf).unwrap();
    assert_eq!(pkt.type_(), PktType::VersionNegotiation);
    assert!(!pkt.flags().is_long_form());
    assert_eq!(pkt.flags().bits(), 0);
    assert_eq!(pkt.len(), 0);
    assert_eq!(pkt.version(), None);
    assert_eq!(pkt.dcid(), &[0xAA, 0xBB, 0xCC, 0xDD]);
    assert_eq!(pkt.scid(), None);
    assert_eq!(pkt.token(), None);
    assert_eq!(used, 11);
}

#[test]
fn version_negotiation_ignores_type_bits_and_what_follows() {
    let plain = long_packet(0x80, 0, &[1, 2, 3], &[4, 5], &[]);
    let (want, want_used) = decode_hd_long(&plain).unwrap();
    assert_eq!(want_used, 12);
    assert_eq!(want_used, plain.len());
    for low in 0u8..0x80 {
        let buf = long_packet(0x80 | low, 0, &[1, 2, 3], &[4, 5], &[0xFF, 0x00, 0x00, 0x01]);
        let (pkt, used) = decode_hd_long(&buf).unwrap();
        assert_eq!(pkt.type_(), PktType::VersionNegotiation);
        assert_eq!(pkt.flags().bits(), 0);
        assert_eq!(pkt.len(), 0);
        assert_eq!(pkt.token(), None);
        assert_eq!(pkt.dcid(), want.dcid());
        assert_eq!(pkt.scid(), want.scid());
        assert_eq!(pkt.scid(), Some(&[4u8, 5][..]));
        assert_eq!(used, buf.len());
        assert_eq!(&buf[7 + pkt.dcid().len() + 2..used], &[0xFF, 0x00, 0x00, 0x01]);
    }
}

#[test]
fn version_negotiation_with_oversized_cid_fails() {
    let buf = long_packet(0x80, 0, &[0u8; 21], &[], &[]);
    assert_eq!(error_of(&buf), DecodeError::Oversized);
}

#[test]
fn shorter_than_the_prefix_is_truncated() {
    let whole = long_packet(0xC0, 1, &[], &[], &[]);
    assert_eq!(whole.len(), 7);
    assert!(decode_hd_long(&whole).is_ok());
    for n in 0..7 {
        assert_eq!(error_of(&whole[..n]), DecodeError::Truncated);
    }
    assert_eq!(error_of(&[]), DecodeError::Truncated);
    assert_eq!(error_of(&[0x00, 0x01, 0x02]), DecodeError::Truncated);
    assert_eq!(error_of(&[0xFF; 6]), DecodeError::Truncated);
}

#[test]
fn initial_with_token_and_length() {
    let dcid = [1u8, 2, 3, 4, 5, 6, 7, 8];
    let scid = [9u8, 10, 11, 12];
    let buf = long_packet(0xC3, 1, &dcid, &scid, &[0x02, 0x7A, 0x7B, 0x44, 0xD2, 0x00, 0x00]);
    let (pkt, used) = decode_hd_long(&buf).unwrap();
    assert_eq!(pkt.type_(), PktType::Initial);
    assert_eq!(pkt.version(), Some(1));
    assert_eq!(pkt.dcid(), &dcid);
    assert_eq!(pkt.scid(), Some(&scid[..]));
    assert_eq!(pkt.token(), Some(&[0x7Au8, 0x7B][..]));
    assert_eq!(pkt.len(), 1234);
    assert_eq!(used, 24);
    assert_eq!(pkt.flags().bits(), PKT_FLAG_LONG_FORM);
}

#[test]
fn initial_with_empty_token_has_no_token() {
    let buf = long_packet(0xC0, 1, &[1], &[2], &[0x00, 0x05, 9, 9, 9, 9, 9]);
    let (pkt, used) = decode_hd_long(&buf).unwrap();
    assert_eq!(pkt.token(), None);
    assert_eq!(pkt.len(), 5);
    assert_eq!(used, 11);
    assert!(used + pkt.len() <= buf.len());
}

#[test]
fn initial_that_ends_after_the_token_declares_no_length() {
    let buf = long_packet(0xC0, 1, &[1], &[], &[0x01, 0x55]);
    let (pkt, used) = decode_hd_long(&buf).unwrap();
    assert_eq!(pkt.token(), Some(&[0x55u8][..]));
    assert_eq!(pkt.len(), 0);
    assert_eq!(used, 10);
}

#[test]
fn declared_length_may_exceed_the_buffer() {
    let buf = long_packet(0xE0, 1, &[1, 2], &[3], &[0x7F, 0x3F]);
    let (pkt, used) = decode_hd_long(&buf).unwrap();
    assert_eq!(pkt.type_(), PktType::Handshake);
    assert_eq!(pkt.len(), 0x3F3F);
    assert_eq!(used, 12);
    assert!(used + pkt.len() > buf.len());
}

#[test]
fn variable_length_integers_of_each_size() {
    let one = long_packet(0xE0, 1, &[], &[], &[0x25]);
    assert_eq!(decode_hd_long(&one).unwrap().0.len(), 37);
    assert_eq!(decode_hd_long(&one).unwrap().1, 8);
    let two = long_packet(0xE0, 1, &[], &[], &[0x7B, 0xBD]);
    assert_eq!(decode_hd_long(&two).unwrap().0.len(), 15293);
    assert_eq!(decode_hd_long(&two).unwrap().1, 9);
    let four = long_packet(0xE0, 1, &[], &[], &[0x9D, 0x7F, 0x3E, 0x7D]);
    assert_eq!(decode_hd_long(&four).unwrap().0.len(), 494878333);
    assert_eq!(decode_hd_long(&four).unwrap().1, 11);
    let eight =
        long_packet(0xE0, 1, &[], &[], &[0xC2, 0x19, 0x7C, 0x5E, 0xFF, 0x14, 0xE8, 0x8C]);
    assert_eq!(decode_hd_long(&eight).unwrap().0.len(), 151288809941952652);
    assert_eq!(decode_hd_long(&eight).unwrap().1, 15);
    let padded = long_packet(0xE0, 1, &[], &[], &[0x40, 0x25]);
    assert_eq!(decode_hd_long(&padded).unwrap().0.len(), 37);
    assert_eq!(decode_hd_long(&padded).unwrap().1, 9);
}

#[test]
fn field_cut_by_the_end_of_the_buffer_is_truncated() {
    let cut_token_length = long_packet(0xC0, 1, &[1], &[2], &[0x40]);
    assert_eq!(error_of(&cut_token_length), DecodeError::Truncated);
    let cut_token = long_packet(0xC0, 1, &[1], &[2], &[0x03, 0xAA, 0xBB]);
    assert_eq!(error_of(&cut_token), DecodeError::Truncated);
    let cut_length = long_packet(0xC0, 1, &[1], &[2], &[0x00, 0x80, 0x00, 0x01]);
    assert_eq!(error_of(&cut_length), DecodeError::Truncated);
    let cut_handshake_length = long_packet(0xE0, 1, &[1], &[2], &[0xC0, 0, 0, 0, 0, 0, 0]);
    assert_eq!(error_of(&cut_handshake_length), DecodeError::Truncated);
    let huge_token =
        long_packet(0xC0, 1, &[], &[], &[0xFF, 0xFF, 0xFF, 0xFF, 0xFF, 0xFF, 0xFF, 0xFF]);
    assert_eq!(error_of(&huge_token), DecodeError::Truncated);
}

#[test]
fn connection_id_cut_by_the_end_of_the_buffer_is_truncated() {
    let mut buf = long_packet(0xC0, 1, &[1, 2, 3, 4], &[5, 6], &[]);
    buf.pop();
    assert_eq!(error_of(&buf), DecodeError::Truncated);
    assert_eq!(error_of(&[0xC0, 0, 0, 0, 1, 4, 1, 2, 3, 4]), DecodeError::Truncated);
    assert_eq!(error_of(&[0xC0, 0, 0, 0, 1, 4, 1, 2]), DecodeError::Truncated);
}

#[test]
fn connection_id_longer_than_the_maximum_is_oversized() {
    let dcid = long_packet(0xC0, 1, &[7u8; 21], &[], &[0, 0]);
    assert_eq!(error_of(&dcid), DecodeError::Oversized);
    let scid = long_packet(0xC0, 1, &[], &[7u8; 21], &[0, 0]);
    assert_eq!(error_of(&scid), DecodeError::Oversized);
    let declared_only = [0xC0, 0, 0, 0, 1, 0xFF, 0];
    assert_eq!(error_of(&declared_only), DecodeError::Oversized);
    let longest = long_packet(0xC0, 1, &[7u8; 20], &[8u8; 20], &[0, 0]);
    let (pkt, used) = decode_hd_long(&longest).unwrap();
    assert_eq!(pkt.dcid(), &[7u8; 20]);
    assert_eq!(pkt.scid(), Some(&[8u8; 20][..]));
    assert_eq!(used, 49);
}

#[test]
fn unknown_version_names_no_type() {
    let buf = long_packet(0xC0, 0xFF00_001D, &[1], &[2], &[0, 0]);
    assert_eq!(error_of(&buf), DecodeError::UnrecognizedType);
    let draft = long_packet(0xC0, 2, &[1], &[2], &[0, 0]);
    assert_eq!(error_of(&draft), DecodeError::UnrecognizedType);
}

#[test]
fn short_header_names_no_long_type() {
    let buf = [0x40, 0, 0, 0, 1, 0, 0, 0, 0];
    assert_eq!(error_of(&buf), DecodeError::UnrecognizedType);
    let zero_version = [0x7F, 0, 0, 0, 0, 0, 0];
    assert_eq!(error_of(&zero_version), DecodeError::UnrecognizedType);
}

#[test]
fn types_of_version_1() {
    let types = [
        (0xC0, PktType::Initial),
        (0xD0, PktType::Rtt0),
        (0xE0, PktType::Handshake),
        (0xF0, PktType::Retry),
    ];
    for (first, want) in types {
        let buf = long_packet(first, 1, &[1], &[2], &[0, 0]);
        let (pkt, _) = decode_hd_long(&buf).unwrap();
        assert_eq!(pkt.type_(), want);
        assert_eq!(pkt.version(), Some(1));
    }
}

#[test]
fn types_of_version_2() {
    let types = [
        (0xC0, PktType::Retry),
        (0xD0, PktType::Initial),
        (0xE0, PktType::Rtt0),
        (0xF0, PktType::Handshake),
    ];
    for (first, want) in types {
        let buf = long_packet(first, PROTO_VER_V2, &[1], &[2], &[0, 0]);
        let (pkt, _) = decode_hd_long(&buf).unwrap();
        assert_eq!(pkt.type_(), want);
        assert_eq!(pkt.version(), Some(0x6b33_43cf));
    }
}

#[test]
fn retry_has_neither_token_nor_length() {
    let buf = long_packet(0xF0, 1, &[1, 2], &[3, 4], &[0x02, 0xAA, 0xBB, 0x05]);
    let (pkt, used) = decode_hd_long(&buf).unwrap();
    assert_eq!(pkt.type_(), PktType::Retry);
    assert_eq!(pkt.token(), None);
    assert_eq!(pkt.len(), 0);
    assert_eq!(used, 11);
}

#[test]
fn token_only_in_initial() {
    let rest = [0x02, 0xAA, 0xBB, 0x05];
    let handshake = long_packet(0xE0, 1, &[1], &[2], &rest);
    let (pkt, used) = decode_hd_long(&handshake).unwrap();
    assert_eq!(pkt.token(), None);
    assert_eq!(pkt.len(), 2);
    assert_eq!(used, 10);
    let rtt0 = long_packet(0xD0, 1, &[1], &[2], &rest);
    let (pkt, used) = decode_hd_long(&rtt0).unwrap();
    assert_eq!(pkt.type_(), PktType::Rtt0);
    assert_eq!(pkt.token(), None);
    assert_eq!(pkt.len(), 2);
    assert_eq!(used, 10);
    let initial = long_packet(0xC0, 1, &[1], &[2], &rest);
    let (pkt, used) = decode_hd_long(&initial).unwrap();
    assert_eq!(pkt.token(), Some(&[0xAAu8, 0xBB][..]));
    assert_eq!(pkt.len(), 5);
    assert_eq!(used, 13);
}

#[test]
fn clear_fixed_bit_is_a_flag_not_a_failure() {
    let buf = long_packet(0x80, 1, &[1], &[2], &[0, 0]);
    let (pkt, _) = decode_hd_long(&buf).unwrap();
    assert_eq!(pkt.type_(), PktType::Initial);
    assert_eq!(pkt.flags().bits(), PKT_FLAG_LONG_FORM | PKT_FLAG_FIXED_BIT_CLEAR);
    assert!(pkt.flags().is_fixed_bit_clear());
    assert!(pkt.flags().is_long_form());
    assert!(!pkt.flags().is_key_phase());
    let set = long_packet(0xC0, 1, &[1], &[2], &[0, 0]);
    assert!(!decode_hd_long(&set).unwrap().0.flags().is_fixed_bit_clear());
}

#[test]
fn header_is_a_copy_of_plain_values() {
    let buf = long_packet(0xC0, 1, &[1], &[2], &[0x01, 0x09, 0x03]);
    let (pkt, _) = decode_hd_long(&buf).unwrap();
    let copy = pkt;
    assert_eq!(copy.dcid(), pkt.dcid());
    assert_eq!(copy.token(), Some(&[9u8][..]));
    assert_eq!(pkt.clone().len(), 3);
}

#[test]
fn name_at_the_crate_root_is_the_same_decoder() {
    let (pkt, used) = pkt_decode_hd_long(&INITIAL_V1).unwrap();
    assert_eq!(pkt.type_(), PktType::Initial);
    assert_eq!(used, 11);
}

/// Writes the fields of a decoded header back as bytes: every field
/// present, lengths in one byte where they fit.
fn encode(
    first: u8,
    version: u32,
    dcid: &[u8],
    scid: &[u8],
    token: Option<&[u8]>,
    len: Option<u8>,
) -> Vec<u8> {
    let mut rest = Vec::new();
    if let Some(t) = token {
        rest.push(t.len() as u8);
        rest.extend_from_slice(t);
    }
    if let Some(l) = len {
        rest.push(l);
    }
    long_packet(first, version, dcid, scid, &rest)
}

#[test]
fn decoding_then_encoding_round_trips() {
    let dcid = [0x11u8, 0x22, 0x33];
    let scid = [0x44u8, 0x55];
    let cases: [(u8, u32, Option<&[u8]>, Option<u8>); 6] = [
        (0xC0, 1, Some(&[0xA0, 0xA1]), Some(0x30)),
        (0xD0, 1, None, Some(0x31)),
        (0xE0, 1, None, Some(0x32)),
        (0xF0, 1, None, None),
        (0xD0, PROTO_VER_V2, Some(&[0xB0]), Some(0x33)),
        (0xC0, 0, None, None),
    ];
    for (first, version, token, len) in cases {
        let buf = encode(first, version, &dcid, &scid, token, len);
        let (pkt, used) = decode_hd_long(&buf).unwrap();
        assert_eq!(used, buf.len());
        let again = encode(
            first,
            pkt.version().unwrap_or(0),
            pkt.dcid(),
            pkt.scid().unwrap_or(&[]),
            if pkt.type_() == PktType::Initial { Some(pkt.token().unwrap_or(&[])) } else { None },
            len.map(|_| pkt.len() as u8),
        );
        assert_eq!(again, buf);
        let (back, back_used) = decode_hd_long(&again).unwrap();
        assert_eq!(back.version(), pkt.version());
        assert_eq!(back.dcid(), pkt.dcid());
        assert_eq!(back.scid(), pkt.scid());
        assert_eq!(back.type_(), pkt.type_());
        assert_eq!(back.token(), pkt.token());
        assert_eq!(back.len(), pkt.len());
        assert_eq!(back.flags(), pkt.flags());
        assert_eq!(back_used, used);
    }
}

#[test]
fn decoders_disagree_on_an_oversized_connection_id() {
    let buf = long_packet(0xC0, 1, &[9u8; 21], &[8u8; 3], &[0, 0]);
    let (fields, reply) = decode_version_cid(&buf, 0).unwrap();
    assert_eq!(fields.dcid, &[9u8; 21]);
    assert_eq!(fields.scid, Some(&[8u8; 3][..]));
    assert!(!reply);
    assert_eq!(error_of(&buf), DecodeError::Oversized);
    let longest = long_packet(0xC0, 1, &[9u8; 255], &[8u8; 255], &[]);
    let (fields, _) = decode_version_cid(&longest, 0).unwrap();
    assert_eq!(fields.dcid.len(), 255);
    assert_eq!(fields.scid.map(|s| s.len()), Some(255));
    assert!(decode_hd_long(&longest).is_err());
}
