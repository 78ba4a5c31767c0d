use crate::error::DecodeError;
use crate::pkt::{
    lemma_long_header_wf, length_field, long_cids, long_flags, long_header, long_pkt_type,
    long_tail, long_type_bits, long_version, nonempty, nonzero, token_field, version_cid,
    LongHeader, PktType, FIXED_BIT_MASK, HEADER_FORM_BIT, LONG_PREFIX_MIN,
    PKT_FLAG_FIXED_BIT_CLEAR, PKT_FLAG_LONG_FORM, PROTO_VER_V2, supported_version,
};
use crate::types::MAX_CIDLEN;
use crate::wire::{
    be_bytes, lemma_be_bytes_value, lemma_be_value_of_four, lemma_pow256_values,
    lemma_varint_round_trip, varint_bytes,
};
use vstd::prelude::*;

verus! {

/// A buffer shorter than the shortest long header is refused as truncated,
/// whatever it holds.
pub proof fn law_short_buffer_is_truncated(buf: Seq<u8>)
    requires
        buf.len() < LONG_PREFIX_MIN,
    ensures
        (long_header(buf) matches Err(e) && e == DecodeError::Truncated),
{
}

/// No two packet types share a code.
pub proof fn law_type_codes_are_distinct(a: PktType, b: PktType)
    requires
        a.spec_code() == b.spec_code(),
    ensures
        a == b,
{
}

/// A code stands for a type exactly when it is the code of that type.
pub proof fn law_type_of_code(code: u8, t: PktType)
    ensures
        PktType::spec_from_code(code) == Some(t) <==> t.spec_code() == code,
{
}

/// In a supported version every first byte with the header form bit names
/// one of the four long types, and every long type has a first byte.
pub proof fn law_supported_version_names_a_type(version: u32, first: u8)
    requires
        supported_version(version),
        first & HEADER_FORM_BIT != 0,
    ensures
        long_pkt_type(version, first) matches Some(t) && (t == PktType::Initial || t
            == PktType::Rtt0 || t == PktType::Handshake || t == PktType::Retry),
        forall|t: PktType|
            t == PktType::Initial || t == PktType::Rtt0 || t == PktType::Handshake || t
                == PktType::Retry ==> long_pkt_type(
                version,
                HEADER_FORM_BIT | (#[trigger] long_type_code(Some(version), t) << 4),
            ) == Some(t),
{
    assert forall|t: PktType|
        t == PktType::Initial || t == PktType::Rtt0 || t == PktType::Handshake || t
            == PktType::Retry implies long_pkt_type(
        version,
        HEADER_FORM_BIT | (#[trigger] long_type_code(Some(version), t) << 4),
    ) == Some(t) by {
        let code = long_type_code(Some(version), t);
        lemma_first_byte(code, 0);
        assert(HEADER_FORM_BIT | 0u8 | (code << 4) == HEADER_FORM_BIT | (code << 4))
            by (bit_vector);
    }
}

/// The long header decoder answers that the type is unrecognized exactly
/// when the buffer holds the shortest header and either its first byte lacks
/// the header form bit or its version is neither zero nor supported.
pub proof fn law_unrecognized_type(buf: Seq<u8>)
    ensures
        (long_header(buf) matches Err(e) && e == DecodeError::UnrecognizedType) <==> buf.len()
            >= LONG_PREFIX_MIN && (buf[0] & HEADER_FORM_BIT == 0 || (long_version(buf) != 0
            && !supported_version(long_version(buf)))),
{
}

/// A long header whose version field is zero decodes as a Version
/// Negotiation packet with no flag set, so without the long form flag, with
/// a length of zero and no token; or it fails on its connection IDs alone.
pub proof fn law_version_zero_is_negotiation(buf: Seq<u8>)
    requires
        buf.len() >= LONG_PREFIX_MIN,
        buf[0] & HEADER_FORM_BIT != 0,
        long_version(buf) == 0,
    ensures
        match long_header(buf) {
            Ok((header, used)) => {
                &&& header.type_ == PktType::VersionNegotiation
                &&& header.flags & PKT_FLAG_LONG_FORM == 0
                &&& header.flags == 0
                &&& header.len == 0
                &&& header.version is None
                &&& header.token is None
                &&& used == buf.len()
            },
            Err(e) => e != DecodeError::UnrecognizedType && (long_cids(buf, MAX_CIDLEN as nat)
                matches Err(found) && found == e),
        },
{
    assert(0u8 & PKT_FLAG_LONG_FORM == 0) by (bit_vector);
}

/// What a Version Negotiation packet decodes to depends on nothing but the
/// header form bit, the version and the connection IDs: not on the other
/// bits of the first byte, and not on what follows the connection IDs.
pub proof fn law_negotiation_ignores_the_rest(buf: Seq<u8>, other: Seq<u8>)
    requires
        long_header(buf) matches Ok((header, used)) && header.type_ == PktType::VersionNegotiation,
        other.len() >= 7 + buf[5] + buf[6 + buf[5]],
        other[0] & HEADER_FORM_BIT != 0,
        other.subrange(1, 7 + buf[5] + buf[6 + buf[5]]) == buf.subrange(
            1,
            7 + buf[5] + buf[6 + buf[5]],
        ),
    ensures
        long_header(buf) matches Ok((header, used)) && long_header(other) == Ok::<_, DecodeError>(
            (header, other.len()),
        ),
{
    let dcil = buf[5] as int;
    let scil = buf[6 + dcil] as int;
    let end = 7 + dcil + scil;
    assert forall|i: int| 1 <= i < end implies other[i] == buf[i] by {
        assert(other.subrange(1, end)[i - 1] == buf.subrange(1, end)[i - 1]);
    }
    assert(long_version(other) == long_version(buf));
    assert(other.subrange(6, 6 + dcil) == buf.subrange(6, 6 + dcil));
    assert(other.subrange(7 + dcil, 7 + dcil + scil) == buf.subrange(7 + dcil, 7 + dcil + scil));
}

/// On a short header the extractor gives the `short_dcidlen` bytes after the
/// first byte as the Destination Connection ID, no Source Connection ID and
/// no version, and asks for no reply; it fails, as truncated, exactly when
/// the buffer is shorter than that.
pub proof fn law_short_header_dcid(buf: Seq<u8>, short_dcidlen: nat)
    requires
        buf.len() >= 1 ==> buf[0] & HEADER_FORM_BIT == 0,
    ensures
        buf.len() >= 1 + short_dcidlen ==> (version_cid(buf, short_dcidlen) matches Ok(
            (fields, reply),
        ) && fields.dcid.len() == short_dcidlen && fields.dcid == buf.subrange(
            1,
            1 + short_dcidlen as int,
        ) && fields.scid is None && fields.version is None && !reply),
        buf.len() < 1 + short_dcidlen ==> (version_cid(buf, short_dcidlen) matches Err(e) && e
            == DecodeError::Truncated),
{
}

/// The extractor takes connection IDs of any length: on a long header it
/// succeeds exactly when the buffer holds both in full. The long header
/// decoder fails on the same buffer as soon as one of them is longer than
/// `MAX_CIDLEN`.
pub proof fn law_oversized_cid_divides_the_decoders(buf: Seq<u8>, short_dcidlen: nat)
    requires
        buf.len() >= LONG_PREFIX_MIN,
        buf[0] & HEADER_FORM_BIT != 0,
    ensures
        version_cid(buf, short_dcidlen) is Ok <==> buf.len() >= 7 + buf[5] + buf[6 + buf[5]],
        match version_cid(buf, short_dcidlen) {
            Ok((fields, reply)) => {
                &&& fields.dcid.len() == buf[5]
                &&& fields.scid matches Some(scid) && scid.len() == buf[6 + buf[5]]
                &&& buf[5] > MAX_CIDLEN || buf[6 + buf[5]] > MAX_CIDLEN ==> long_header(buf) is Err
            },
            Err(e) => e == DecodeError::Truncated,
        },
{
}

/// The two type bits that stand for `type_` in a long header of `version`.
pub open spec fn long_type_code(version: Option<u32>, type_: PktType) -> u8 {
    if version == Some(PROTO_VER_V2) {
        match type_ {
            PktType::Initial => 1,
            PktType::Rtt0 => 2,
            PktType::Handshake => 3,
            _ => 0,
        }
    } else {
        match type_ {
            PktType::Rtt0 => 1,
            PktType::Handshake => 2,
            PktType::Retry => 3,
            _ => 0,
        }
    }
}

/// The first byte of the plain encoding of `header`: the header form bit,
/// the fixed bit unless the flags say it was clear, and the type bits.
pub open spec fn long_first_byte(header: LongHeader) -> u8 {
    let fixed = if header.flags & PKT_FLAG_FIXED_BIT_CLEAR != 0 {
        0u8
    } else {
        FIXED_BIT_MASK
    };
    HEADER_FORM_BIT | fixed | (long_type_code(header.version, header.type_) << 4)
}

/// The bytes of an optional field: none where it is absent.
pub open spec fn bytes_of(field: Option<Seq<u8>>) -> Seq<u8> {
    match field {
        Some(bytes) => bytes,
        None => Seq::empty(),
    }
}

/// The version number on the wire: zero where the header has none.
pub open spec fn version_of(version: Option<u32>) -> u32 {
    match version {
        Some(v) => v,
        None => 0,
    }
}

/// The plain encoding of the fields that every long header has: first byte,
/// version, and the two connection IDs, each behind its length.
pub open spec fn long_prefix_bytes(header: LongHeader) -> Seq<u8> {
    seq![long_first_byte(header)] + be_bytes(version_of(header.version) as nat, 4) + seq![
        header.dcid.len() as u8,
    ] + header.dcid + seq![bytes_of(header.scid).len() as u8] + bytes_of(header.scid)
}

/// The plain encoding of the fields that follow the connection IDs: for an
/// Initial packet the token behind its length, and the declared length; for
/// a 0-RTT or Handshake packet the declared length; else nothing.
pub open spec fn long_tail_bytes(header: LongHeader) -> Seq<u8> {
    match header.type_ {
        PktType::Initial => varint_bytes(bytes_of(header.token).len()) + bytes_of(header.token)
            + varint_bytes(header.len),
        PktType::Rtt0 | PktType::Handshake => varint_bytes(header.len),
        _ => Seq::empty(),
    }
}

/// The plain encoding of a long header: every field present, each
/// variable-length integer as short as it can be.
pub open spec fn long_header_bytes(header: LongHeader) -> Seq<u8> {
    long_prefix_bytes(header) + long_tail_bytes(header)
}

/// What the first byte of an encoding says when it is decoded.
proof fn lemma_first_byte(code: u8, fixed: u8)
    requires
        code < 4,
        fixed == 0 || fixed == FIXED_BIT_MASK,
    ensures
        (HEADER_FORM_BIT | fixed | (code << 4)) & HEADER_FORM_BIT != 0,
        long_type_bits(HEADER_FORM_BIT | fixed | (code << 4)) == code,
        (HEADER_FORM_BIT | fixed | (code << 4)) & FIXED_BIT_MASK == fixed,
{
    assert(code < 4 && (fixed == 0 || fixed == 0x40) ==> (0x80u8 | fixed | (code << 4)) & 0x80
        != 0 && ((0x80u8 | fixed | (code << 4)) >> 4) & 3 == code && (0x80u8 | fixed | (code << 4))
        & 0x40 == fixed) by (bit_vector);
}

/// Encoding a well-formed long header and decoding the bytes gives the
/// header back, and takes all the bytes.
pub proof fn law_encode_then_decode(header: LongHeader)
    requires
        header.wf(),
    ensures
        long_header(long_header_bytes(header)) == Ok::<_, DecodeError>(
            (header, long_header_bytes(header).len()),
        ),
{
    let first = long_first_byte(header);
    let version = version_of(header.version);
    let dcid = header.dcid;
    let scid = bytes_of(header.scid);
    let dl = dcid.len() as int;
    let sl = scid.len() as int;
    let prefix = long_prefix_bytes(header);
    let tail = long_tail_bytes(header);
    let buf = long_header_bytes(header);
    let at = 7 + dl + sl;

    lemma_pow256_values();
    lemma_be_bytes_value(version as nat, 4);
    let vb = be_bytes(version as nat, 4);
    assert(prefix.len() == at);
    assert(buf.len() == at + tail.len());
    assert(buf[0] == first);
    assert(buf.subrange(1, 5) =~= vb);
    lemma_be_value_of_four(vb);
    assert(long_version(buf) == version);
    assert(buf[5] == dl as u8);
    assert(buf.subrange(6, 6 + dl) =~= dcid);
    assert(buf[6 + dl] == sl as u8);
    assert(buf.subrange(7 + dl, 7 + dl + sl) =~= scid);
    assert(buf.subrange(at, buf.len() as int) =~= tail);
    assert(long_cids(buf, MAX_CIDLEN as nat) == Ok::<_, DecodeError>((dcid, scid)));
    assert(nonempty(scid) == header.scid);
    assert(nonzero(version) == header.version);

    let code = long_type_code(header.version, header.type_);
    let fixed = if header.flags & PKT_FLAG_FIXED_BIT_CLEAR != 0 {
        0u8
    } else {
        FIXED_BIT_MASK
    };
    lemma_first_byte(code, fixed);
    assert(long_pkt_type(version, first) == Some(header.type_));
    assert(0u8 & PKT_FLAG_FIXED_BIT_CLEAR == 0) by (bit_vector);
    assert(PKT_FLAG_LONG_FORM & PKT_FLAG_FIXED_BIT_CLEAR == 0) by (bit_vector);
    assert((PKT_FLAG_LONG_FORM | PKT_FLAG_FIXED_BIT_CLEAR) & PKT_FLAG_FIXED_BIT_CLEAR != 0)
        by (bit_vector);
    assert(long_flags(header.type_, first) == header.flags);

    let token = bytes_of(header.token);
    let tl = token.len();
    match header.type_ {
        PktType::Initial => {
            let vt = varint_bytes(tl);
            let vl = varint_bytes(header.len);
            assert(buf.subrange(at, at + vt.len()) =~= vt) by {
                assert(tail.subrange(0, vt.len() as int) =~= vt);
            }
            lemma_varint_round_trip(buf, at, tl);
            let start = at + vt.len();
            assert(buf.subrange(start, start + tl) =~= token);
            assert(nonempty(token) == header.token);
            let next = start + tl;
            assert(token_field(buf, at) == Ok::<_, DecodeError>((header.token, next)));
            assert(buf.subrange(next, next + vl.len()) =~= vl) by {
                assert(tail.subrange(next - at, next - at + vl.len()) =~= vl);
            }
            lemma_varint_round_trip(buf, next, header.len);
            assert(length_field(buf, next) == Ok::<_, DecodeError>(
                (header.len, next + vl.len()),
            ));
        },
        PktType::Rtt0 | PktType::Handshake => {
            let vl = varint_bytes(header.len);
            assert(buf.subrange(at, at + vl.len()) =~= vl);
            lemma_varint_round_trip(buf, at, header.len);
            assert(length_field(buf, at) == Ok::<_, DecodeError>((header.len, at + vl.len())));
        },
        _ => {},
    }
    assert(long_tail(buf, header.type_, at) == Ok::<_, DecodeError>(
        (header.token, header.len, buf.len() as int),
    ));
}

/// Decoding a long header, encoding the fields that came out and decoding
/// again gives the same header: version, type, both connection IDs and all
/// the rest.
pub proof fn law_long_header_round_trip(buf: Seq<u8>)
    requires
        long_header(buf) is Ok,
    ensures
        match long_header(buf) {
            Ok((header, used)) => match long_header(long_header_bytes(header)) {
                Ok((again, taken)) => {
                    &&& again.version == header.version
                    &&& again.dcid == header.dcid
                    &&& again.scid == header.scid
                    &&& again.type_ == header.type_
                    &&& again == header
                    &&& taken == long_header_bytes(header).len()
                },
                Err(_) => false,
            },
            Err(_) => false,
        },
{
    lemma_long_header_wf(buf);
    law_encode_then_decode(long_header(buf)->Ok_0.0);
}

} // verus!
