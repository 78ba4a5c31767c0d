use crate::error::DecodeError;
use crate::types::MAX_CIDLEN;
use crate::wire::{
    lemma_be_value_of_four, lemma_varint_value_bound, read_be, read_varint, varint_at,
    VARINT_LIMIT,
};
use vstd::prelude::*;
use vstd::slice::slice_subrange;

verus! {

/// QUIC version 1.
pub const PROTO_VER_V1: u32 = 0x0000_0001;

/// QUIC version 2.
pub const PROTO_VER_V2: u32 = 0x6b33_43cf;

/// Flag bit: the packet has a long header.
pub const PKT_FLAG_LONG_FORM: u8 = 0x01;

/// Flag bit: the fixed bit of the first byte was found clear.
pub const PKT_FLAG_FIXED_BIT_CLEAR: u8 = 0x02;

/// Flag bit: the key phase bit of a short header is set.
pub const PKT_FLAG_KEY_PHASE: u8 = 0x04;

/// In the first byte of a packet: set for a long header.
pub const HEADER_FORM_BIT: u8 = 0x80;

/// In the first byte of a packet: the fixed bit, which a sender sets.
pub const FIXED_BIT_MASK: u8 = 0x40;

/// The shortest long header: first byte, four bytes of version and the two
/// length bytes of two empty connection IDs.
pub const LONG_PREFIX_MIN: usize = 7;

/// The versions whose headers this library decodes.
pub open spec fn supported_version(version: u32) -> bool {
    version == PROTO_VER_V1 || version == PROTO_VER_V2
}

/// Whether `version` is one whose headers this library decodes.
pub fn is_supported_version(version: u32) -> (r: bool)
    ensures
        r == supported_version(version),
{
    version == PROTO_VER_V1 || version == PROTO_VER_V2
}

/// `Some(version)`, but `None` for zero.
pub open spec fn nonzero(version: u32) -> Option<u32> {
    if version == 0 {
        None
    } else {
        Some(version)
    }
}

/// `Some(bytes)`, but `None` for no bytes.
pub open spec fn nonempty(bytes: Seq<u8>) -> Option<Seq<u8>> {
    if bytes.len() == 0 {
        None
    } else {
        Some(bytes)
    }
}

/// The set of flags of a packet header, one bit each. Bits without a name are
/// kept as they are.
#[derive(Clone, Copy, Debug, PartialEq, Eq, Structural)]
pub struct PktFlags {
    bits: u8,
}

impl View for PktFlags {
    type V = u8;

    closed spec fn view(&self) -> u8 {
        self.bits
    }
}

impl PktFlags {
    /// The set that holds exactly the bits of `bits`, named or not.
    pub fn from_bits_retain(bits: u8) -> (r: PktFlags)
        ensures
            r@ == bits,
    {
        PktFlags { bits }
    }

    /// All the bits of the set.
    pub fn bits(&self) -> (r: u8)
        ensures
            r == self@,
    {
        self.bits
    }

    /// Whether the packet has a long header.
    pub fn is_long_form(&self) -> (r: bool)
        ensures
            r == (self@ & PKT_FLAG_LONG_FORM != 0),
    {
        self.bits & PKT_FLAG_LONG_FORM != 0
    }

    /// Whether the fixed bit of the first byte was found clear.
    pub fn is_fixed_bit_clear(&self) -> (r: bool)
        ensures
            r == (self@ & PKT_FLAG_FIXED_BIT_CLEAR != 0),
    {
        self.bits & PKT_FLAG_FIXED_BIT_CLEAR != 0
    }

    /// Whether the key phase bit is set.
    pub fn is_key_phase(&self) -> (r: bool)
        ensures
            r == (self@ & PKT_FLAG_KEY_PHASE != 0),
    {
        self.bits & PKT_FLAG_KEY_PHASE != 0
    }
}

/// The kinds of packet.
#[derive(Clone, Copy, Debug, PartialEq, Eq, Structural)]
pub enum PktType {
    VersionNegotiation,
    StatelessReset,
    Initial,
    Rtt0,
    Handshake,
    Retry,
    Rtt1,
}

/// The two type bits of a long header's first byte.
pub open spec fn long_type_bits(first: u8) -> u8 {
    (first >> 4) & 3
}

/// The packet type that a long header of `version` with first byte `first`
/// has. Version zero marks a Version Negotiation packet, whatever the type
/// bits hold; the two supported versions number the four long types
/// differently; a first byte without the header form bit, or any other
/// version, names no type.
pub open spec fn long_pkt_type(version: u32, first: u8) -> Option<PktType> {
    let bits = long_type_bits(first);
    if first & HEADER_FORM_BIT == 0 {
        None
    } else if version == 0 {
        Some(PktType::VersionNegotiation)
    } else if version == PROTO_VER_V2 {
        Some(
            if bits == 0 {
                PktType::Retry
            } else if bits == 1 {
                PktType::Initial
            } else if bits == 2 {
                PktType::Rtt0
            } else {
                PktType::Handshake
            },
        )
    } else if version == PROTO_VER_V1 {
        Some(
            if bits == 0 {
                PktType::Initial
            } else if bits == 1 {
                PktType::Rtt0
            } else if bits == 2 {
                PktType::Handshake
            } else {
                PktType::Retry
            },
        )
    } else {
        None
    }
}

impl PktType {
    /// The number that stands for the type.
    pub open spec fn spec_code(self) -> u8 {
        match self {
            PktType::VersionNegotiation => 0x80,
            PktType::StatelessReset => 0x81,
            PktType::Initial => 0x10,
            PktType::Rtt0 => 0x11,
            PktType::Handshake => 0x12,
            PktType::Retry => 0x13,
            PktType::Rtt1 => 0x40,
        }
    }

    /// The number that stands for the type.
    pub fn code(self) -> (r: u8)
        ensures
            r == self.spec_code(),
    {
        match self {
            PktType::VersionNegotiation => 0x80,
            PktType::StatelessReset => 0x81,
            PktType::Initial => 0x10,
            PktType::Rtt0 => 0x11,
            PktType::Handshake => 0x12,
            PktType::Retry => 0x13,
            PktType::Rtt1 => 0x40,
        }
    }

    /// The type that `code` stands for, or `None` where it stands for none.
    pub open spec fn spec_from_code(code: u8) -> Option<PktType> {
        if code == 0x80 {
            Some(PktType::VersionNegotiation)
        } else if code == 0x81 {
            Some(PktType::StatelessReset)
        } else if code == 0x10 {
            Some(PktType::Initial)
        } else if code == 0x11 {
            Some(PktType::Rtt0)
        } else if code == 0x12 {
            Some(PktType::Handshake)
        } else if code == 0x13 {
            Some(PktType::Retry)
        } else if code == 0x40 {
            Some(PktType::Rtt1)
        } else {
            None
        }
    }

    /// The type that `code` stands for, or `None` where it stands for none:
    /// an unknown code is refused, never taken for some type.
    pub fn from_code(code: u8) -> (r: Option<PktType>)
        ensures
            r == Self::spec_from_code(code),
            r matches Some(t) ==> t.spec_code() == code,
            r is None ==> forall|t: PktType| t.spec_code() != code,
    {
        match code {
            0x80 => Some(PktType::VersionNegotiation),
            0x81 => Some(PktType::StatelessReset),
            0x10 => Some(PktType::Initial),
            0x11 => Some(PktType::Rtt0),
            0x12 => Some(PktType::Handshake),
            0x13 => Some(PktType::Retry),
            0x40 => Some(PktType::Rtt1),
            _ => None,
        }
    }

    /// The type of the long header of `version` whose first byte is `first`,
    /// or `None` where the two name none.
    pub fn from_long_header(version: u32, first: u8) -> (r: Option<PktType>)
        ensures
            r == long_pkt_type(version, first),
    {
        let bits: u8 = (first >> 4) & 3;
        if first & HEADER_FORM_BIT == 0 {
            None
        } else if version == 0 {
            Some(PktType::VersionNegotiation)
        } else if version == PROTO_VER_V2 {
            Some(
                if bits == 0 {
                    PktType::Retry
                } else if bits == 1 {
                    PktType::Initial
                } else if bits == 2 {
                    PktType::Rtt0
                } else {
                    PktType::Handshake
                },
            )
        } else if version == PROTO_VER_V1 {
            Some(
                if bits == 0 {
                    PktType::Initial
                } else if bits == 1 {
                    PktType::Rtt0
                } else if bits == 2 {
                    PktType::Handshake
                } else {
                    PktType::Retry
                },
            )
        } else {
            None
        }
    }
}

/// The version field of a long header: the four bytes after the first, most
/// significant first.
pub open spec fn long_version(buf: Seq<u8>) -> u32
    recommends
        buf.len() >= 5,
{
    (buf[1] * 0x100_0000 + buf[2] * 0x1_0000 + buf[3] * 0x100 + buf[4]) as u32
}

/// The two connection IDs of a long header: from offset 5, the destination's
/// length byte and bytes, then the source's. A length above `limit` is
/// refused as soon as it is read.
pub open spec fn long_cids(buf: Seq<u8>, limit: nat) -> Result<(Seq<u8>, Seq<u8>), DecodeError>
    recommends
        buf.len() >= LONG_PREFIX_MIN,
{
    let dcil = buf[5] as int;
    let scil = buf[6 + dcil] as int;
    if dcil > limit {
        Err(DecodeError::Oversized)
    } else if buf.len() < 7 + dcil {
        Err(DecodeError::Truncated)
    } else if scil > limit {
        Err(DecodeError::Oversized)
    } else if buf.len() < 7 + dcil + scil {
        Err(DecodeError::Truncated)
    } else {
        Ok((buf.subrange(6, 6 + dcil), buf.subrange(7 + dcil, 7 + dcil + scil)))
    }
}

/// What the header prefix of a packet says of its version and connection IDs.
pub struct VersionCid {
    /// The version of a long header, unless it is zero.
    pub version: Option<u32>,
    /// The Destination Connection ID.
    pub dcid: Seq<u8>,
    /// The Source Connection ID, which only a long header has.
    pub scid: Option<Seq<u8>>,
}

/// What `buf` says of its version and connection IDs, and whether it asks for
/// a Version Negotiation packet in reply.
///
/// A long header gives its version and both connection IDs, of any length
/// that a length byte can tell. A short header gives the `short_dcidlen`
/// bytes after its first byte as the Destination Connection ID. The only
/// failure is a buffer that ends before one of these fields does. A reply is
/// asked for by a long header with a version that is neither zero nor
/// supported.
pub open spec fn version_cid(buf: Seq<u8>, short_dcidlen: nat) -> Result<
    (VersionCid, bool),
    DecodeError,
> {
    if buf.len() == 0 {
        Err(DecodeError::Truncated)
    } else if buf[0] & HEADER_FORM_BIT != 0 {
        if buf.len() < LONG_PREFIX_MIN {
            Err(DecodeError::Truncated)
        } else {
            match long_cids(buf, u8::MAX as nat) {
                Err(e) => Err(e),
                Ok((dcid, scid)) => {
                    let version = long_version(buf);
                    Ok(
                        (
                            VersionCid { version: nonzero(version), dcid, scid: Some(scid) },
                            version != 0 && !supported_version(version),
                        ),
                    )
                },
            }
        }
    } else if buf.len() < 1 + short_dcidlen {
        Err(DecodeError::Truncated)
    } else {
        Ok(
            (
                VersionCid {
                    version: None,
                    dcid: buf.subrange(1, 1 + short_dcidlen as int),
                    scid: None,
                },
                false,
            ),
        )
    }
}

/// Version and connection IDs extracted from a packet header.
/// A short header contains just the Destination Connection ID.
/// A long header carries the version, destination, and source Connection IDs.
/// The version is presented as-is (if present), and it might not be supported.
/// Likewise, the length of Connection IDs might exceed the maximum allowed
/// length by currently supported versions of the QUIC protocol.
#[derive(Clone, Copy)]
pub struct PktVersionCid<'a> {
    /// The version, never `Some(0)`.
    pub version: Option<u32>,
    pub dcid: &'a [u8],
    pub scid: Option<&'a [u8]>,
}

impl<'a> View for PktVersionCid<'a> {
    type V = VersionCid;

    open spec fn view(&self) -> VersionCid {
        VersionCid {
            version: self.version,
            dcid: self.dcid@,
            scid: match self.scid {
                Some(s) => Some(s@),
                None => None,
            },
        }
    }
}

/// The fields of a decoded long header.
pub struct LongHeader {
    /// The flag bits.
    pub flags: u8,
    pub type_: PktType,
    /// The version; `None` for a Version Negotiation packet.
    pub version: Option<u32>,
    /// The Destination Connection ID, possibly empty.
    pub dcid: Seq<u8>,
    /// The Source Connection ID, unless it is empty.
    pub scid: Option<Seq<u8>>,
    /// The token of an Initial packet, unless it is empty.
    pub token: Option<Seq<u8>>,
    /// The length that the header declares for what follows it.
    pub len: nat,
}

impl LongHeader {
    /// What holds of every decoded long header.
    pub open spec fn wf(self) -> bool {
        &&& self.dcid.len() <= MAX_CIDLEN
        &&& self.scid matches Some(s) ==> 1 <= s.len() <= MAX_CIDLEN
        &&& self.token matches Some(t) ==> 1 <= t.len() < VARINT_LIMIT && self.type_
            == PktType::Initial
        &&& self.len <= usize::MAX && self.len < VARINT_LIMIT
        &&& self.type_ != PktType::StatelessReset && self.type_ != PktType::Rtt1
        &&& self.version matches Some(v) ==> v != 0 && supported_version(v)
        &&& self.version is None <==> self.type_ == PktType::VersionNegotiation
        &&& self.type_ == PktType::VersionNegotiation ==> self.flags == 0 && self.len == 0
        &&& self.type_ != PktType::VersionNegotiation ==> (self.flags == PKT_FLAG_LONG_FORM
            || self.flags == PKT_FLAG_LONG_FORM | PKT_FLAG_FIXED_BIT_CLEAR)
        &&& self.type_ == PktType::Retry ==> self.len == 0
    }
}

/// The flags of a long header of type `type_` with first byte `first`: none
/// for a Version Negotiation packet; else the long form flag, and the flag
/// that records a clear fixed bit.
pub open spec fn long_flags(type_: PktType, first: u8) -> u8 {
    if type_ == PktType::VersionNegotiation {
        0
    } else if first & FIXED_BIT_MASK == 0 {
        PKT_FLAG_LONG_FORM | PKT_FLAG_FIXED_BIT_CLEAR
    } else {
        PKT_FLAG_LONG_FORM
    }
}

/// The token field that starts at `at`: a variable-length integer, then as
/// many bytes of token. Gives the token, unless it is empty, and the offset
/// after the field. Where the buffer ends at `at`, the field is absent.
pub open spec fn token_field(buf: Seq<u8>, at: int) -> Result<
    (Option<Seq<u8>>, int),
    DecodeError,
> {
    if at >= buf.len() {
        Ok((None, at))
    } else {
        match varint_at(buf, at) {
            None => Err(DecodeError::Truncated),
            Some((n, start)) => if buf.len() - start < n {
                Err(DecodeError::Truncated)
            } else {
                Ok((nonempty(buf.subrange(start, start + n)), start + n))
            },
        }
    }
}

/// The length field that starts at `at`: a variable-length integer. Gives
/// its value and the offset after the field. Where the buffer ends at `at`,
/// the field is absent and the length is zero.
pub open spec fn length_field(buf: Seq<u8>, at: int) -> Result<(nat, int), DecodeError> {
    if at >= buf.len() {
        Ok((0, at))
    } else {
        match varint_at(buf, at) {
            None => Err(DecodeError::Truncated),
            Some((n, end)) => if n > usize::MAX {
                Err(DecodeError::Oversized)
            } else {
                Ok((n, end))
            },
        }
    }
}

/// What follows the connection IDs in a long header of type `type_`, from
/// offset `at`: the token, the declared length and the offset after the
/// header. An Initial packet has a token field and a length field, a 0-RTT or
/// Handshake packet a length field, a Retry packet neither. A Version
/// Negotiation packet is alone in its datagram and all header: the list of
/// versions after its connection IDs runs to the end of the buffer.
pub open spec fn long_tail(buf: Seq<u8>, type_: PktType, at: int) -> Result<
    (Option<Seq<u8>>, nat, int),
    DecodeError,
> {
    match type_ {
        PktType::Initial => match token_field(buf, at) {
            Err(e) => Err(e),
            Ok((token, next)) => match length_field(buf, next) {
                Err(e) => Err(e),
                Ok((len, end)) => Ok((token, len, end)),
            },
        },
        PktType::Rtt0 | PktType::Handshake => match length_field(buf, at) {
            Err(e) => Err(e),
            Ok((len, end)) => Ok((None, len, end)),
        },
        PktType::VersionNegotiation => Ok((None, 0, buf.len() as int)),
        _ => Ok((None, 0, at)),
    }
}

/// The long header that `buf` begins with, and how many bytes it takes.
///
/// The fields are taken in their order: the buffer must hold the shortest
/// header; first byte and version must name a type; each connection ID must
/// be no longer than `MAX_CIDLEN` and lie within the buffer; then come the
/// fields that the type has. The declared length is not held against the
/// size of the buffer.
pub open spec fn long_header(buf: Seq<u8>) -> Result<(LongHeader, nat), DecodeError> {
    if buf.len() < LONG_PREFIX_MIN {
        Err(DecodeError::Truncated)
    } else {
        match long_pkt_type(long_version(buf), buf[0]) {
            None => Err(DecodeError::UnrecognizedType),
            Some(type_) => match long_cids(buf, MAX_CIDLEN as nat) {
                Err(e) => Err(e),
                Ok((dcid, scid)) => match long_tail(
                    buf,
                    type_,
                    7 + dcid.len() as int + scid.len() as int,
                ) {
                    Err(e) => Err(e),
                    Ok((token, len, end)) => Ok(
                        (
                            LongHeader {
                                flags: long_flags(type_, buf[0]),
                                type_,
                                version: nonzero(long_version(buf)),
                                dcid,
                                scid: nonempty(scid),
                                token,
                                len,
                            },
                            end as nat,
                        ),
                    ),
                },
            },
        }
    }
}

/// A variable-length integer that a buffer holds in full is below
/// `VARINT_LIMIT` and ends within the buffer.
pub proof fn lemma_varint_at_bound(buf: Seq<u8>, at: int)
    requires
        0 <= at < buf.len(),
    ensures
        varint_at(buf, at) matches Some((value, end)) ==> value < VARINT_LIMIT && at < end
            <= buf.len(),
{
    if varint_at(buf, at) is Some {
        let rest = buf.subrange(at, buf.len() as int);
        assert(rest[0] == buf[at]);
        lemma_varint_value_bound(rest);
    }
}

/// Every long header that decodes is well formed, and lies within the buffer.
pub proof fn lemma_long_header_wf(buf: Seq<u8>)
    ensures
        long_header(buf) matches Ok((header, used)) ==> header.wf() && LONG_PREFIX_MIN <= used
            <= buf.len(),
{
    if long_header(buf) is Ok {
        let type_ = long_pkt_type(long_version(buf), buf[0])->Some_0;
        let at = 7 + buf[5] + buf[6 + buf[5]];
        if at < buf.len() {
            lemma_varint_at_bound(buf, at);
            if type_ == PktType::Initial {
                let next = token_field(buf, at)->Ok_0.1;
                if next < buf.len() {
                    lemma_varint_at_bound(buf, next);
                }
            }
        }
    }
}

/// A decoded long header. The connection IDs and the token are views into
/// the buffer that was decoded.
#[derive(Clone, Copy)]
pub struct Pkt<'a> {
    flags: PktFlags,
    type_: PktType,
    version: Option<u32>,
    dcid: &'a [u8],
    scid: Option<&'a [u8]>,
    token: Option<&'a [u8]>,
    len: usize,
}

impl<'a> View for Pkt<'a> {
    type V = LongHeader;

    closed spec fn view(&self) -> LongHeader {
        LongHeader {
            flags: self.flags@,
            type_: self.type_,
            version: self.version,
            dcid: self.dcid@,
            scid: match self.scid {
                Some(s) => Some(s@),
                None => None,
            },
            token: match self.token {
                Some(t) => Some(t@),
                None => None,
            },
            len: self.len as nat,
        }
    }
}

impl<'a> Pkt<'a> {
    #[verifier::type_invariant]
    spec fn inv(&self) -> bool {
        self@.wf()
    }

    /// The Destination Connection ID: at most `MAX_CIDLEN` bytes, possibly
    /// none.
    pub fn dcid(&self) -> (r: &[u8])
        ensures
            r@ == self@.dcid,
            self@.wf(),
    {
        proof {
            use_type_invariant(self);
        }
        self.dcid
    }

    /// The Source Connection ID, or `None` where the header has an empty one.
    pub fn scid(&self) -> (r: Option<&[u8]>)
        ensures
            match r {
                Some(s) => self@.scid == Some(s@),
                None => self@.scid is None,
            },
            self@.wf(),
    {
        proof {
            use_type_invariant(self);
        }
        self.scid
    }

    /// The token, which only an Initial packet has, or `None` where it has an
    /// empty one.
    pub fn token(&self) -> (r: Option<&[u8]>)
        ensures
            match r {
                Some(t) => self@.token == Some(t@),
                None => self@.token is None,
            },
            self@.wf(),
    {
        proof {
            use_type_invariant(self);
        }
        self.token
    }

    /// The length that the header declares for the rest of the packet. It may
    /// be more than the buffer held.
    pub fn len(&self) -> (r: usize)
        ensures
            r == self@.len,
            self@.wf(),
    {
        proof {
            use_type_invariant(self);
        }
        self.len
    }

    /// The version, or `None` for a Version Negotiation packet.
    pub fn version(&self) -> (r: Option<u32>)
        ensures
            r == self@.version,
            self@.wf(),
    {
        proof {
            use_type_invariant(self);
        }
        self.version
    }

    /// The packet type.
    pub fn type_(&self) -> (r: PktType)
        ensures
            r == self@.type_,
            self@.wf(),
    {
        proof {
            use_type_invariant(self);
        }
        self.type_
    }

    /// The flags.
    pub fn flags(&self) -> (r: PktFlags)
        ensures
            r@ == self@.flags,
            self@.wf(),
    {
        proof {
            use_type_invariant(self);
        }
        self.flags
    }
}

/// Reads the version field of a long header.
fn read_version(buf: &[u8]) -> (r: u32)
    requires
        buf@.len() >= 5,
    ensures
        r == long_version(buf@),
{
    proof {
        lemma_be_value_of_four(buf@.subrange(1, 5));
    }
    read_be(buf, 1, 4) as u32
}

/// Reads the two connection IDs of a long header.
fn read_long_cids<'a>(buf: &'a [u8], limit: usize) -> (res: Result<
    (&'a [u8], &'a [u8]),
    DecodeError,
>)
    requires
        buf@.len() >= LONG_PREFIX_MIN,
    ensures
        match long_cids(buf@, limit as nat) {
            Ok((dcid, scid)) => res matches Ok((d, s)) && d@ == dcid && s@ == scid,
            Err(e) => res matches Err(found) && found == e,
        },
{
    let total: usize = buf.len();
    let dcil: usize = buf[5] as usize;
    if dcil > limit {
        return Err(DecodeError::Oversized);
    }
    if total - 7 < dcil {
        return Err(DecodeError::Truncated);
    }
    let scil: usize = buf[6 + dcil] as usize;
    if scil > limit {
        return Err(DecodeError::Oversized);
    }
    if total - 7 - dcil < scil {
        return Err(DecodeError::Truncated);
    }
    Ok((slice_subrange(buf, 6, 6 + dcil), slice_subrange(buf, 7 + dcil, 7 + dcil + scil)))
}

/// `Some(bytes)`, but `None` for no bytes.
fn some_if_nonempty<'a>(bytes: &'a [u8]) -> (r: Option<&'a [u8]>)
    ensures
        match r {
            Some(s) => nonempty(bytes@) == Some(s@),
            None => nonempty(bytes@) is None,
        },
{
    if bytes.len() == 0 {
        None
    } else {
        Some(bytes)
    }
}

/// Reads the token field at `at`.
fn read_token_field<'a>(buf: &'a [u8], at: usize) -> (res: Result<
    (Option<&'a [u8]>, usize),
    DecodeError,
>)
    requires
        at <= buf@.len(),
    ensures
        match token_field(buf@, at as int) {
            Ok((token, next)) => res matches Ok((t, n)) && n == next && n <= buf@.len()
                && match t {
                Some(s) => token == Some(s@),
                None => token is None,
            },
            Err(e) => res matches Err(found) && found == e,
        },
{
    let total: usize = buf.len();
    if at >= total {
        return Ok((None, at));
    }
    match read_varint(buf, at) {
        None => Err(DecodeError::Truncated),
        Some((n, start)) => {
            if ((total - start) as u64) < n {
                Err(DecodeError::Truncated)
            } else {
                let end: usize = start + n as usize;
                Ok((some_if_nonempty(slice_subrange(buf, start, end)), end))
            }
        },
    }
}

/// Reads the length field at `at`.
fn read_length_field(buf: &[u8], at: usize) -> (res: Result<(usize, usize), DecodeError>)
    requires
        at <= buf@.len(),
    ensures
        match length_field(buf@, at as int) {
            Ok((len, end)) => res matches Ok((l, n)) && l == len && n == end && n <= buf@.len(),
            Err(e) => res matches Err(found) && found == e,
        },
{
    let total: usize = buf.len();
    if at >= total {
        return Ok((0, at));
    }
    match read_varint(buf, at) {
        None => Err(DecodeError::Truncated),
        Some((n, end)) => {
            if n > usize::MAX as u64 {
                Err(DecodeError::Oversized)
            } else {
                Ok((n as usize, end))
            }
        },
    }
}

/// Extracts version and connection IDs from the packet that `buf` begins
/// with, long header or short, and says whether a Version Negotiation packet
/// should be sent in reply. `short_dcidlen` is the length of the Destination
/// Connection ID that a short header is taken to carry.
///
/// The connection IDs of a long header may be longer than `MAX_CIDLEN`.
/// Where a reply is asked for, the connection IDs are still returned, to
/// address it.
pub fn decode_version_cid<'a>(buf: &'a [u8], short_dcidlen: usize) -> (res: Result<
    (PktVersionCid<'a>, bool),
    DecodeError,
>)
    ensures
        match version_cid(buf@, short_dcidlen as nat) {
            Ok((fields, reply)) => res matches Ok((found, flag)) && found@ == fields && flag
                == reply,
            Err(e) => res matches Err(found) && found == e,
        },
{
    let total: usize = buf.len();
    if total == 0 {
        return Err(DecodeError::Truncated);
    }
    if buf[0] & HEADER_FORM_BIT != 0 {
        if total < LONG_PREFIX_MIN {
            return Err(DecodeError::Truncated);
        }
        match read_long_cids(buf, u8::MAX as usize) {
            Err(e) => Err(e),
            Ok((dcid, scid)) => {
                let version: u32 = read_version(buf);
                let reply: bool = version != 0 && !is_supported_version(version);
                Ok(
                    (
                        PktVersionCid {
                            version: if version == 0 {
                                None
                            } else {
                                Some(version)
                            },
                            dcid,
                            scid: Some(scid),
                        },
                        reply,
                    ),
                )
            },
        }
    } else if total - 1 < short_dcidlen {
        Err(DecodeError::Truncated)
    } else {
        Ok(
            (
                PktVersionCid {
                    version: None,
                    dcid: slice_subrange(buf, 1, 1 + short_dcidlen),
                    scid: None,
                },
                false,
            ),
        )
    }
}

/// Decodes the QUIC long header in `buf`, and returns it with the number of
/// bytes read from `buf`. This function does not verify that the length field
/// is correct: it succeeds even if the returned `Pkt::len` is more than what
/// is left of `buf`.
///
/// This function can handle Connection IDs up to `MAX_CIDLEN`. Consider
/// `decode_version_cid` to get a longer Connection ID.
///
/// Version Negotiation is handled specially. If the version field is 0, the
/// packet is a Version Negotiation packet, whose type bits on the wire are
/// arbitrary. The returned type is `PktType::VersionNegotiation`, no flag is
/// set, and the length is 0. Such a packet occupies its whole datagram: the
/// number of bytes read is the length of `buf`, and the list of versions
/// starts after the two connection IDs.
///
/// A header may end where the buffer ends: a token or length field that
/// would start there is taken as absent, an empty token and a length of 0.
/// A field that the buffer ends inside is an error.
pub fn decode_hd_long<'a>(buf: &'a [u8]) -> (res: Result<(Pkt<'a>, usize), DecodeError>)
    ensures
        match long_header(buf@) {
            Ok((header, used)) => res matches Ok((pkt, n)) && pkt@ == header && n == used,
            Err(e) => res matches Err(found) && found == e,
        },
        buf@.len() < LONG_PREFIX_MIN ==> res == Err::<(Pkt<'a>, usize), DecodeError>(
            DecodeError::Truncated,
        ),
        res matches Ok((pkt, n)) ==> pkt@.wf() && LONG_PREFIX_MIN <= n <= buf@.len(),
{
    let total: usize = buf.len();
    if total < LONG_PREFIX_MIN {
        return Err(DecodeError::Truncated);
    }
    let first: u8 = buf[0];
    let version: u32 = read_version(buf);
    let type_: PktType = match PktType::from_long_header(version, first) {
        None => {
            return Err(DecodeError::UnrecognizedType);
        },
        Some(t) => t,
    };
    let (dcid, scid) = match read_long_cids(buf, MAX_CIDLEN) {
        Err(e) => {
            return Err(e);
        },
        Ok(pair) => pair,
    };
    let at: usize = 7 + dcid.len() + scid.len();
    let (token, len, end) = match type_ {
        PktType::Initial => {
            let (token, next) = match read_token_field(buf, at) {
                Err(e) => {
                    return Err(e);
                },
                Ok(pair) => pair,
            };
            match read_length_field(buf, next) {
                Err(e) => {
                    return Err(e);
                },
                Ok((len, end)) => (token, len, end),
            }
        },
        PktType::Rtt0 | PktType::Handshake => {
            match read_length_field(buf, at) {
                Err(e) => {
                    return Err(e);
                },
                Ok((len, end)) => (None, len, end),
            }
        },
        PktType::VersionNegotiation => (None, 0, total),
        _ => (None, 0, at),
    };
    let flags: u8 = match type_ {
        PktType::VersionNegotiation => 0,
        _ => if first & FIXED_BIT_MASK == 0 {
            PKT_FLAG_LONG_FORM | PKT_FLAG_FIXED_BIT_CLEAR
        } else {
            PKT_FLAG_LONG_FORM
        },
    };
    proof {
        lemma_long_header_wf(buf@);
    }
    let pkt = Pkt {
        flags: PktFlags::from_bits_retain(flags),
        type_,
        version: if version == 0 {
            None
        } else {
            Some(version)
        },
        dcid,
        scid: some_if_nonempty(scid),
        token,
        len,
    };
    Ok((pkt, end))
}

} // verus!
