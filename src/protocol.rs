//! The NTP packet codec: the fixed header, the extension fields, and the NTS
//! authenticator that seals the encrypted extensions.
use vstd::prelude::*;
use crate::aead::{open, random_bytes, seal, siv_open, siv_seal};
use crate::wire::{
    be16, be32, be64, lemma_u16_round_trip, lemma_u32_at_subrange, lemma_u32_round_trip,
    lemma_u64_at_subrange, lemma_u64_round_trip, copy_range, push_all, push_u16, push_zeros, push_u32, push_u64, read_u16,
    read_u32, read_u64, u16_at, u32_at, u64_at,
};

verus! {

/// The protocol version this server speaks.
pub const VERSION: u8 = 4;

/// Seconds between the NTP epoch (1900) and the Unix epoch (1970).
pub const UNIX_OFFSET: u64 = 2_208_988_800;

/// Length of the fixed NTP header.
pub const HEADER_SIZE: usize = 48;

/// Length of the nonce placed in each authenticator.
pub const NONCE_LEN: usize = 32;

pub const EXT_TYPE_UNIQUE_IDENTIFIER: u16 = 0x0104;
pub const EXT_TYPE_NTS_COOKIE: u16 = 0x0204;
pub const EXT_TYPE_NTS_COOKIE_PLACEHOLDER: u16 = 0x0304;
pub const EXT_TYPE_NTS_AUTHENTICATOR: u16 = 0x0404;

/// The ways a packet can be refused.
#[derive(Debug, Clone, Copy, PartialEq, Eq, Structural)]
pub enum NtpError {
    /// The bytes do not parse, or an extension cannot be written.
    Malformed,
    /// The authenticator's tag does not match.
    AuthFailed,
}

#[derive(Debug, Clone, Copy, PartialEq, Eq, Structural)]
pub enum LeapState {
    NoLeap,
    Positive,
    Negative,
    Unknown,
}

#[derive(Debug, Clone, Copy, PartialEq, Eq, Structural)]
pub enum PacketMode {
    SymmetricActive,
    SymmetricPassive,
    Client,
    Server,
    Broadcast,
    Invalid,
}

#[derive(Debug, Clone, Copy, PartialEq, Eq, Structural)]
pub enum NtpExtensionType {
    UniqueIdentifier,
    NTSCookie,
    NTSCookiePlaceholder,
    NTSAuthenticator,
    Unknown(u16),
}

/// Header of an NTP and NTS packet; see RFC 5905 for the meaning of the fields.
#[derive(Debug, Clone, Copy, PartialEq, Eq, Structural)]
pub struct NtpPacketHeader {
    pub leap_indicator: LeapState,
    pub version: u8,
    pub mode: PacketMode,
    pub stratum: u8,
    pub poll: i8,
    pub precision: i8,
    pub root_delay: u32,
    pub root_dispersion: u32,
    pub reference_id: u32,
    pub reference_timestamp: u64,
    pub origin_timestamp: u64,
    pub receive_timestamp: u64,
    pub transmit_timestamp: u64,
}

/// One extension field. Its contents must be a multiple of 4 bytes long to be
/// written out.
#[derive(Debug, Clone)]
pub struct NtpExtension {
    pub ext_type: NtpExtensionType,
    pub contents: Vec<u8>,
}

/// An extension as a value: its type and its contents.
pub type ExtModel = (NtpExtensionType, Seq<u8>);

impl View for NtpExtension {
    type V = ExtModel;

    open spec fn view(&self) -> ExtModel {
        (self.ext_type, self.contents@)
    }
}

/// The values of a list of extensions.
pub open spec fn exts_model(v: Seq<NtpExtension>) -> Seq<ExtModel> {
    v.map_values(|e: NtpExtension| e@)
}

/// An NTS packet: the extensions it authenticates, and those it also encrypts.
#[derive(Debug, Clone)]
pub struct NtsPacket {
    pub header: NtpPacketHeader,
    pub auth_exts: Vec<NtpExtension>,
    pub auth_enc_exts: Vec<NtpExtension>,
}

/// An NTP packet: a header and its extensions. The legacy MAC is not supported.
#[derive(Debug, Clone)]
pub struct NtpPacket {
    pub header: NtpPacketHeader,
    pub exts: Vec<NtpExtension>,
}

pub open spec fn wire_type_spec(x: NtpExtensionType) -> u16 {
    match x {
        NtpExtensionType::UniqueIdentifier => EXT_TYPE_UNIQUE_IDENTIFIER,
        NtpExtensionType::NTSCookie => EXT_TYPE_NTS_COOKIE,
        NtpExtensionType::NTSCookiePlaceholder => EXT_TYPE_NTS_COOKIE_PLACEHOLDER,
        NtpExtensionType::NTSAuthenticator => EXT_TYPE_NTS_AUTHENTICATOR,
        NtpExtensionType::Unknown(y) => y,
    }
}

pub open spec fn type_from_wire_spec(y: u16) -> NtpExtensionType {
    if y == EXT_TYPE_UNIQUE_IDENTIFIER {
        NtpExtensionType::UniqueIdentifier
    } else if y == EXT_TYPE_NTS_COOKIE {
        NtpExtensionType::NTSCookie
    } else if y == EXT_TYPE_NTS_COOKIE_PLACEHOLDER {
        NtpExtensionType::NTSCookiePlaceholder
    } else if y == EXT_TYPE_NTS_AUTHENTICATOR {
        NtpExtensionType::NTSAuthenticator
    } else {
        NtpExtensionType::Unknown(y)
    }
}

/// The wire code of an extension type.
pub fn wire_type(x: NtpExtensionType) -> (r: u16)
    ensures
        r == wire_type_spec(x),
{
    match x {
        NtpExtensionType::UniqueIdentifier => EXT_TYPE_UNIQUE_IDENTIFIER,
        NtpExtensionType::NTSCookie => EXT_TYPE_NTS_COOKIE,
        NtpExtensionType::NTSCookiePlaceholder => EXT_TYPE_NTS_COOKIE_PLACEHOLDER,
        NtpExtensionType::NTSAuthenticator => EXT_TYPE_NTS_AUTHENTICATOR,
        NtpExtensionType::Unknown(y) => y,
    }
}

/// The extension type of a wire code; codes not recognised stay `Unknown`.
pub fn type_from_wire(ext: u16) -> (r: NtpExtensionType)
    ensures
        r == type_from_wire_spec(ext),
{
    if ext == EXT_TYPE_UNIQUE_IDENTIFIER {
        NtpExtensionType::UniqueIdentifier
    } else if ext == EXT_TYPE_NTS_COOKIE {
        NtpExtensionType::NTSCookie
    } else if ext == EXT_TYPE_NTS_COOKIE_PLACEHOLDER {
        NtpExtensionType::NTSCookiePlaceholder
    } else if ext == EXT_TYPE_NTS_AUTHENTICATOR {
        NtpExtensionType::NTSAuthenticator
    } else {
        NtpExtensionType::Unknown(ext)
    }
}

pub open spec fn leap_bits(l: LeapState) -> u8 {
    match l {
        LeapState::NoLeap => 0,
        LeapState::Positive => 1,
        LeapState::Negative => 2,
        LeapState::Unknown => 3,
    }
}

pub open spec fn mode_bits(m: PacketMode) -> u8 {
    match m {
        PacketMode::SymmetricActive => 1,
        PacketMode::SymmetricPassive => 2,
        PacketMode::Client => 3,
        PacketMode::Server => 4,
        PacketMode::Broadcast => 5,
        PacketMode::Invalid => 6,
    }
}

pub open spec fn leap_of(first: u8) -> LeapState {
    let b = first >> 6u8;
    if b == 0 {
        LeapState::NoLeap
    } else if b == 1 {
        LeapState::Positive
    } else if b == 2 {
        LeapState::Negative
    } else {
        LeapState::Unknown
    }
}

pub open spec fn version_of(first: u8) -> u8 {
    (first & 0x38u8) >> 3u8
}

pub open spec fn mode_of(first: u8) -> PacketMode {
    let m = first & 0x07u8;
    if m == 1 {
        PacketMode::SymmetricActive
    } else if m == 2 {
        PacketMode::SymmetricPassive
    } else if m == 3 {
        PacketMode::Client
    } else if m == 4 {
        PacketMode::Server
    } else if m == 5 {
        PacketMode::Broadcast
    } else {
        PacketMode::Invalid
    }
}

/// The first byte packs the leap indicator, the version and the mode.
pub open spec fn first_byte(leap: LeapState, version: u8, mode: PacketMode) -> u8 {
    (leap_bits(leap) << 6u8) | ((version << 3u8) & 0x38u8) | (mode_bits(mode) & 0x07u8)
}

fn parse_leap_indicator(first: u8) -> (r: LeapState)
    ensures
        r == leap_of(first),
{
    let b = first >> 6u8;
    if b == 0 {
        LeapState::NoLeap
    } else if b == 1 {
        LeapState::Positive
    } else if b == 2 {
        LeapState::Negative
    } else {
        LeapState::Unknown
    }
}

fn parse_version(first: u8) -> (r: u8)
    ensures
        r == version_of(first),
{
    (first & 0x38u8) >> 3u8
}

fn parse_mode(first: u8) -> (r: PacketMode)
    ensures
        r == mode_of(first),
{
    let m = first & 0x07u8;
    if m == 1 {
        PacketMode::SymmetricActive
    } else if m == 2 {
        PacketMode::SymmetricPassive
    } else if m == 3 {
        PacketMode::Client
    } else if m == 4 {
        PacketMode::Server
    } else if m == 5 {
        PacketMode::Broadcast
    } else {
        PacketMode::Invalid
    }
}

fn create_first(leap: LeapState, version: u8, mode: PacketMode) -> (r: u8)
    ensures
        r == first_byte(leap, version, mode),
{
    let l: u8 = match leap {
        LeapState::NoLeap => 0,
        LeapState::Positive => 1,
        LeapState::Negative => 2,
        LeapState::Unknown => 3,
    };
    let m: u8 = match mode {
        PacketMode::SymmetricActive => 1,
        PacketMode::SymmetricPassive => 2,
        PacketMode::Client => 3,
        PacketMode::Server => 4,
        PacketMode::Broadcast => 5,
        PacketMode::Invalid => 6,
    };
    (l << 6u8) | ((version << 3u8) & 0x38u8) | (m & 0x07u8)
}

/// The 48 bytes of a header on the wire.
pub open spec fn header_bytes(h: NtpPacketHeader) -> Seq<u8> {
    seq![first_byte(h.leap_indicator, h.version, h.mode), h.stratum, h.poll as u8, h.precision as u8]
        + be32(h.root_delay) + be32(h.root_dispersion) + be32(h.reference_id) + be64(
        h.reference_timestamp,
    ) + be64(h.origin_timestamp) + be64(h.receive_timestamp) + be64(h.transmit_timestamp)
}

/// The header that the first 48 bytes of `s` hold.
pub open spec fn header_at(s: Seq<u8>) -> NtpPacketHeader {
    NtpPacketHeader {
        leap_indicator: leap_of(s[0]),
        version: version_of(s[0]),
        mode: mode_of(s[0]),
        stratum: s[1],
        poll: s[2] as i8,
        precision: s[3] as i8,
        root_delay: u32_at(s, 4),
        root_dispersion: u32_at(s, 8),
        reference_id: u32_at(s, 12),
        reference_timestamp: u64_at(s, 16),
        origin_timestamp: u64_at(s, 24),
        receive_timestamp: u64_at(s, 32),
        transmit_timestamp: u64_at(s, 40),
    }
}

/// A header that survives the wire: a version of three bits and a known mode.
pub open spec fn header_valid(h: NtpPacketHeader) -> bool {
    h.version < 8 && h.mode != PacketMode::Invalid
}

/// Extracts a packet header; fails when fewer than 48 bytes are given.
pub fn parse_packet_header(packet: &[u8]) -> (r: Result<NtpPacketHeader, NtpError>)
    ensures
        packet@.len() < 48 ==> r == Err::<NtpPacketHeader, NtpError>(NtpError::Malformed),
        packet@.len() >= 48 ==> r == Ok::<NtpPacketHeader, NtpError>(header_at(packet@)),
{
    if packet.len() < 48 {
        return Err(NtpError::Malformed);
    }
    let first = packet[0];
    Ok(NtpPacketHeader {
        leap_indicator: parse_leap_indicator(first),
        version: parse_version(first),
        mode: parse_mode(first),
        stratum: packet[1],
        poll: packet[2] as i8,
        precision: packet[3] as i8,
        root_delay: read_u32(packet, 4),
        root_dispersion: read_u32(packet, 8),
        reference_id: read_u32(packet, 12),
        reference_timestamp: read_u64(packet, 16),
        origin_timestamp: read_u64(packet, 24),
        receive_timestamp: read_u64(packet, 32),
        transmit_timestamp: read_u64(packet, 40),
    })
}

/// The wire form of a header.
pub fn serialize_header(head: NtpPacketHeader) -> (r: Vec<u8>)
    ensures
        r@ == header_bytes(head),
        r@.len() == 48,
{
    let mut buff: Vec<u8> = Vec::new();
    buff.push(create_first(head.leap_indicator, head.version, head.mode));
    buff.push(head.stratum);
    buff.push(head.poll as u8);
    buff.push(head.precision as u8);
    push_u32(&mut buff, head.root_delay);
    push_u32(&mut buff, head.root_dispersion);
    push_u32(&mut buff, head.reference_id);
    push_u64(&mut buff, head.reference_timestamp);
    push_u64(&mut buff, head.origin_timestamp);
    push_u64(&mut buff, head.receive_timestamp);
    push_u64(&mut buff, head.transmit_timestamp);
    assert(buff@ =~= header_bytes(head));
    buff
}

/// Reading back the first byte gives the three fields that were packed in.
proof fn lemma_first_byte(h: NtpPacketHeader)
    requires
        header_valid(h),
    ensures
        leap_of(first_byte(h.leap_indicator, h.version, h.mode)) == h.leap_indicator,
        version_of(first_byte(h.leap_indicator, h.version, h.mode)) == h.version,
        mode_of(first_byte(h.leap_indicator, h.version, h.mode)) == h.mode,
{
    let l = leap_bits(h.leap_indicator);
    let v = h.version;
    let m = mode_bits(h.mode);
    assert(((l << 6u8) | ((v << 3u8) & 0x38u8) | (m & 0x07u8)) >> 6u8 == l) by (bit_vector)
        requires l < 4;
    assert((((l << 6u8) | ((v << 3u8) & 0x38u8) | (m & 0x07u8)) & 0x38u8) >> 3u8 == v)
        by (bit_vector)
        requires v < 8;
    assert(((l << 6u8) | ((v << 3u8) & 0x38u8) | (m & 0x07u8)) & 0x07u8 == m) by (bit_vector)
        requires m < 8;
}

/// A valid header survives serialization and parsing unchanged.
pub proof fn lemma_header_round_trip(h: NtpPacketHeader)
    requires
        header_valid(h),
    ensures
        header_bytes(h).len() == 48,
        header_at(header_bytes(h)) == h,
{
    let s = header_bytes(h);
    lemma_first_byte(h);
    let p = h.poll;
    let q = h.precision;
    assert((p as u8) as i8 == p) by (bit_vector);
    assert((q as u8) as i8 == q) by (bit_vector);
    assert(s.subrange(4, 8) =~= be32(h.root_delay));
    assert(s.subrange(8, 12) =~= be32(h.root_dispersion));
    assert(s.subrange(12, 16) =~= be32(h.reference_id));
    assert(s.subrange(16, 24) =~= be64(h.reference_timestamp));
    assert(s.subrange(24, 32) =~= be64(h.origin_timestamp));
    assert(s.subrange(32, 40) =~= be64(h.receive_timestamp));
    assert(s.subrange(40, 48) =~= be64(h.transmit_timestamp));
    lemma_u32_at_subrange(s, 4);
    lemma_u32_at_subrange(s, 8);
    lemma_u32_at_subrange(s, 12);
    lemma_u64_at_subrange(s, 16);
    lemma_u64_at_subrange(s, 24);
    lemma_u64_at_subrange(s, 32);
    lemma_u64_at_subrange(s, 40);
    lemma_u32_round_trip(h.root_delay);
    lemma_u32_round_trip(h.root_dispersion);
    lemma_u32_round_trip(h.reference_id);
    lemma_u64_round_trip(h.reference_timestamp);
    lemma_u64_round_trip(h.origin_timestamp);
    lemma_u64_round_trip(h.receive_timestamp);
    lemma_u64_round_trip(h.transmit_timestamp);
}

/// One extension on the wire: type, total length, contents.
pub open spec fn ext_bytes(e: ExtModel) -> Seq<u8> {
    be16(wire_type_spec(e.0)) + be16((e.1.len() + 4) as u16) + e.1
}

/// A list of extensions on the wire, one after the other.
pub open spec fn exts_bytes(es: Seq<ExtModel>) -> Seq<u8>
    decreases es.len(),
{
    if es.len() == 0 {
        Seq::empty()
    } else {
        ext_bytes(es[0]) + exts_bytes(es.drop_first())
    }
}

/// An extension that can be written: its contents are whole words and its
/// total length fits in 16 bits.
pub open spec fn ext_ok(e: ExtModel) -> bool {
    e.1.len() % 4 == 0 && e.1.len() + 4 <= 0xffff
}

/// An extension whose type reads back as itself: an `Unknown` type must not
/// carry one of the recognised codes.
pub open spec fn ext_type_ok(t: NtpExtensionType) -> bool {
    type_from_wire_spec(wire_type_spec(t)) == t
}

pub open spec fn exts_ok(es: Seq<ExtModel>) -> bool {
    forall|i: int| 0 <= i < es.len() ==> #[trigger] ext_ok(es[i])
}

pub open spec fn exts_types_ok(es: Seq<ExtModel>) -> bool {
    forall|i: int| 0 <= i < es.len() ==> #[trigger] ext_type_ok(es[i].0)
}

/// The extensions that `s` holds: read a type and a length while four bytes
/// remain; a length that is not a multiple of 4, under 4, or beyond the end
/// makes the list malformed; fewer than four trailing bytes are ignored.
pub open spec fn parse_exts_spec(s: Seq<u8>) -> Option<Seq<ExtModel>>
    decreases s.len(),
{
    if s.len() < 4 {
        Some(Seq::empty())
    } else {
        let l = u16_at(s, 2) as int;
        if l % 4 != 0 || l < 4 || l > s.len() {
            None
        } else {
            match parse_exts_spec(s.subrange(l, s.len() as int)) {
                None => None,
                Some(rest) => Some(
                    seq![(type_from_wire_spec(u16_at(s, 0)), s.subrange(4, l))] + rest,
                ),
            }
        }
    }
}

pub open spec fn prepend_exts(a: Seq<ExtModel>, o: Option<Seq<ExtModel>>) -> Option<
    Seq<ExtModel>,
> {
    match o {
        None => None,
        Some(r) => Some(a + r),
    }
}

pub proof fn lemma_exts_bytes_concat(a: Seq<ExtModel>, b: Seq<ExtModel>)
    ensures
        exts_bytes(a + b) == exts_bytes(a) + exts_bytes(b),
    decreases a.len(),
{
    if a.len() == 0 {
        assert(a + b =~= b);
        assert(exts_bytes(a) + exts_bytes(b) =~= exts_bytes(b));
    } else {
        assert((a + b).drop_first() =~= a.drop_first() + b);
        lemma_exts_bytes_concat(a.drop_first(), b);
        assert(exts_bytes(a + b) =~= exts_bytes(a) + exts_bytes(b));
    }
}

/// Extensions that can be written are read back as they were, and their
/// wire form is a whole number of 32-bit words.
#[verifier::rlimit(80)]
pub proof fn lemma_exts_round_trip(es: Seq<ExtModel>)
    requires
        exts_ok(es),
        exts_types_ok(es),
    ensures
        exts_bytes(es).len() % 4 == 0,
        parse_exts_spec(exts_bytes(es)) == Some(es),
    decreases es.len(),
{
    if es.len() == 0 {
        assert(es =~= Seq::<ExtModel>::empty());
    } else {
        let e = es[0];
        let rest = es.drop_first();
        lemma_tail_ok(es);
        lemma_exts_round_trip(rest);
        lemma_ext_head(e, exts_bytes(rest));
        let s = exts_bytes(es);
        assert(s == ext_bytes(e) + exts_bytes(rest));
        let l: int = e.1.len() as int + 4;
        let b: int = exts_bytes(rest).len() as int;
        assert((l + b) % 4 == 0) by (nonlinear_arith)
            requires
                l % 4 == 0,
                b % 4 == 0,
        ;
        assert(seq![(type_from_wire_spec(u16_at(s, 0)), s.subrange(4, l))] + rest =~= es);
    }
}

proof fn lemma_tail_ok(es: Seq<ExtModel>)
    requires
        es.len() > 0,
        exts_ok(es),
        exts_types_ok(es),
    ensures
        ext_ok(es[0]),
        ext_type_ok(es[0].0),
        exts_ok(es.drop_first()),
        exts_types_ok(es.drop_first()),
{
    let rest = es.drop_first();
    assert(ext_ok(es[0]));
    assert(ext_type_ok(es[0].0));
    assert forall|i: int| 0 <= i < rest.len() implies #[trigger] ext_ok(rest[i]) by {
        assert(ext_ok(es[i + 1]));
    }
    assert forall|i: int| 0 <= i < rest.len() implies #[trigger] ext_type_ok(rest[i].0) by {
        assert(ext_type_ok(es[i + 1].0));
    }
}

proof fn lemma_ext_head(e: ExtModel, r: Seq<u8>)
    requires
        ext_ok(e),
    ensures
        ({
            let s = ext_bytes(e) + r;
            let l: int = e.1.len() as int + 4;
            &&& u16_at(s, 0) == wire_type_spec(e.0)
            &&& u16_at(s, 2) as int == l
            &&& s.len() == l + r.len()
            &&& s.subrange(l, s.len() as int) == r
            &&& s.subrange(4, l) == e.1
        }),
{
    let s = ext_bytes(e) + r;
    let l: int = e.1.len() as int + 4;
    lemma_u16_round_trip(wire_type_spec(e.0));
    lemma_u16_round_trip(l as u16);
    assert(u16_at(s, 0) == u16_at(be16(wire_type_spec(e.0)), 0));
    assert(u16_at(s, 2) == u16_at(be16(l as u16), 0));
    assert(s.subrange(l, s.len() as int) =~= r);
    assert(s.subrange(4, l) =~= e.1);
}

/// Reads the extensions that follow the header.
fn parse_extensions(buff: &[u8]) -> (r: Result<Vec<NtpExtension>, NtpError>)
    ensures
        match parse_exts_spec(buff@) {
            None => r == Err::<Vec<NtpExtension>, NtpError>(NtpError::Malformed),
            Some(es) => r.is_ok() && exts_model(r.unwrap()@) == es,
        },
{
    let n = buff.len();
    let mut pos: usize = 0;
    let mut retval: Vec<NtpExtension> = Vec::new();
    proof {
        assert(buff@.subrange(0, n as int) =~= buff@);
        match parse_exts_spec(buff@) {
            None => {},
            Some(t) => {
                assert(exts_model(retval@) + t =~= t);
            },
        }
    }
    while n - pos >= 4
        invariant
            n == buff@.len(),
            pos <= n,
            parse_exts_spec(buff@) == prepend_exts(
                exts_model(retval@),
                parse_exts_spec(buff@.subrange(pos as int, n as int)),
            ),
        decreases n - pos,
    {
        let ghost rest = buff@.subrange(pos as int, n as int);
        let ext_type = read_u16(buff, pos);
        let ext_len = read_u16(buff, pos + 2);
        assert(u16_at(rest, 0) == ext_type);
        assert(u16_at(rest, 2) == ext_len);
        if ext_len % 4 != 0 || ext_len < 4 || ext_len as usize > n - pos {
            return Err(NtpError::Malformed);
        }
        let l = ext_len as usize;
        let contents = copy_range(buff, pos + 4, pos + l);
        let ext = NtpExtension { ext_type: type_from_wire(ext_type), contents };
        proof {
            assert(rest.subrange(4, l as int) =~= contents@);
            assert(rest.subrange(l as int, rest.len() as int) =~= buff@.subrange(
                (pos + l) as int,
                n as int,
            ));
        }
        let ghost before = retval@;
        retval.push(ext);
        proof {
            assert(exts_model(retval@) =~= exts_model(before) + seq![ext@]);
            let o = parse_exts_spec(buff@.subrange((pos + l) as int, n as int));
            match o {
                None => {},
                Some(t) => {
                    assert(exts_model(before) + (seq![ext@] + t) =~= exts_model(retval@) + t);
                },
            }
        }
        pos = pos + l;
    }
    proof {
        assert(exts_model(retval@) + Seq::<ExtModel>::empty() =~= exts_model(retval@));
    }
    Ok(retval)
}

/// Parses an NTP packet: the header and the extensions after it.
pub fn parse_ntp_packet(buff: &[u8]) -> (r: Result<NtpPacket, NtpError>)
    ensures
        buff@.len() < 48 ==> r == Err::<NtpPacket, NtpError>(NtpError::Malformed),
        buff@.len() >= 48 ==> match parse_exts_spec(buff@.subrange(48, buff@.len() as int)) {
            None => r == Err::<NtpPacket, NtpError>(NtpError::Malformed),
            Some(es) => r.is_ok() && r.unwrap().header == header_at(buff@) && exts_model(
                r.unwrap().exts@,
            ) == es,
        },
{
    let header = parse_packet_header(buff)?;
    let tail = copy_range(buff, 48, buff.len());
    let exts = parse_extensions(tail.as_slice())?;
    Ok(NtpPacket { header, exts })
}

/// The wire form of a list of extensions; an extension whose contents are not
/// whole words, or too long for its length field, is refused.
fn serialize_extensions(exts: &Vec<NtpExtension>) -> (r: Result<Vec<u8>, NtpError>)
    ensures
        exts_ok(exts_model(exts@)) ==> r == Ok::<Vec<u8>, NtpError>(
            r.unwrap(),
        ) && r.unwrap()@ == exts_bytes(exts_model(exts@)),
        !exts_ok(exts_model(exts@)) ==> r == Err::<Vec<u8>, NtpError>(NtpError::Malformed),
{
    let mut buff: Vec<u8> = Vec::new();
    let mut i: usize = 0;
    while i < exts.len()
        invariant
            i <= exts@.len(),
            exts_ok(exts_model(exts@.subrange(0, i as int))),
            buff@ == exts_bytes(exts_model(exts@.subrange(0, i as int))),
        decreases exts@.len() - i,
    {
        let ext = &exts[i];
        let len = ext.contents.len();
        if len % 4 != 0 || len > 0xffff - 4 {
            proof {
                assert(!ext_ok(exts_model(exts@)[i as int]));
            }
            return Err(NtpError::Malformed);
        }
        let ghost done = exts_model(exts@.subrange(0, i as int));
        push_u16(&mut buff, wire_type(ext.ext_type));
        push_u16(&mut buff, (len + 4) as u16);
        push_all(&mut buff, ext.contents.as_slice());
        proof {
            let one = seq![ext@];
            assert(exts_model(exts@.subrange(0, i + 1)) =~= done + one);
            lemma_exts_bytes_concat(done, one);
            assert(exts_bytes(one) =~= ext_bytes(ext@)) by {
                assert(one.drop_first() =~= Seq::<ExtModel>::empty());
                assert(exts_bytes(Seq::<ExtModel>::empty()) == Seq::<u8>::empty());
                assert(ext_bytes(ext@) + Seq::<u8>::empty() =~= ext_bytes(ext@));
            }
            assert(buff@ =~= exts_bytes(done) + ext_bytes(ext@));
            assert forall|j: int| 0 <= j < i + 1 implies #[trigger] ext_ok(
                exts_model(exts@.subrange(0, i + 1))[j],
            ) by {
                if j < i {
                    assert(ext_ok(done[j]));
                }
            }
        }
        i = i + 1;
    }
    assert(exts@.subrange(0, i as int) =~= exts@);
    Ok(buff)
}

/// The wire form of an NTP packet.
pub fn serialize_ntp_packet(pack: &NtpPacket) -> (r: Result<Vec<u8>, NtpError>)
    ensures
        exts_ok(exts_model(pack.exts@)) ==> r.is_ok() && r.unwrap()@ == header_bytes(pack.header)
            + exts_bytes(exts_model(pack.exts@)),
        !exts_ok(exts_model(pack.exts@)) ==> r == Err::<Vec<u8>, NtpError>(NtpError::Malformed),
{
    let mut buff = serialize_header(pack.header);
    let exts = serialize_extensions(&pack.exts)?;
    push_all(&mut buff, exts.as_slice());
    Ok(buff)
}

/// A copy of an extension.
pub fn copy_extension(e: &NtpExtension) -> (r: NtpExtension)
    ensures
        r@ == e@,
{
    NtpExtension { ext_type: e.ext_type, contents: e.contents.clone() }
}

/// The first extension of the given kind.
pub open spec fn first_of(es: Seq<ExtModel>, kind: NtpExtensionType) -> Option<ExtModel>
    decreases es.len(),
{
    if es.len() == 0 {
        None
    } else if es[0].0 == kind {
        Some(es[0])
    } else {
        first_of(es.drop_first(), kind)
    }
}

pub open spec fn has_ext_spec(exts: Seq<NtpExtension>, kind: NtpExtensionType) -> bool {
    first_of(exts_model(exts), kind).is_some()
}

proof fn lemma_first_of_step(es: Seq<ExtModel>, i: int, kind: NtpExtensionType)
    requires
        0 <= i < es.len(),
        es[i].0 != kind,
    ensures
        first_of(es.subrange(i, es.len() as int), kind) == first_of(
            es.subrange(i + 1, es.len() as int),
            kind,
        ),
{
    assert(es.subrange(i, es.len() as int).drop_first() =~= es.subrange(i + 1, es.len() as int));
}

/// Whether the packet has an extension of the given kind.
pub fn has_extension(pack: &NtpPacket, kind: NtpExtensionType) -> (r: bool)
    ensures
        r == has_ext_spec(pack.exts@, kind),
{
    extract_extension(pack, kind).is_some()
}

pub open spec fn is_nts_spec(exts: Seq<NtpExtension>) -> bool {
    has_ext_spec(exts, NtpExtensionType::NTSCookie) && has_ext_spec(
        exts,
        NtpExtensionType::NTSAuthenticator,
    ) && has_ext_spec(exts, NtpExtensionType::UniqueIdentifier)
}

/// Whether the packet is plausibly an NTS packet: it carries a cookie, an
/// authenticator and a unique identifier.
pub fn is_nts_packet(pack: &NtpPacket) -> (r: bool)
    ensures
        r == is_nts_spec(pack.exts@),
{
    has_extension(pack, NtpExtensionType::NTSCookie) && has_extension(
        pack,
        NtpExtensionType::NTSAuthenticator,
    ) && has_extension(pack, NtpExtensionType::UniqueIdentifier)
}

/// The first extension of the given kind, if there is one.
pub fn extract_extension(pack: &NtpPacket, kind: NtpExtensionType) -> (r: Option<NtpExtension>)
    ensures
        match first_of(exts_model(pack.exts@), kind) {
            None => r.is_none(),
            Some(e) => r.is_some() && r.unwrap()@ == e,
        },
{
    let ghost m = exts_model(pack.exts@);
    let mut i: usize = 0;
    assert(m.subrange(0, m.len() as int) =~= m);
    while i < pack.exts.len()
        invariant
            i <= pack.exts@.len(),
            m == exts_model(pack.exts@),
            first_of(m, kind) == first_of(m.subrange(i as int, m.len() as int), kind),
        decreases pack.exts@.len() - i,
    {
        if pack.exts[i].ext_type == kind {
            return Some(copy_extension(&pack.exts[i]));
        }
        proof {
            lemma_first_of_step(m, i as int, kind);
        }
        i = i + 1;
    }
    None
}

/// Parsed extensions can be written back.
pub proof fn lemma_parsed_exts_ok(s: Seq<u8>)
    requires
        parse_exts_spec(s).is_some(),
    ensures
        exts_ok(parse_exts_spec(s).unwrap()),
    decreases s.len(),
{
    if s.len() >= 4 {
        let l = u16_at(s, 2) as int;
        let rest = s.subrange(l, s.len() as int);
        lemma_parsed_exts_ok(rest);
        let es = parse_exts_spec(s).unwrap();
        let r = parse_exts_spec(rest).unwrap();
        assert(es == seq![(type_from_wire_spec(u16_at(s, 0)), s.subrange(4, l))] + r);
        assert(l <= 0xffff);
        assert forall|i: int| 0 <= i < es.len() implies #[trigger] ext_ok(es[i]) by {
            if i > 0 {
                assert(es[i] == r[i - 1]);
            }
        }
    }
}

/// Zero bytes that bring `n` up to a multiple of 4.
pub open spec fn pad4(n: int) -> int {
    (4 - n % 4) % 4
}

/// The contents of an authenticator: nonce length, ciphertext length, the
/// nonce, the ciphertext, and zero padding to a whole word.
pub open spec fn auth_contents(nonce: Seq<u8>, ct: Seq<u8>) -> Seq<u8> {
    be16(nonce.len() as u16) + be16(ct.len() as u16) + nonce + ct + Seq::new(
        pad4(ct.len() as int) as nat,
        |j: int| 0u8,
    )
}

/// The bytes an NTS packet authenticates: its header and its plain extensions.
pub open spec fn nts_ad(h: NtpPacketHeader, auth: Seq<ExtModel>) -> Seq<u8> {
    header_bytes(h) + exts_bytes(auth)
}

/// An NTS packet on the wire, sealed under `key` with `nonce`.
pub open spec fn nts_bytes(
    h: NtpPacketHeader,
    auth: Seq<ExtModel>,
    enc: Seq<ExtModel>,
    key: Seq<u8>,
    nonce: Seq<u8>,
) -> Seq<u8> {
    let ad = nts_ad(h, auth);
    let ct = siv_seal(key, nonce, ad, exts_bytes(enc));
    ad + ext_bytes((NtpExtensionType::NTSAuthenticator, auth_contents(nonce, ct)))
}

/// Whether an NTS packet can be written: every extension can, and the
/// authenticator (a 32-byte nonce and a ciphertext 16 bytes longer than the
/// encrypted extensions, padded) fits in one extension.
pub open spec fn nts_writable(auth: Seq<ExtModel>, enc: Seq<ExtModel>) -> bool {
    let ct_len = exts_bytes(enc).len() + 16;
    exts_ok(auth) && exts_ok(enc) && 40 + ct_len + pad4(ct_len as int) <= 0xffff
}

/// The packet as values: header, authenticated and encrypted extensions.
pub type NtsModel = (NtpPacketHeader, Seq<ExtModel>, Seq<ExtModel>);

impl NtsPacket {
    pub open spec fn model(&self) -> NtsModel {
        (self.header, exts_model(self.auth_exts@), exts_model(self.auth_enc_exts@))
    }
}

/// Where the authenticator stands in `s`: the extensions before it, its
/// offset, and its contents; nothing if the extensions are malformed before
/// one is reached, or there is none. What follows the authenticator is ignored.
pub open spec fn scan_auth(s: Seq<u8>) -> Option<(Seq<ExtModel>, int, Seq<u8>)>
    decreases s.len(),
{
    if s.len() < 4 {
        None
    } else {
        let l = u16_at(s, 2) as int;
        if l % 4 != 0 || l < 4 || l > s.len() {
            None
        } else if type_from_wire_spec(u16_at(s, 0)) == NtpExtensionType::NTSAuthenticator {
            Some((Seq::empty(), 0, s.subrange(4, l)))
        } else {
            match scan_auth(s.subrange(l, s.len() as int)) {
                None => None,
                Some((b, off, c)) => Some(
                    (seq![(type_from_wire_spec(u16_at(s, 0)), s.subrange(4, l))] + b, off + l, c),
                ),
            }
        }
    }
}

pub open spec fn prepend_scan(
    a: Seq<ExtModel>,
    k: int,
    o: Option<(Seq<ExtModel>, int, Seq<u8>)>,
) -> Option<(Seq<ExtModel>, int, Seq<u8>)> {
    match o {
        None => None,
        Some((b, off, c)) => Some((a + b, off + k, c)),
    }
}

/// What the authenticator contents `c` decrypt to, with `ad` as associated data.
pub open spec fn auth_plaintext(ad: Seq<u8>, c: Seq<u8>, key: Seq<u8>) -> Result<
    Seq<u8>,
    NtpError,
> {
    if c.len() < 4 {
        Err(NtpError::Malformed)
    } else {
        let nl = u16_at(c, 0) as int;
        let cl = u16_at(c, 2) as int;
        let np = nl + pad4(nl);
        let cp = cl + pad4(cl);
        if 4 + np + cp > c.len() {
            Err(NtpError::Malformed)
        } else {
            match siv_open(key, c.subrange(4, 4 + nl), ad, c.subrange(4 + np, 4 + np + cl)) {
                None => Err(NtpError::AuthFailed),
                Some(pt) => Ok(pt),
            }
        }
    }
}

/// What `buf` parses to as an NTS packet under `key`.
pub open spec fn parse_nts_spec(buf: Seq<u8>, key: Seq<u8>) -> Result<NtsModel, NtpError> {
    if buf.len() < 48 {
        Err(NtpError::Malformed)
    } else {
        match scan_auth(buf.subrange(48, buf.len() as int)) {
            None => Err(NtpError::Malformed),
            Some((b, off, c)) => match auth_plaintext(buf.subrange(0, 48 + off), c, key) {
                Err(e) => Err(e),
                Ok(pt) => match parse_exts_spec(pt) {
                    None => Err(NtpError::Malformed),
                    Some(enc) => Ok((header_at(buf), b, enc)),
                },
            },
        }
    }
}

/// Opens the authenticator contents `auth_ext_contents` with `auth_dat` as
/// associated data.
fn parse_decrypt_auth_ext(auth_dat: &[u8], auth_ext_contents: &[u8], key: &[u8]) -> (r: Result<
    Vec<u8>,
    NtpError,
>)
    requires
        key@.len() == 32,
    ensures
        match auth_plaintext(auth_dat@, auth_ext_contents@, key@) {
            Err(e) => r == Err::<Vec<u8>, NtpError>(e),
            Ok(pt) => r.is_ok() && r.unwrap()@ == pt,
        },
{
    let n = auth_ext_contents.len();
    if n < 4 {
        return Err(NtpError::Malformed);
    }
    let nonce_len = read_u16(auth_ext_contents, 0) as usize;
    let cipher_len = read_u16(auth_ext_contents, 2) as usize;
    let nonce_pad_len = nonce_len + ((4 - (nonce_len % 4)) % 4);
    let cipher_pad_len = cipher_len + ((4 - (cipher_len % 4)) % 4);
    if nonce_pad_len + cipher_pad_len + 4 > n {
        return Err(NtpError::Malformed);
    }
    let nonce = copy_range(auth_ext_contents, 4, 4 + nonce_len);
    let ciphertext = copy_range(
        auth_ext_contents,
        4 + nonce_pad_len,
        4 + nonce_pad_len + cipher_len,
    );
    match open(key, nonce.as_slice(), auth_dat, ciphertext.as_slice()) {
        None => Err(NtpError::AuthFailed),
        Some(pt) => Ok(pt),
    }
}

/// Parses an NTS packet, checking its authenticator under `key`: the
/// extensions before the authenticator are the authenticated ones, those it
/// decrypts to the encrypted ones.
pub fn parse_nts_packet(buff: &[u8], key: &[u8]) -> (r: Result<NtsPacket, NtpError>)
    requires
        key@.len() == 32,
    ensures
        match parse_nts_spec(buff@, key@) {
            Err(e) => r == Err::<NtsPacket, NtpError>(e),
            Ok(m) => r.is_ok() && r.unwrap().model() == m,
        },
{
    let header = parse_packet_header(buff)?;
    let n = buff.len();
    let mut pos: usize = 48;
    let mut auth_exts: Vec<NtpExtension> = Vec::new();
    proof {
        let s = buff@.subrange(48, n as int);
        match scan_auth(s) {
            None => {},
            Some((b, off, c)) => {
                assert(exts_model(auth_exts@) + b =~= b);
            },
        }
    }
    while n - pos >= 4
        invariant
            n == buff@.len(),
            48 <= pos <= n,
            key@.len() == 32,
            header == header_at(buff@),
            scan_auth(buff@.subrange(48, n as int)) == prepend_scan(
                exts_model(auth_exts@),
                pos - 48,
                scan_auth(buff@.subrange(pos as int, n as int)),
            ),
        decreases n - pos,
    {
        let ghost rest = buff@.subrange(pos as int, n as int);
        let ext_type = read_u16(buff, pos);
        let ext_len = read_u16(buff, pos + 2);
        assert(u16_at(rest, 0) == ext_type);
        assert(u16_at(rest, 2) == ext_len);
        if ext_len % 4 != 0 || ext_len < 4 || ext_len as usize > n - pos {
            return Err(NtpError::Malformed);
        }
        let l = ext_len as usize;
        let contents = copy_range(buff, pos + 4, pos + l);
        proof {
            assert(rest.subrange(4, l as int) =~= contents@);
        }
        let t = type_from_wire(ext_type);
        if t == NtpExtensionType::NTSAuthenticator {
            let ad = copy_range(buff, 0, pos);
            let pt = parse_decrypt_auth_ext(ad.as_slice(), contents.as_slice(), key)?;
            let enc_exts = parse_extensions(pt.as_slice())?;
            proof {
                assert(exts_model(auth_exts@) + Seq::<ExtModel>::empty() =~= exts_model(
                    auth_exts@,
                ));
            }
            return Ok(NtsPacket { header, auth_exts, auth_enc_exts: enc_exts });
        }
        proof {
            assert(rest.subrange(l as int, rest.len() as int) =~= buff@.subrange(
                (pos + l) as int,
                n as int,
            ));
        }
        let ext = NtpExtension { ext_type: t, contents };
        let ghost before = auth_exts@;
        auth_exts.push(ext);
        proof {
            assert(exts_model(auth_exts@) =~= exts_model(before) + seq![ext@]);
            let o = scan_auth(buff@.subrange((pos + l) as int, n as int));
            match o {
                None => {},
                Some((b, off, c)) => {
                    assert(exts_model(before) + (seq![ext@] + b) =~= exts_model(auth_exts@) + b);
                },
            }
        }
        pos = pos + l;
    }
    Err(NtpError::Malformed)
}

/// Writes an NTS packet with the given nonce: the header and authenticated
/// extensions, then an authenticator sealing the encrypted extensions under
/// `key` with those bytes as associated data. The result parses back under the
/// same key to the packet it was made from.
pub fn serialize_nts_packet_with_nonce(packet: &NtsPacket, key: &[u8], nonce: &[u8]) -> (r: Result<
    Vec<u8>,
    NtpError,
>)
    requires
        key@.len() == 32,
        nonce@.len() == NONCE_LEN,
    ensures
        nts_writable(packet.model().1, packet.model().2) ==> r.is_ok() && r.unwrap()@ == nts_bytes(
            packet.header,
            packet.model().1,
            packet.model().2,
            key@,
            nonce@,
        ),
        !nts_writable(packet.model().1, packet.model().2) ==> r == Err::<Vec<u8>, NtpError>(
            NtpError::Malformed,
        ),
        r.is_ok() && header_valid(packet.header) && exts_types_ok(packet.model().1)
            && exts_types_ok(packet.model().2) && no_authenticator(packet.model().1)
            ==> parse_nts_spec(r.unwrap()@, key@) == Ok::<NtsModel, NtpError>(packet.model()),
{
    let mut buff = serialize_header(packet.header);
    let auth = serialize_extensions(&packet.auth_exts)?;
    push_all(&mut buff, auth.as_slice());
    let plaintext = serialize_extensions(&packet.auth_enc_exts)?;
    if plaintext.len() > 0xffff - 16 - 43 {
        return Err(NtpError::Malformed);
    }
    let ciphertext = seal(key, nonce, buff.as_slice(), plaintext.as_slice());
    let ct_len = ciphertext.len();
    let padlen = (4 - (ct_len % 4)) % 4;
    let mut authent: Vec<u8> = Vec::new();
    push_u16(&mut authent, NONCE_LEN as u16);
    push_u16(&mut authent, ct_len as u16);
    push_all(&mut authent, nonce);
    push_all(&mut authent, ciphertext.as_slice());
    push_zeros(&mut authent, padlen);
    let ghost ad = buff@;
    push_u16(&mut buff, EXT_TYPE_NTS_AUTHENTICATOR);
    push_u16(&mut buff, (authent.len() + 4) as u16);
    push_all(&mut buff, authent.as_slice());
    proof {
        let m = packet.model();
        assert(authent@ =~= auth_contents(nonce@, ciphertext@));
        assert(buff@ =~= nts_bytes(packet.header, m.1, m.2, key@, nonce@));
        if header_valid(packet.header) && exts_types_ok(m.1) && exts_types_ok(m.2)
            && no_authenticator(m.1) {
            lemma_nts_round_trip(packet.header, m.1, m.2, key@, nonce@);
        }
    }
    Ok(buff)
}

/// Writes an NTS packet sealed under `key` with a fresh random nonce.
pub fn serialize_nts_packet(packet: &NtsPacket, key: &[u8]) -> (r: Result<Vec<u8>, NtpError>)
    requires
        key@.len() == 32,
    ensures
        nts_writable(packet.model().1, packet.model().2) ==> r.is_ok() && exists|nonce: Seq<u8>|
            nonce.len() == NONCE_LEN && r.unwrap()@ == nts_bytes(
                packet.header,
                packet.model().1,
                packet.model().2,
                key@,
                nonce,
            ),
        !nts_writable(packet.model().1, packet.model().2) ==> r == Err::<Vec<u8>, NtpError>(
            NtpError::Malformed,
        ),
        r.is_ok() && header_valid(packet.header) && exts_types_ok(packet.model().1)
            && exts_types_ok(packet.model().2) && no_authenticator(packet.model().1)
            ==> parse_nts_spec(r.unwrap()@, key@) == Ok::<NtsModel, NtpError>(packet.model()),
{
    let nonce = random_bytes(NONCE_LEN);
    serialize_nts_packet_with_nonce(packet, key, nonce.as_slice())
}

/// No extension in the list is an authenticator.
pub open spec fn no_authenticator(es: Seq<ExtModel>) -> bool {
    forall|i: int| 0 <= i < es.len() ==> (#[trigger] es[i]).0 != NtpExtensionType::NTSAuthenticator
}

#[verifier::rlimit(80)]
proof fn lemma_scan_serialized(es: Seq<ExtModel>, c: Seq<u8>)
    requires
        exts_ok(es),
        exts_types_ok(es),
        no_authenticator(es),
        ext_ok((NtpExtensionType::NTSAuthenticator, c)),
    ensures
        scan_auth(exts_bytes(es) + ext_bytes((NtpExtensionType::NTSAuthenticator, c))) == Some(
            (es, exts_bytes(es).len() as int, c),
        ),
    decreases es.len(),
{
    let a = ext_bytes((NtpExtensionType::NTSAuthenticator, c));
    if es.len() == 0 {
        lemma_ext_head((NtpExtensionType::NTSAuthenticator, c), Seq::empty());
        assert(exts_bytes(es) + a =~= a + Seq::<u8>::empty());
        assert(es =~= Seq::<ExtModel>::empty());
    } else {
        let e = es[0];
        let rest = es.drop_first();
        lemma_tail_ok(es);
        assert(e.0 != NtpExtensionType::NTSAuthenticator);
        assert forall|i: int| 0 <= i < rest.len() implies (#[trigger] rest[i]).0
            != NtpExtensionType::NTSAuthenticator by {
            assert(es[i + 1].0 != NtpExtensionType::NTSAuthenticator);
        }
        lemma_scan_serialized(rest, c);
        let s = exts_bytes(es) + a;
        assert(s =~= ext_bytes(e) + (exts_bytes(rest) + a));
        lemma_ext_head(e, exts_bytes(rest) + a);
        let l: int = e.1.len() as int + 4;
        assert(seq![(type_from_wire_spec(u16_at(s, 0)), s.subrange(4, l))] + rest =~= es);
    }
}

proof fn lemma_header_prefix(h: NtpPacketHeader, rest: Seq<u8>)
    requires
        header_valid(h),
    ensures
        header_at(header_bytes(h) + rest) == h,
{
    lemma_header_round_trip(h);
    let s = header_bytes(h) + rest;
    assert forall|k: int| 0 <= k < 48 implies #[trigger] s[k] == header_bytes(h)[k] by {}
}

proof fn lemma_auth_contents(ad: Seq<u8>, nonce: Seq<u8>, key: Seq<u8>, pt: Seq<u8>)
    requires
        nonce.len() == NONCE_LEN,
        pt.len() + 16 <= 0xffff,
        siv_open(key, nonce, ad, siv_seal(key, nonce, ad, pt)) == Some(pt),
        siv_seal(key, nonce, ad, pt).len() == pt.len() + 16,
    ensures
        auth_plaintext(ad, auth_contents(nonce, siv_seal(key, nonce, ad, pt)), key) == Ok::<
            Seq<u8>,
            NtpError,
        >(pt),
{
    let ct = siv_seal(key, nonce, ad, pt);
    let c = auth_contents(nonce, ct);
    lemma_u16_round_trip(32u16);
    lemma_u16_round_trip(ct.len() as u16);
    assert(u16_at(c, 0) == u16_at(be16(32u16), 0));
    assert(u16_at(c, 2) == u16_at(be16(ct.len() as u16), 0));
    let np: int = 32;
    let cl = ct.len() as int;
    assert(c.subrange(4, 4 + np) =~= nonce);
    assert(c.subrange(4 + np, 4 + np + cl) =~= ct);
}

/// A writable NTS packet whose header and extensions survive the wire, and
/// whose authenticated extensions hold no authenticator, parses back under the
/// key it was sealed with to the packet it was made from, provided the AEAD
/// opens what it sealed.
proof fn lemma_nts_round_trip(
    h: NtpPacketHeader,
    auth: Seq<ExtModel>,
    enc: Seq<ExtModel>,
    key: Seq<u8>,
    nonce: Seq<u8>,
)
    requires
        header_valid(h),
        nts_writable(auth, enc),
        exts_types_ok(auth),
        exts_types_ok(enc),
        no_authenticator(auth),
        nonce.len() == NONCE_LEN,
        siv_open(key, nonce, nts_ad(h, auth), siv_seal(key, nonce, nts_ad(h, auth), exts_bytes(enc)))
            == Some(exts_bytes(enc)),
        siv_seal(key, nonce, nts_ad(h, auth), exts_bytes(enc)).len() == exts_bytes(enc).len() + 16,
    ensures
        parse_nts_spec(nts_bytes(h, auth, enc, key, nonce), key) == Ok::<NtsModel, NtpError>(
            (h, auth, enc),
        ),
{
    let ad = nts_ad(h, auth);
    let pt = exts_bytes(enc);
    let ct = siv_seal(key, nonce, ad, pt);
    let c = auth_contents(nonce, ct);
    let buf = nts_bytes(h, auth, enc, key, nonce);
    lemma_header_round_trip(h);
    assert(ext_ok((NtpExtensionType::NTSAuthenticator, c)));
    lemma_scan_serialized(auth, c);
    let a = ext_bytes((NtpExtensionType::NTSAuthenticator, c));
    assert(buf =~= header_bytes(h) + (exts_bytes(auth) + a));
    assert(buf.subrange(48, buf.len() as int) =~= exts_bytes(auth) + a);
    assert(buf.subrange(0, 48 + exts_bytes(auth).len() as int) =~= ad);
    lemma_auth_contents(ad, nonce, key, pt);
    lemma_exts_round_trip(enc);
    lemma_header_prefix(h, exts_bytes(auth) + a);
}

} // verus!
