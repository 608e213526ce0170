use cfnts::cookie::{eat_cookie, make_cookie, NTSKeys, COOKIE_SIZE};
use cfnts::protocol::{
    parse_ntp_packet, parse_nts_packet, serialize_header, serialize_ntp_packet,
    serialize_nts_packet, LeapState, NtpError, NtpExtension, NtpExtensionType, NtpPacket,
    NtpPacketHeader, NtsPacket, PacketMode,
};
use cfnts::rotation::RotatingKeys;
use cfnts::server::{kiss_of_death, ntp_timestamp, response, ServerState, KOD_REFID};

fn state() -> ServerState {
    ServerState {
        leap: LeapState::NoLeap,
        stratum: 1,
        version: 4,
        poll: 7,
        precision: -18,
        root_delay: 10,
        root_dispersion: 10,
        refid: 0,
        refstamp: 0,
    }
}

fn client_header(mode: PacketMode) -> NtpPacketHeader {
    NtpPacketHeader {
        leap_indicator: LeapState::NoLeap,
        version: 4,
        mode,
        stratum: 0,
        poll: 0,
        precision: 0,
        root_delay: 0,
        root_dispersion: 0,
        reference_id: 0,
        reference_timestamp: 0,
        origin_timestamp: 0,
        receive_timestamp: 0,
        transmit_timestamp: 0x1234_5678_9abc_def0,
    }
}

fn ext(t: NtpExtensionType, contents: Vec<u8>) -> NtpExtension {
    NtpExtension { ext_type: t, contents }
}

fn zero_keys() -> NTSKeys {
    NTSKeys { c2s: vec![0; 32], s2c: vec![0; 32] }
}

fn rotation() -> RotatingKeys {
    RotatingKeys::new(vec![0u8; 32], 3600, 2, 24, 0).unwrap()
}

fn nts_request(rk: &RotatingKeys, placeholders: Vec<usize>) -> Vec<u8> {
    let (id, key) = rk.latest();
    assert_eq!(id, vec![0u8; 8]);
    let cookie = make_cookie(&zero_keys(), &key, &id);
    let mut auth_exts = vec![
        ext(NtpExtensionType::UniqueIdentifier, vec![0x11; 32]),
        ext(NtpExtensionType::NTSCookie, cookie),
    ];
    for len in placeholders {
        auth_exts.push(ext(NtpExtensionType::NTSCookiePlaceholder, vec![0xfe; len]));
    }
    let p = NtsPacket { header: client_header(PacketMode::Client), auth_exts, auth_enc_exts: vec![] };
    serialize_nts_packet(&p, &zero_keys().c2s).unwrap()
}

fn check_kod(reply: &[u8], transmit: u64) -> NtpPacket {
    let kod = parse_ntp_packet(reply).unwrap();
    assert_eq!(kod.header.stratum, 0);
    assert_eq!(kod.header.reference_id, 0x4e54534e);
    assert_eq!(kod.header.origin_timestamp, transmit);
    assert_eq!(kod.header.mode, PacketMode::Server);
    assert_eq!(kod.header.leap_indicator, LeapState::Unknown);
    assert_eq!(kod.header.receive_timestamp, 0);
    assert_eq!(kod.header.transmit_timestamp, 0);
    assert!(kod.exts.iter().all(|e| e.ext_type != NtpExtensionType::NTSAuthenticator));
    kod
}

#[test]
fn plain_ntp_exchange() {
    let query = serialize_header(client_header(PacketMode::Client));
    let ts = 0x1111_2222_3333_4444;
    let reply = response(&query, ts, &rotation(), state()).unwrap();
    assert_eq!(reply.len(), 48);
    let p = parse_ntp_packet(&reply).unwrap();
    assert_eq!(p.header.mode, PacketMode::Server);
    assert_eq!(p.header.origin_timestamp, 0x1234_5678_9abc_def0);
    assert_eq!(p.header.receive_timestamp, ts);
    assert_eq!(p.header.transmit_timestamp, ts);
    assert_eq!(p.header.stratum, 1);
    assert_eq!(p.header.precision, -18);
    assert!(p.exts.is_empty());
}

#[test]
fn nts_exchange_round_trip() {
    let rk = rotation();
    let query = nts_request(&rk, vec![COOKIE_SIZE]);
    let reply = response(&query, 42, &rk, state()).unwrap();
    let p = parse_nts_packet(&reply, &zero_keys().s2c).unwrap();
    assert_eq!(p.header.mode, PacketMode::Server);
    assert_eq!(p.header.origin_timestamp, 0x1234_5678_9abc_def0);
    assert_eq!(p.auth_exts.len(), 1);
    assert_eq!(p.auth_exts[0].ext_type, NtpExtensionType::UniqueIdentifier);
    assert_eq!(p.auth_exts[0].contents, vec![0x11; 32]);
    assert_eq!(p.auth_enc_exts.len(), 2);
    let (_, key) = rk.latest();
    for e in &p.auth_enc_exts {
        assert_eq!(e.ext_type, NtpExtensionType::NTSCookie);
        assert_eq!(e.contents.len(), COOKIE_SIZE);
        let k = eat_cookie(&e.contents, &key).unwrap();
        assert_eq!(k.c2s, vec![0; 32]);
        assert_eq!(k.s2c, vec![0; 32]);
    }
}

#[test]
fn cookie_count_follows_valid_placeholders() {
    let rk = rotation();
    let query = nts_request(&rk, vec![COOKIE_SIZE, COOKIE_SIZE + 4, 4, COOKIE_SIZE - 4]);
    let reply = response(&query, 42, &rk, state()).unwrap();
    let p = parse_nts_packet(&reply, &zero_keys().s2c).unwrap();
    assert_eq!(p.auth_enc_exts.len(), 3);
}

#[test]
fn authenticator_tamper_gets_kiss_of_death() {
    let rk = rotation();
    let mut query = nts_request(&rk, vec![COOKIE_SIZE]);
    query[0] ^= 0x20;
    let reply = response(&query, 42, &rk, state()).unwrap();
    let kod = check_kod(&reply, 0x1234_5678_9abc_def0);
    assert_eq!(kod.exts.len(), 1);
    assert_eq!(kod.exts[0].contents, vec![0x11; 32]);
    assert!(parse_nts_packet(&reply, &zero_keys().s2c).is_err());
}

#[test]
fn short_placeholder_gets_no_cookie() {
    let rk = rotation();
    let query = nts_request(&rk, vec![COOKIE_SIZE - 1 - 3]);
    let reply = response(&query, 42, &rk, state()).unwrap();
    let p = parse_nts_packet(&reply, &zero_keys().s2c).unwrap();
    assert_eq!(p.auth_enc_exts.len(), 1);
}

#[test]
fn wrong_epoch_cookie_gets_kiss_of_death() {
    let rk = rotation();
    let far = 1000u64.to_be_bytes();
    assert!(rk.lookup(&far).is_none());
    let cookie = make_cookie(&zero_keys(), &[0u8; 32], &far);
    let p = NtsPacket {
        header: client_header(PacketMode::Client),
        auth_exts: vec![
            ext(NtpExtensionType::UniqueIdentifier, vec![0x22; 32]),
            ext(NtpExtensionType::NTSCookie, cookie),
        ],
        auth_enc_exts: vec![],
    };
    let query = serialize_nts_packet(&p, &zero_keys().c2s).unwrap();
    let reply = response(&query, 42, &rk, state()).unwrap();
    let kod = check_kod(&reply, 0x1234_5678_9abc_def0);
    assert_eq!(kod.exts[0].contents, vec![0x22; 32]);
}

#[test]
fn non_client_mode_gets_kiss_of_death() {
    for mode in [PacketMode::Server, PacketMode::SymmetricActive, PacketMode::Broadcast] {
        let query = serialize_header(client_header(mode));
        let reply = response(&query, 42, &rotation(), state()).unwrap();
        let kod = check_kod(&reply, 0x1234_5678_9abc_def0);
        assert!(kod.exts.is_empty());
    }
}

#[test]
fn malformed_datagram_is_dropped() {
    assert_eq!(response(&[0u8; 20], 42, &rotation(), state()).unwrap_err(), NtpError::Malformed);
    let mut q = serialize_header(client_header(PacketMode::Client));
    q.extend_from_slice(&[0, 0, 0, 5]);
    assert_eq!(response(&q, 42, &rotation(), state()).unwrap_err(), NtpError::Malformed);
}

#[test]
fn kiss_of_death_shape() {
    let q = NtpPacket {
        header: client_header(PacketMode::Client),
        exts: vec![
            ext(NtpExtensionType::NTSCookie, vec![1; 4]),
            ext(NtpExtensionType::UniqueIdentifier, vec![2; 4]),
            ext(NtpExtensionType::UniqueIdentifier, vec![3; 4]),
        ],
    };
    let k = kiss_of_death(&q);
    assert_eq!(k.header.stratum, 0);
    assert_eq!(k.header.reference_id, KOD_REFID);
    assert_eq!(k.header.version, 4);
    assert_eq!(k.header.origin_timestamp, 0x1234_5678_9abc_def0);
    assert_eq!(k.exts.len(), 1);
    assert_eq!(k.exts[0].contents, vec![2; 4]);
    let bytes = serialize_ntp_packet(&k).unwrap();
    assert_eq!(&bytes[12..16], b"NTSN");
}

#[test]
fn ntp_timestamp_values() {
    assert_eq!(ntp_timestamp(0, 0), 2_208_988_800u64 << 32);
    assert_eq!(ntp_timestamp(0, 500_000_000), (2_208_988_800u64 << 32) | 0x8000_0000);
    assert_eq!(ntp_timestamp(1, 999_999_999), (2_208_988_801u64 << 32) | 0xffff_fffc);
    // era rollover in 2036
    assert_eq!(ntp_timestamp(2_085_978_496, 0), 0);
}
