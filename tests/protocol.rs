use cfnts::protocol::{
    parse_ntp_packet, parse_nts_packet, parse_packet_header, serialize_header,
    serialize_ntp_packet, serialize_nts_packet, serialize_nts_packet_with_nonce, has_extension,
    is_nts_packet, extract_extension, LeapState, NtpError, NtpExtension, NtpExtensionType,
    NtpPacket, NtpPacketHeader, NtsPacket, PacketMode,
};

fn header(leap: LeapState, version: u8, mode: PacketMode) -> NtpPacketHeader {
    NtpPacketHeader {
        leap_indicator: leap,
        version,
        mode,
        stratum: 0,
        poll: 0,
        precision: 0,
        root_delay: 0,
        root_dispersion: 0,
        reference_id: 0,
        reference_timestamp: 0,
        origin_timestamp: 0,
        receive_timestamp: 0,
        transmit_timestamp: 0,
    }
}

fn ext(t: NtpExtensionType, contents: Vec<u8>) -> NtpExtension {
    NtpExtension { ext_type: t, contents }
}

fn check_eq_ext(a: &NtpExtension, b: &NtpExtension) {
    assert_eq!(a.ext_type, b.ext_type);
    assert_eq!(a.contents.len(), b.contents.len());
    for i in 0..a.contents.len() {
        assert_eq!(a.contents[i], b.contents[i]);
    }
}

fn check_ext_array_eq(exts1: &Vec<NtpExtension>, exts2: &Vec<NtpExtension>) {
    assert_eq!(exts1.len(), exts2.len());
    for i in 0..exts1.len() {
        check_eq_ext(&exts1[i], &exts2[i]);
    }
}

fn check_nts_match(pkt1: &NtsPacket, pkt2: &NtsPacket) {
    assert_eq!(pkt1.header, pkt2.header);
    check_ext_array_eq(&pkt1.auth_enc_exts, &pkt2.auth_enc_exts);
    check_ext_array_eq(&pkt1.auth_exts, &pkt2.auth_exts);
}

fn roundtrip_test(input: NtsPacket, key: &[u8]) {
    let mut packet = serialize_nts_packet(&input, key).unwrap();
    let decrypt = parse_nts_packet(&packet, key).unwrap();
    check_nts_match(&input, &decrypt);
    packet[0] = 0xde;
    packet[1] = 0xad;
    packet[2] = 0xbe;
    packet[3] = 0xef;
    let failure = parse_nts_packet(&packet, key);
    if let Ok(_) = failure {
        panic!("success when we should have failed");
    }
}

fn sample_nts_packet() -> NtsPacket {
    let mut h = header(LeapState::NoLeap, 4, PacketMode::Client);
    h.stratum = 1;
    NtsPacket {
        header: h,
        auth_exts: vec![
            ext(NtpExtensionType::UniqueIdentifier, vec![0; 32]),
            ext(NtpExtensionType::NTSCookie, vec![0; 32]),
        ],
        auth_enc_exts: vec![ext(NtpExtensionType::NTSCookiePlaceholder, vec![0xfe; 32])],
    }
}

#[test]
fn test_ntp_header_parse() {
    let leaps = vec![LeapState::NoLeap, LeapState::Positive, LeapState::Negative, LeapState::Unknown];
    let versions = vec![1, 2, 3, 4, 5, 6, 7];
    let modes = vec![
        PacketMode::SymmetricActive,
        PacketMode::SymmetricPassive,
        PacketMode::Client,
        PacketMode::Server,
        PacketMode::Broadcast,
    ];
    for leap in &leaps {
        for version in &versions {
            for mode in &modes {
                let start_header = header(*leap, *version, *mode);
                let ret_header = parse_packet_header(&serialize_header(start_header)).unwrap();
                assert_eq!(ret_header, start_header)
            }
        }
    }
}

#[test]
fn test_nts_parse() {
    let key = [0u8; 32];
    roundtrip_test(sample_nts_packet(), &key);
}

#[test]
fn header_round_trip_keeps_every_field() {
    let h = NtpPacketHeader {
        leap_indicator: LeapState::Negative,
        version: 7,
        mode: PacketMode::Broadcast,
        stratum: 200,
        poll: -7,
        precision: -18,
        root_delay: 0xdead_beef,
        root_dispersion: 0x0102_0304,
        reference_id: 0x4e54_534e,
        reference_timestamp: 0x0123_4567_89ab_cdef,
        origin_timestamp: u64::MAX,
        receive_timestamp: 1,
        transmit_timestamp: 0x1234_5678_9abc_def0,
    };
    let bytes = serialize_header(h);
    assert_eq!(bytes.len(), 48);
    assert_eq!(bytes[0], (2 << 6) | (7 << 3) | 5);
    assert_eq!(&bytes[40..48], &[0x12, 0x34, 0x56, 0x78, 0x9a, 0xbc, 0xde, 0xf0]);
    assert_eq!(parse_packet_header(&bytes).unwrap(), h);
}

#[test]
fn header_of_invalid_mode_reads_as_invalid() {
    let mut bytes = serialize_header(header(LeapState::NoLeap, 4, PacketMode::Client));
    bytes[0] = (bytes[0] & !0x07) | 0x07;
    assert_eq!(parse_packet_header(&bytes).unwrap().mode, PacketMode::Invalid);
    bytes[0] &= !0x07;
    assert_eq!(parse_packet_header(&bytes).unwrap().mode, PacketMode::Invalid);
}

#[test]
fn short_header_is_malformed() {
    let bytes = vec![0u8; 47];
    assert_eq!(parse_packet_header(&bytes).unwrap_err(), NtpError::Malformed);
    assert_eq!(parse_ntp_packet(&bytes).unwrap_err(), NtpError::Malformed);
}

#[test]
fn extensions_round_trip_and_align() {
    let pack = NtpPacket {
        header: header(LeapState::NoLeap, 4, PacketMode::Client),
        exts: vec![
            ext(NtpExtensionType::UniqueIdentifier, vec![0x11; 32]),
            ext(NtpExtensionType::Unknown(0x0777), vec![]),
            ext(NtpExtensionType::NTSCookiePlaceholder, vec![1, 2, 3, 4, 5, 6, 7, 8]),
        ],
    };
    let bytes = serialize_ntp_packet(&pack).unwrap();
    assert_eq!(bytes.len(), 48 + 36 + 4 + 12);
    assert_eq!(bytes.len() % 4, 0);
    assert_eq!(&bytes[48..52], &[0x01, 0x04, 0x00, 36]);
    let back = parse_ntp_packet(&bytes).unwrap();
    assert_eq!(back.header, pack.header);
    check_ext_array_eq(&back.exts, &pack.exts);
}

#[test]
fn misaligned_extension_is_refused() {
    let pack = NtpPacket {
        header: header(LeapState::NoLeap, 4, PacketMode::Client),
        exts: vec![ext(NtpExtensionType::UniqueIdentifier, vec![0x11; 31])],
    };
    assert_eq!(serialize_ntp_packet(&pack).unwrap_err(), NtpError::Malformed);
}

#[test]
fn bad_extension_lengths_are_malformed() {
    let mut bytes = serialize_header(header(LeapState::NoLeap, 4, PacketMode::Client));
    bytes.extend_from_slice(&[0x01, 0x04, 0x00, 0x06, 0, 0]);
    assert_eq!(parse_ntp_packet(&bytes).unwrap_err(), NtpError::Malformed);
    let mut bytes = serialize_header(header(LeapState::NoLeap, 4, PacketMode::Client));
    bytes.extend_from_slice(&[0x01, 0x04, 0x00, 0x00]);
    assert_eq!(parse_ntp_packet(&bytes).unwrap_err(), NtpError::Malformed);
    let mut bytes = serialize_header(header(LeapState::NoLeap, 4, PacketMode::Client));
    bytes.extend_from_slice(&[0x01, 0x04, 0x00, 0x10, 0, 0, 0, 0]);
    assert_eq!(parse_ntp_packet(&bytes).unwrap_err(), NtpError::Malformed);
}

#[test]
fn short_trailer_is_ignored() {
    let mut bytes = serialize_header(header(LeapState::NoLeap, 4, PacketMode::Client));
    bytes.extend_from_slice(&[0x01, 0x04, 0x00, 0x08, 9, 9, 9, 9, 0xaa, 0xbb, 0xcc]);
    let back = parse_ntp_packet(&bytes).unwrap();
    assert_eq!(back.exts.len(), 1);
    assert_eq!(back.exts[0].contents, vec![9, 9, 9, 9]);
}

#[test]
fn extension_queries() {
    let pack = NtpPacket {
        header: header(LeapState::NoLeap, 4, PacketMode::Client),
        exts: vec![
            ext(NtpExtensionType::UniqueIdentifier, vec![1; 4]),
            ext(NtpExtensionType::NTSCookie, vec![2; 4]),
            ext(NtpExtensionType::NTSCookie, vec![3; 4]),
        ],
    };
    assert!(has_extension(&pack, NtpExtensionType::NTSCookie));
    assert!(!has_extension(&pack, NtpExtensionType::NTSAuthenticator));
    assert!(!is_nts_packet(&pack));
    let first = extract_extension(&pack, NtpExtensionType::NTSCookie).unwrap();
    assert_eq!(first.contents, vec![2; 4]);
    assert!(extract_extension(&pack, NtpExtensionType::NTSCookiePlaceholder).is_none());
    let mut nts = pack.clone();
    nts.exts.push(ext(NtpExtensionType::NTSAuthenticator, vec![0; 4]));
    assert!(is_nts_packet(&nts));
}

#[test]
fn nts_packet_with_fixed_nonce_has_exact_layout() {
    let key = [7u8; 32];
    let nonce = [0x55u8; 32];
    let p = sample_nts_packet();
    let bytes = serialize_nts_packet_with_nonce(&p, &key, &nonce).unwrap();
    // header, two 36-byte extensions, then the authenticator
    let at = 48 + 36 + 36;
    assert_eq!(&bytes[at..at + 2], &[0x04, 0x04]);
    let ct_len = 36 + 16;
    assert_eq!(&bytes[at + 4..at + 8], &[0, 32, 0, ct_len as u8]);
    assert_eq!(&bytes[at + 8..at + 40], &nonce[..]);
    assert_eq!(bytes.len(), at + 4 + 4 + 32 + ct_len);
    let again = serialize_nts_packet_with_nonce(&p, &key, &nonce).unwrap();
    assert_eq!(bytes, again);
    let back = parse_nts_packet(&bytes, &key).unwrap();
    check_nts_match(&p, &back);
}

#[test]
fn nts_tamper_is_detected_everywhere() {
    let key = [3u8; 32];
    let p = sample_nts_packet();
    let bytes = serialize_nts_packet(&p, &key).unwrap();
    for i in 0..bytes.len() {
        for bit in [0x01u8, 0x80u8] {
            let mut t = bytes.clone();
            t[i] ^= bit;
            match parse_nts_packet(&t, &key) {
                Err(e) => assert!(e == NtpError::AuthFailed || e == NtpError::Malformed),
                Ok(q) => {
                    // only bytes outside the authenticated data and ciphertext may change
                    assert_eq!(q.header, p.header);
                    check_ext_array_eq(&q.auth_exts, &p.auth_exts);
                    check_ext_array_eq(&q.auth_enc_exts, &p.auth_enc_exts);
                }
            }
        }
    }
}

#[test]
fn nts_wrong_key_fails_authentication() {
    let p = sample_nts_packet();
    let bytes = serialize_nts_packet(&p, &[1u8; 32]).unwrap();
    assert_eq!(parse_nts_packet(&bytes, &[2u8; 32]).unwrap_err(), NtpError::AuthFailed);
}

#[test]
fn nts_without_authenticator_is_malformed() {
    let pack = NtpPacket {
        header: header(LeapState::NoLeap, 4, PacketMode::Client),
        exts: vec![ext(NtpExtensionType::UniqueIdentifier, vec![1; 32])],
    };
    let bytes = serialize_ntp_packet(&pack).unwrap();
    assert_eq!(parse_nts_packet(&bytes, &[0u8; 32]).unwrap_err(), NtpError::Malformed);
}

#[test]
fn nts_unaligned_extension_is_refused() {
    let mut p = sample_nts_packet();
    p.auth_enc_exts[0].contents.pop();
    assert_eq!(serialize_nts_packet(&p, &[0u8; 32]).unwrap_err(), NtpError::Malformed);
}
