use cfnts::client::{
    client_request, client_step, initial_state, process_record, select_address, ClientError,
    ClientState, ReadStep,
    StepError,
};
use cfnts::config::parse_ntp_config;
use cfnts::cookie::{eat_cookie, NTSKeys};
use cfnts::rotation::RotatingKeys;
use cfnts::nts_ke::{
    deserialize_record, exporter_context, extract_port, extract_protos, ke_error_response,
    ke_response, ke_server_reply, request_acceptable, serialize_record, DeserializeError, NtsKeRecord, NtsKeType,
};

fn rec(critical: bool, t: NtsKeType, contents: Vec<u8>) -> NtsKeRecord {
    NtsKeRecord { critical, record_type: t, contents }
}

fn read_all(mut bytes: &[u8]) -> Vec<NtsKeRecord> {
    let mut out = vec![];
    while !bytes.is_empty() {
        let (r, n) = deserialize_record(bytes).unwrap();
        if let Some(r) = r {
            out.push(r);
        }
        bytes = &bytes[n..];
    }
    out
}

fn fresh_state() -> ClientState {
    initial_state("time.example".to_string(), NTSKeys { c2s: vec![1; 32], s2c: vec![2; 32] })
}

#[test]
fn record_wire_form() {
    let r = rec(true, NtsKeType::PortNegotiation, vec![0, 123]);
    let b = serialize_record(&r);
    assert_eq!(b, vec![0x80, 7, 0, 2, 0, 123]);
    let (back, n) = deserialize_record(&b).unwrap();
    let back = back.unwrap();
    assert_eq!(n, 6);
    assert!(back.critical);
    assert_eq!(back.record_type, NtsKeType::PortNegotiation);
    assert_eq!(back.contents, vec![0, 123]);
    assert_eq!(extract_port(&back), Some(123));
}

#[test]
fn record_too_short_says_how_much_more() {
    assert_eq!(deserialize_record(&[0x80]).unwrap_err(), DeserializeError::TooShort(3));
    assert_eq!(deserialize_record(&[0x80, 5, 0, 10, 1, 2]).unwrap_err(), DeserializeError::TooShort(8));
}

#[test]
fn unknown_records() {
    let (r, n) = deserialize_record(&[0x00, 0x40, 0, 2, 9, 9, 1]).unwrap();
    assert!(r.is_none());
    assert_eq!(n, 6);
    assert_eq!(
        deserialize_record(&[0x80, 0x40, 0, 0]).unwrap_err(),
        DeserializeError::UnknownCriticalRecord(0x40)
    );
}

#[test]
fn client_request_records() {
    let recs = read_all(&client_request());
    assert_eq!(recs.len(), 3);
    assert_eq!(recs[0].record_type, NtsKeType::NextProtocolNegotiation);
    assert_eq!(extract_protos(&recs[0]).unwrap(), vec![0]);
    assert_eq!(recs[1].record_type, NtsKeType::AEADAlgorithmNegotiation);
    assert_eq!(recs[1].contents, vec![0, 15]);
    assert_eq!(recs[2].record_type, NtsKeType::EndOfMessage);
    assert!(recs[2].critical);
    assert!(request_acceptable(&recs));
}

#[test]
fn nts_ke_happy_path() {
    let request = read_all(&client_request());
    assert!(request_acceptable(&request));
    let cookies: Vec<Vec<u8>> = (0..8u8).map(|i| vec![i; 104]).collect();
    let reply = ke_response(&cookies, None, &None);
    let mut st = fresh_state();
    for r in read_all(&reply) {
        process_record(r, &mut st).unwrap();
    }
    assert!(st.finished);
    assert_eq!(st.cookies.len(), 8);
    assert_eq!(st.cookies[3], vec![3; 104]);
    assert_eq!(st.aead_scheme, 15);
    assert_eq!(st.next_port, 123);
    assert_eq!(st.next_protocols, vec![0]);
    assert_eq!(st.next_server, "time.example");
}

#[test]
fn nts_ke_port_is_advertised() {
    let reply = ke_response(&vec![vec![1; 4]], Some(4460), &Some(b"ntp.example".to_vec()));
    let mut st = fresh_state();
    for r in read_all(&reply) {
        process_record(r, &mut st).unwrap();
    }
    assert_eq!(st.next_port, 4460);
    assert_eq!(st.cookies.len(), 1);
    let recs = read_all(&ke_response(&vec![vec![1; 4]], Some(4460), &Some(b"ntp.example".to_vec())));
    assert_eq!(recs[3].record_type, NtsKeType::ServerNegotiation);
    assert_eq!(recs[3].contents, b"ntp.example".to_vec());
}

#[test]
fn unacceptable_requests() {
    let only_proto = vec![rec(true, NtsKeType::NextProtocolNegotiation, vec![0, 0])];
    assert!(!request_acceptable(&only_proto));
    let wrong_aead = vec![
        rec(true, NtsKeType::NextProtocolNegotiation, vec![0, 0]),
        rec(false, NtsKeType::AEADAlgorithmNegotiation, vec![0, 16]),
    ];
    assert!(!request_acceptable(&wrong_aead));
    let recs = read_all(&ke_error_response());
    assert_eq!(recs[0].record_type, NtsKeType::Error);
    assert_eq!(recs[1].record_type, NtsKeType::EndOfMessage);
}

#[test]
fn client_record_errors() {
    let mut st = fresh_state();
    let two = rec(false, NtsKeType::AEADAlgorithmNegotiation, vec![0, 15, 0, 16]);
    assert_eq!(process_record(two, &mut st).unwrap_err(), ClientError::InvalidRecord);
    assert_eq!(st.aead_scheme, 0);
    let odd = rec(true, NtsKeType::NextProtocolNegotiation, vec![0]);
    assert_eq!(process_record(odd, &mut st).unwrap_err(), ClientError::InvalidRecord);
    let err = rec(true, NtsKeType::Error, vec![0, 1]);
    assert_eq!(process_record(err, &mut st).unwrap_err(), ClientError::ErrorRecord);
    process_record(rec(false, NtsKeType::Warning, vec![0, 1]), &mut st).unwrap();
    process_record(rec(true, NtsKeType::EndOfMessage, vec![]), &mut st).unwrap();
    let late = rec(false, NtsKeType::NewCookie, vec![1, 2]);
    assert_eq!(process_record(late, &mut st).unwrap_err(), ClientError::RecordAfterEnd);
    assert!(st.cookies.is_empty());
}

#[test]
fn exporter_context_bytes() {
    assert_eq!(exporter_context(0, 15, 0), vec![0, 0, 0, 15, 0]);
    assert_eq!(exporter_context(0, 15, 1), vec![0, 0, 0, 15, 1]);
}

#[test]
fn ntp_config_assembly() {
    assert!(parse_ntp_config(
        vec![1; 31],
        vec![],
        None,
        8000,
        "::1".to_string(),
        None,
        None
    )
    .is_none());
    let c = parse_ntp_config(
        vec![1; 32],
        vec!["127.0.0.1:123".to_string()],
        None,
        0x1_0000 + 9000,
        "127.0.0.1".to_string(),
        Some("upstream".to_string()),
        None,
    )
    .unwrap();
    assert_eq!(c.memcached_url, "");
    assert_eq!(c.metrics.port, 9000);
    assert!(c.upstream_addr.is_none());
    let c = parse_ntp_config(
        vec![0; 40],
        vec![],
        Some("memcache://x".to_string()),
        8000,
        "::1".to_string(),
        Some("upstream".to_string()),
        Some(123),
    )
    .unwrap();
    assert_eq!(c.memcached_url, "memcache://x");
    assert_eq!(c.upstream_addr, Some(("upstream".to_string(), 123)));
}

#[test]
fn client_step_reads_one_record_at_a_time() {
    let reply = ke_response(&vec![vec![7; 8]], None, &None);
    let mut st = fresh_state();
    assert_eq!(client_step(&reply[..3], &mut st).unwrap(), ReadStep::NeedMore(1));
    assert_eq!(client_step(&reply[..5], &mut st).unwrap(), ReadStep::NeedMore(1));
    let mut curr = 0;
    while !st.finished {
        match client_step(&reply[curr..], &mut st).unwrap() {
            ReadStep::Consumed(n) => curr += n,
            ReadStep::NeedMore(_) => panic!("complete reply"),
        }
    }
    assert_eq!(curr, reply.len());
    assert_eq!(st.cookies, vec![vec![7; 8]]);
    let mut st = fresh_state();
    assert_eq!(
        client_step(&[0x80, 0x40, 0, 0], &mut st).unwrap_err(),
        StepError::Record(DeserializeError::UnknownCriticalRecord(0x40))
    );
    assert_eq!(client_step(&[0x00, 0x40, 0, 0], &mut st).unwrap(), ReadStep::Consumed(4));
    assert_eq!(
        client_step(&[0x80, 2, 0, 0], &mut st).unwrap_err(),
        StepError::Client(ClientError::ErrorRecord)
    );
}

#[test]
fn end_of_message_must_be_critical_and_empty() {
    let mut st = fresh_state();
    let soft = rec(false, NtsKeType::EndOfMessage, vec![]);
    assert_eq!(process_record(soft, &mut st).unwrap_err(), ClientError::InvalidRecord);
    let full = rec(true, NtsKeType::EndOfMessage, vec![0, 0]);
    assert_eq!(process_record(full, &mut st).unwrap_err(), ClientError::InvalidRecord);
    assert!(!st.finished);
}

#[test]
fn address_selection() {
    let kinds = vec![false, true, false];
    assert_eq!(select_address(&kinds, None).unwrap(), Some(0));
    assert_eq!(select_address(&kinds, Some(true)).unwrap(), Some(1));
    assert_eq!(select_address(&kinds, Some(false)).unwrap(), Some(0));
    assert_eq!(select_address(&vec![], None).unwrap(), None);
    assert_eq!(
        select_address(&vec![false, false], Some(true)).unwrap_err(),
        ClientError::NoIpv4AddrFound
    );
    assert_eq!(
        select_address(&vec![true], Some(false)).unwrap_err(),
        ClientError::NoIpv6AddrFound
    );
}

#[test]
fn ke_server_reply_mints_cookies() {
    let rk = RotatingKeys::new(vec![3u8; 32], 3600, 2, 24, 7200).unwrap();
    let keys = NTSKeys { c2s: vec![1; 32], s2c: vec![2; 32] };
    let request = read_all(&client_request());
    let reply = ke_server_reply(&request, &keys, &rk, 8, None, &None);
    let mut st = fresh_state();
    for r in read_all(&reply) {
        process_record(r, &mut st).unwrap();
    }
    assert_eq!(st.cookies.len(), 8);
    assert_eq!(st.aead_scheme, 15);
    assert_eq!(st.next_port, 123);
    let (id, master) = rk.latest();
    for c in &st.cookies {
        assert_eq!(&c[..8], &id[..]);
        let k = eat_cookie(c, &master).unwrap();
        assert_eq!(k.c2s, keys.c2s);
        assert_eq!(k.s2c, keys.s2c);
    }
    let bad = vec![rec(true, NtsKeType::NextProtocolNegotiation, vec![0, 1])];
    assert_eq!(ke_server_reply(&bad, &keys, &rk, 8, None, &None), ke_error_response());
}
