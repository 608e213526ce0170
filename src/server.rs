//! The NTP/NTS responder: what to answer to one datagram.
use vstd::prelude::*;
use crate::cookie::{
    eat_cookie, eat_cookie_spec, get_keyid, key_id_spec, make_cookie, NTSKeys, COOKIE_SIZE,
};
use crate::protocol::{
    exts_bytes, exts_model, exts_ok, exts_types_ok, ext_ok, ext_type_ok,
    extract_extension, first_of, header_bytes, header_valid, is_nts_packet, lemma_parsed_exts_ok,
    no_authenticator, nts_bytes, nts_writable, NONCE_LEN, pad4, parse_exts_spec, parse_nts_packet, parse_nts_spec,
    parse_ntp_packet, serialize_header, serialize_ntp_packet, serialize_nts_packet, header_at,
    ExtModel, LeapState, NtpError, NtpExtension, NtpExtensionType, NtpPacket, NtpPacketHeader,
    NtsModel, NtsPacket, PacketMode, copy_extension,
};
use crate::rotation::{derived_key, epoch_id, lemma_same_secret_same_keys, RotatingKeys};
use crate::wire::lemma_u64_round_trip;

verus! {

/// The reference identifier of a kiss-of-death: ASCII "NTSN".
pub const KOD_REFID: u32 = 0x4e54534e;

/// What this server says about itself in each reply.
#[derive(Debug, Clone, Copy, PartialEq, Eq, Structural)]
pub struct ServerState {
    pub leap: LeapState,
    pub stratum: u8,
    pub version: u8,
    pub poll: i8,
    pub precision: i8,
    pub root_delay: u32,
    pub root_dispersion: u32,
    pub refid: u32,
    pub refstamp: u64,
}

/// The header of a reply to a request sent at `origin`, stamped `ts`.
pub open spec fn resp_header(s: ServerState, origin: u64, ts: u64) -> NtpPacketHeader {
    NtpPacketHeader {
        leap_indicator: s.leap,
        version: s.version,
        mode: PacketMode::Server,
        stratum: s.stratum,
        poll: s.poll,
        precision: s.precision,
        root_delay: s.root_delay,
        root_dispersion: s.root_dispersion,
        reference_id: s.refid,
        reference_timestamp: s.refstamp,
        origin_timestamp: origin,
        receive_timestamp: ts,
        transmit_timestamp: ts,
    }
}

/// The header of a kiss-of-death answering a request sent at `origin`.
pub open spec fn kod_header(origin: u64) -> NtpPacketHeader {
    NtpPacketHeader {
        leap_indicator: LeapState::Unknown,
        version: 4,
        mode: PacketMode::Server,
        stratum: 0,
        poll: 0,
        precision: 0,
        root_delay: 0,
        root_dispersion: 0,
        reference_id: KOD_REFID,
        reference_timestamp: 0,
        origin_timestamp: origin,
        receive_timestamp: 0,
        transmit_timestamp: 0,
    }
}

/// A kiss-of-death echoes the request's first unique identifier, if any.
pub open spec fn kod_exts(es: Seq<ExtModel>) -> Seq<ExtModel> {
    match first_of(es, NtpExtensionType::UniqueIdentifier) {
        None => Seq::empty(),
        Some(u) => seq![u],
    }
}

/// The wire form of the kiss-of-death answering a request.
pub open spec fn kod_bytes(h: NtpPacketHeader, es: Seq<ExtModel>) -> Seq<u8> {
    header_bytes(kod_header(h.transmit_timestamp)) + exts_bytes(kod_exts(es))
}

/// The unique identifiers among `es`, in order.
pub open spec fn uids(es: Seq<ExtModel>) -> Seq<ExtModel>
    decreases es.len(),
{
    if es.len() == 0 {
        Seq::empty()
    } else if es.last().0 == NtpExtensionType::UniqueIdentifier {
        uids(es.drop_last()).push(es.last())
    } else {
        uids(es.drop_last())
    }
}

/// How many of `es` are cookie placeholders at least as long as a cookie.
pub open spec fn valid_placeholders(es: Seq<ExtModel>) -> nat
    decreases es.len(),
{
    if es.len() == 0 {
        0
    } else if es.last().0 == NtpExtensionType::NTSCookiePlaceholder && es.last().1.len()
        >= COOKIE_SIZE {
        valid_placeholders(es.drop_last()) + 1
    } else {
        valid_placeholders(es.drop_last())
    }
}

/// Every one of `enc` is a cookie, minted under the current master key of
/// `rk`, that opens to `keys`.
pub open spec fn fresh_cookies(enc: Seq<ExtModel>, keys: (Seq<u8>, Seq<u8>), rk: RotatingKeys) -> bool {
    forall|i: int|
        0 <= i < enc.len() ==> {
            &&& (#[trigger] enc[i]).0 == NtpExtensionType::NTSCookie
            &&& enc[i].1.len() == COOKIE_SIZE
            &&& key_id_spec(enc[i].1) == Some(epoch_id(rk.latest))
            &&& eat_cookie_spec(enc[i].1, derived_key(rk.master_key@, rk.latest)) == Some(keys)
        }
}

/// The session keys that the request's first cookie holds, under the master
/// key that its identifier names.
pub open spec fn request_keys(es: Seq<ExtModel>, rk: RotatingKeys) -> Option<(Seq<u8>, Seq<u8>)> {
    match first_of(es, NtpExtensionType::NTSCookie) {
        None => None,
        Some(c) => match key_id_spec(c.1) {
            None => None,
            Some(id) => match rk.lookup_spec(id) {
                None => None,
                Some(mk) => eat_cookie_spec(c.1, mk),
            },
        },
    }
}

pub open spec fn is_nts_model(es: Seq<ExtModel>) -> bool {
    first_of(es, NtpExtensionType::NTSCookie).is_some() && first_of(
        es,
        NtpExtensionType::NTSAuthenticator,
    ).is_some() && first_of(es, NtpExtensionType::UniqueIdentifier).is_some()
}

/// Whether an NTS reply echoing the identifiers of `auth` and carrying `k + 1`
/// cookies fits in one authenticator.
pub open spec fn reply_fits(auth: Seq<ExtModel>, k: nat) -> bool {
    exts_ok(uids(auth)) && 108 * (k + 1) + 56 <= 0xffff
}

pub open spec fn ok_with(r: Result<Vec<u8>, NtpError>, b: Seq<u8>) -> bool {
    r.is_ok() && r.unwrap()@ == b
}

/// What the NTS reply to the request `m` must be: sealed under the
/// server-to-client key, with header `hdr`, the request's unique identifiers,
/// and one fresh cookie per valid placeholder plus one; once parsed back, when
/// the header survives the wire, it gives exactly those values.
pub open spec fn nts_reply_spec(
    r: Result<Vec<u8>, NtpError>,
    m: NtsModel,
    keys: (Seq<u8>, Seq<u8>),
    rk: RotatingKeys,
    hdr: NtpPacketHeader,
) -> bool {
    let k = valid_placeholders(m.1);
    if reply_fits(m.1, k) {
        r.is_ok() && exists|enc: Seq<ExtModel>, nonce: Seq<u8>|
            #![trigger nts_bytes(hdr, uids(m.1), enc, keys.1, nonce)]
            {
                &&& nonce.len() == NONCE_LEN
                &&& enc.len() == k + 1
                &&& fresh_cookies(enc, keys, rk)
                &&& r.unwrap()@ == nts_bytes(hdr, uids(m.1), enc, keys.1, nonce)
                &&& header_valid(hdr) ==> parse_nts_spec(r.unwrap()@, keys.1) == Ok::<
                    NtsModel,
                    NtpError,
                >((hdr, uids(m.1), enc))
            }
    } else {
        r == Err::<Vec<u8>, NtpError>(NtpError::Malformed)
    }
}

/// The NTP timestamp of the instant `unix_secs` seconds and `nanos`
/// nanoseconds after the Unix epoch: seconds since 1900 (modulo the era) in
/// the high 32 bits, the fraction rounded to units of 2^-32 s in the low ones.
pub fn ntp_timestamp(unix_secs: u64, nanos: u32) -> (r: u64)
    requires
        nanos < 1_000_000_000,
    ensures
        r == ((unix_secs as int + 2_208_988_800) % 0x1_0000_0000) * 0x1_0000_0000 + (nanos as int
            * 0x1_0000_0000 + 500_000_000) / 1_000_000_000,
{
    let secs = (unix_secs % 0x1_0000_0000 + 2_208_988_800) % 0x1_0000_0000;
    let n = nanos as u64;
    assert(n * 0x1_0000_0000 + 500_000_000 <= 999_999_999 * 0x1_0000_0000 + 500_000_000)
        by (nonlinear_arith)
        requires n < 1_000_000_000;
    let frac = (n * 0x1_0000_0000 + 500_000_000) / 1_000_000_000;
    assert(frac < 0x1_0000_0000);
    assert(secs * 0x1_0000_0000 <= 0xffff_ffff * 0x1_0000_0000) by (nonlinear_arith)
        requires secs < 0x1_0000_0000;
    assert((unix_secs as int % 0x1_0000_0000 + 2_208_988_800) % 0x1_0000_0000 == (unix_secs as int
        + 2_208_988_800) % 0x1_0000_0000) by {
        vstd::arithmetic::div_mod::lemma_add_mod_noop(unix_secs as int, 2_208_988_800, 0x1_0000_0000);
        vstd::arithmetic::div_mod::lemma_mod_twice(unix_secs as int, 0x1_0000_0000);
    }
    secs * 0x1_0000_0000 + frac
}

/// The kiss-of-death answering a request: leap unknown, stratum 0, reference
/// "NTSN", every timestamp zero but the origin, which is the request's transmit
/// time; the request's unique identifier is echoed.
pub fn kiss_of_death(query_packet: &NtpPacket) -> (r: NtpPacket)
    ensures
        r.header == kod_header(query_packet.header.transmit_timestamp),
        r.header.stratum == 0,
        r.header.reference_id == KOD_REFID,
        r.header.origin_timestamp == query_packet.header.transmit_timestamp,
        exts_model(r.exts@) == kod_exts(exts_model(query_packet.exts@)),
{
    let kod_header = NtpPacketHeader {
        leap_indicator: LeapState::Unknown,
        version: 4,
        mode: PacketMode::Server,
        poll: 0,
        precision: 0,
        stratum: 0,
        root_delay: 0,
        root_dispersion: 0,
        reference_id: KOD_REFID,
        reference_timestamp: 0,
        origin_timestamp: query_packet.header.transmit_timestamp,
        receive_timestamp: 0,
        transmit_timestamp: 0,
    };
    let mut exts: Vec<NtpExtension> = Vec::new();
    match extract_extension(query_packet, NtpExtensionType::UniqueIdentifier) {
        Some(u) => {
            exts.push(u);
            assert(exts_model(exts@) =~= kod_exts(exts_model(query_packet.exts@)));
        },
        None => {
            assert(exts_model(exts@) =~= kod_exts(exts_model(query_packet.exts@)));
        },
    }
    NtpPacket { header: kod_header, exts }
}

/// The wire form of the kiss-of-death answering a request.
pub fn send_kiss_of_death(query_packet: &NtpPacket) -> (r: Result<Vec<u8>, NtpError>)
    requires
        exts_ok(exts_model(query_packet.exts@)),
    ensures
        ok_with(r, kod_bytes(query_packet.header, exts_model(query_packet.exts@))),
{
    let resp = kiss_of_death(query_packet);
    proof {
        let es = exts_model(query_packet.exts@);
        match first_of(es, NtpExtensionType::UniqueIdentifier) {
            None => {},
            Some(u) => {
                lemma_first_of_in(es, NtpExtensionType::UniqueIdentifier);
            },
        }
    }
    serialize_ntp_packet(&resp)
}

proof fn lemma_first_of_in(es: Seq<ExtModel>, kind: NtpExtensionType)
    requires
        first_of(es, kind).is_some(),
        exts_ok(es),
    ensures
        ext_ok(first_of(es, kind).unwrap()),
        first_of(es, kind).unwrap().0 == kind,
    decreases es.len(),
{
    if es[0].0 != kind {
        let rest = es.drop_first();
        assert forall|i: int| 0 <= i < rest.len() implies #[trigger] ext_ok(rest[i]) by {
            assert(ext_ok(es[i + 1]));
        }
        lemma_first_of_in(rest, kind);
    } else {
        assert(ext_ok(es[0]));
    }
}

/// The NTS reply to an authenticated request: the given header, the
/// request's unique identifiers among its authenticated extensions, and, in
/// the encrypted extensions, one fresh cookie for each placeholder at least as
/// long as a cookie (shorter ones are ignored, so a reply is never larger than
/// its request asks for) plus one to replace the cookie spent.
pub fn nts_response(
    query: &NtsPacket,
    header: NtpPacketHeader,
    keys: &NTSKeys,
    cookie_keys: &RotatingKeys,
) -> (r: NtsPacket)
    requires
        keys.wf(),
        cookie_keys.wf(),
    ensures
        r.header == header,
        exts_model(r.auth_exts@) == uids(exts_model(query.auth_exts@)),
        r.auth_enc_exts@.len() == valid_placeholders(exts_model(query.auth_exts@)) + 1,
        fresh_cookies(exts_model(r.auth_enc_exts@), keys.model(), *cookie_keys),
{
    let ghost q = exts_model(query.auth_exts@);
    let (id, curr_key) = cookie_keys.latest();
    let mut auth_exts: Vec<NtpExtension> = Vec::new();
    let mut auth_enc_exts: Vec<NtpExtension> = Vec::new();
    let mut i: usize = 0;
    while i < query.auth_exts.len()
        invariant
            i <= query.auth_exts@.len(),
            q == exts_model(query.auth_exts@),
            keys.wf(),
            id@ == epoch_id(cookie_keys.latest),
            curr_key@ == derived_key(cookie_keys.master_key@, cookie_keys.latest),
            curr_key@.len() == 32,
            id@.len() == 8,
            exts_model(auth_exts@) == uids(q.subrange(0, i as int)),
            auth_enc_exts@.len() == valid_placeholders(q.subrange(0, i as int)),
            fresh_cookies(exts_model(auth_enc_exts@), keys.model(), *cookie_keys),
        decreases query.auth_exts@.len() - i,
    {
        let ext = &query.auth_exts[i];
        proof {
            assert(q.subrange(0, i + 1).drop_last() =~= q.subrange(0, i as int));
            assert(q.subrange(0, i + 1).last() == ext@);
        }
        match ext.ext_type {
            NtpExtensionType::UniqueIdentifier => {
                let ghost before = auth_exts@;
                auth_exts.push(copy_extension(ext));
                assert(exts_model(auth_exts@) =~= exts_model(before).push(ext@));
            },
            NtpExtensionType::NTSCookiePlaceholder => {
                if ext.contents.len() >= COOKIE_SIZE {
                    let cookie = make_cookie(keys, curr_key.as_slice(), id.as_slice());
                    let ghost before = auth_enc_exts@;
                    auth_enc_exts.push(NtpExtension { ext_type: NtpExtensionType::NTSCookie, contents: cookie });
                    proof {
                        let m = exts_model(auth_enc_exts@);
                        assert(fresh_cookies(exts_model(before), keys.model(), *cookie_keys));
                        assert forall|j: int| 0 <= j < m.len() implies {
                            &&& (#[trigger] m[j]).0 == NtpExtensionType::NTSCookie
                            &&& m[j].1.len() == COOKIE_SIZE
                            &&& key_id_spec(m[j].1) == Some(epoch_id(cookie_keys.latest))
                            &&& eat_cookie_spec(
                                m[j].1,
                                derived_key(cookie_keys.master_key@, cookie_keys.latest),
                            ) == Some(keys.model())
                        } by {
                            if j < before.len() {
                                assert(m[j] == exts_model(before)[j]);
                            }
                        }
                    }
                }
            },
            _ => {},
        }
        i = i + 1;
    }
    let cookie = make_cookie(keys, curr_key.as_slice(), id.as_slice());
    let ghost before = auth_enc_exts@;
    auth_enc_exts.push(NtpExtension { ext_type: NtpExtensionType::NTSCookie, contents: cookie });
    proof {
        assert(q.subrange(0, i as int) =~= q);
        let m = exts_model(auth_enc_exts@);
        assert(fresh_cookies(exts_model(before), keys.model(), *cookie_keys));
        assert forall|j: int| 0 <= j < m.len() implies {
            &&& (#[trigger] m[j]).0 == NtpExtensionType::NTSCookie
            &&& m[j].1.len() == COOKIE_SIZE
            &&& key_id_spec(m[j].1) == Some(epoch_id(cookie_keys.latest))
            &&& eat_cookie_spec(m[j].1, derived_key(cookie_keys.master_key@, cookie_keys.latest))
                == Some(keys.model())
        } by {
            if j < before.len() {
                assert(m[j] == exts_model(before)[j]);
            }
        }
    }
    NtsPacket { header, auth_exts, auth_enc_exts }
}

proof fn lemma_uids_types(es: Seq<ExtModel>)
    ensures
        forall|i: int|
            0 <= i < uids(es).len() ==> (#[trigger] uids(es)[i]).0
                == NtpExtensionType::UniqueIdentifier,
        exts_types_ok(uids(es)),
        no_authenticator(uids(es)),
    decreases es.len(),
{
    if es.len() > 0 {
        lemma_uids_types(es.drop_last());
    }
}

proof fn lemma_cookie_exts(enc: Seq<ExtModel>, keys: (Seq<u8>, Seq<u8>), rk: RotatingKeys)
    requires
        fresh_cookies(enc, keys, rk),
    ensures
        exts_ok(enc),
        exts_types_ok(enc),
        exts_bytes(enc).len() == 108 * enc.len(),
    decreases enc.len(),
{
    if enc.len() > 0 {
        let rest = enc.drop_first();
        assert(fresh_cookies(rest, keys, rk)) by {
            assert forall|i: int| 0 <= i < rest.len() implies #[trigger] rest[i] == enc[i + 1] by {}
            assert forall|i: int| 0 <= i < rest.len() implies {
                &&& (#[trigger] rest[i]).0 == NtpExtensionType::NTSCookie
                &&& rest[i].1.len() == COOKIE_SIZE
                &&& key_id_spec(rest[i].1) == Some(epoch_id(rk.latest))
                &&& eat_cookie_spec(rest[i].1, derived_key(rk.master_key@, rk.latest)) == Some(keys)
            } by {
                assert(rest[i] == enc[i + 1]);
            }
        }
        lemma_cookie_exts(rest, keys, rk);
        assert(enc[0].0 == NtpExtensionType::NTSCookie);
        assert forall|i: int| 0 <= i < enc.len() implies #[trigger] ext_ok(enc[i]) by {
            if i > 0 {
                assert(enc[i] == rest[i - 1]);
            }
        }
        assert forall|i: int| 0 <= i < enc.len() implies #[trigger] ext_type_ok(enc[i].0) by {
            assert(enc[i].0 == NtpExtensionType::NTSCookie);
        }
        assert(108 * enc.len() == 108 + 108 * rest.len()) by (nonlinear_arith)
            requires
                enc.len() == rest.len() + 1,
        ;
    }
}

/// Answers a request that carries a valid cookie: parses it with the
/// client-to-server key, and seals the reply with the server-to-client key; a
/// request whose authenticator does not check gets a kiss-of-death.
fn process_nts(
    resp_header: NtpPacketHeader,
    keys: &NTSKeys,
    cookie_keys: &RotatingKeys,
    query_raw: &[u8],
    query_packet: &NtpPacket,
) -> (r: Result<Vec<u8>, NtpError>)
    requires
        keys.wf(),
        cookie_keys.wf(),
        exts_ok(exts_model(query_packet.exts@)),
    ensures
        match parse_nts_spec(query_raw@, keys.c2s@) {
            Err(_) => ok_with(r, kod_bytes(query_packet.header, exts_model(query_packet.exts@))),
            Ok(m) => nts_reply_spec(r, m, keys.model(), *cookie_keys, resp_header),
        },
{
    match parse_nts_packet(query_raw, keys.c2s.as_slice()) {
        Ok(packet) => {
            let resp = nts_response(&packet, resp_header, keys, cookie_keys);
            let r = serialize_nts_packet(&resp, keys.s2c.as_slice());
            proof {
                let m = packet.model();
                let k = valid_placeholders(m.1);
                let enc = exts_model(resp.auth_enc_exts@);
                lemma_cookie_exts(enc, keys.model(), *cookie_keys);
                lemma_uids_types(m.1);
                let ct_len = exts_bytes(enc).len() + 16;
                assert(ct_len == 108 * (k + 1) + 16);
                assert((108 * (k + 1) + 16) % 4 == 0) by (nonlinear_arith);
                assert(pad4(ct_len as int) == 0);
                assert(nts_writable(resp.model().1, resp.model().2) == reply_fits(m.1, k));
                if reply_fits(m.1, k) {
                    let nonce = choose|n: Seq<u8>|
                        n.len() == NONCE_LEN && r.unwrap()@ == nts_bytes(
                            resp_header,
                            uids(m.1),
                            enc,
                            keys.s2c@,
                            n,
                        );
                    assert(fresh_cookies(enc, keys.model(), *cookie_keys));
                    assert(r.unwrap()@ == nts_bytes(resp_header, uids(m.1), enc, keys.s2c@, nonce));
                }
            }
            r
        },
        Err(_) => send_kiss_of_death(query_packet),
    }
}

/// What the reply to the datagram `q`, received at NTP time `ts`, must be.
pub open spec fn response_spec(
    q: Seq<u8>,
    ts: u64,
    rk: RotatingKeys,
    st: ServerState,
    r: Result<Vec<u8>, NtpError>,
) -> bool {
    if q.len() < 48 {
        r == Err::<Vec<u8>, NtpError>(NtpError::Malformed)
    } else {
        match parse_exts_spec(q.subrange(48, q.len() as int)) {
            None => r == Err::<Vec<u8>, NtpError>(NtpError::Malformed),
            Some(es) => {
                let h = header_at(q);
                if h.mode != PacketMode::Client {
                    ok_with(r, kod_bytes(h, es))
                } else if !is_nts_model(es) {
                    ok_with(r, header_bytes(resp_header(st, h.transmit_timestamp, ts)))
                } else {
                    match request_keys(es, rk) {
                        None => ok_with(r, kod_bytes(h, es)),
                        Some(keys) => match parse_nts_spec(q, keys.0) {
                            Err(_) => ok_with(r, kod_bytes(h, es)),
                            Ok(m) => nts_reply_spec(
                                r,
                                m,
                                keys,
                                rk,
                                resp_header(st, h.transmit_timestamp, ts),
                            ),
                        },
                    }
                }
            },
        }
    }
}

/// The reply to one datagram received at NTP time `response_timestamp`:
/// nothing (an error) if it does not parse; a kiss-of-death if it is not a
/// client request, or an NTS request whose cookie or authenticator fails; an
/// NTS reply to a valid NTS request; a bare header otherwise.
pub fn response(
    query: &[u8],
    response_timestamp: u64,
    cookie_keys: &RotatingKeys,
    servstate: ServerState,
) -> (r: Result<Vec<u8>, NtpError>)
    requires
        cookie_keys.wf(),
    ensures
        response_spec(query@, response_timestamp, *cookie_keys, servstate, r),
{
    let query_packet = parse_ntp_packet(query)?;
    proof {
        lemma_parsed_exts_ok(query@.subrange(48, query@.len() as int));
    }
    let resp_header = NtpPacketHeader {
        leap_indicator: servstate.leap,
        version: servstate.version,
        mode: PacketMode::Server,
        poll: servstate.poll,
        precision: servstate.precision,
        stratum: servstate.stratum,
        root_delay: servstate.root_delay,
        root_dispersion: servstate.root_dispersion,
        reference_id: servstate.refid,
        reference_timestamp: servstate.refstamp,
        origin_timestamp: query_packet.header.transmit_timestamp,
        receive_timestamp: response_timestamp,
        transmit_timestamp: response_timestamp,
    };
    if query_packet.header.mode != PacketMode::Client {
        return send_kiss_of_death(&query_packet);
    }
    if !is_nts_packet(&query_packet) {
        return Ok(serialize_header(resp_header));
    }
    let cookie = match extract_extension(&query_packet, NtpExtensionType::NTSCookie) {
        Some(c) => c,
        None => return send_kiss_of_death(&query_packet),
    };
    let keyid = match get_keyid(cookie.contents.as_slice()) {
        Some(id) => id,
        None => return send_kiss_of_death(&query_packet),
    };
    let key = match cookie_keys.lookup(keyid.as_slice()) {
        Some(k) => k,
        None => return send_kiss_of_death(&query_packet),
    };
    match eat_cookie(cookie.contents.as_slice(), key.as_slice()) {
        Some(nts_keys) => process_nts(resp_header, &nts_keys, cookie_keys, query, &query_packet),
        None => send_kiss_of_death(&query_packet),
    }
}

/// A request whose first cookie names period `e` and opens under that
/// period's key gets its session keys exactly when `e` lies in the key
/// window; a cookie naming a period outside it gets nothing (and so a
/// kiss-of-death).
pub proof fn lemma_request_keys_window(
    es: Seq<ExtModel>,
    rk: RotatingKeys,
    e: u64,
    keys: (Seq<u8>, Seq<u8>),
)
    requires
        rk.wf(),
        first_of(es, NtpExtensionType::NTSCookie).is_some(),
        key_id_spec(first_of(es, NtpExtensionType::NTSCookie).unwrap().1) == Some(epoch_id(e)),
        eat_cookie_spec(first_of(es, NtpExtensionType::NTSCookie).unwrap().1, derived_key(rk.master_key@, e))
            == Some(keys),
    ensures
        request_keys(es, rk) == if rk.keys_view().contains_key(e) {
            Some(keys)
        } else {
            None::<(Seq<u8>, Seq<u8>)>
        },
{
    lemma_u64_round_trip(e);
    if rk.keys_view().contains_key(e) {
        assert(rk.keys@[e - rk.first]@ == derived_key(rk.master_key@, (rk.first + (e - rk.first)) as u64));
    }
}

/// Two key schedules made from the same root secret treat a request alike
/// when both windows cover the period that its cookie names: both recover the
/// same session keys, or both refuse it.
pub proof fn lemma_same_secret_same_request_keys(es: Seq<ExtModel>, a: RotatingKeys, b: RotatingKeys, e: u64)
    requires
        a.wf(),
        b.wf(),
        a.master_key@ == b.master_key@,
        a.keys_view().contains_key(e),
        b.keys_view().contains_key(e),
        first_of(es, NtpExtensionType::NTSCookie).is_some(),
        key_id_spec(first_of(es, NtpExtensionType::NTSCookie).unwrap().1) == Some(epoch_id(e)),
    ensures
        request_keys(es, a) == request_keys(es, b),
{
    lemma_u64_round_trip(e);
    lemma_same_secret_same_keys(a, b, e);
}

} // verus!
