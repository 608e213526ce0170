//! The NTS-KE record protocol: type-length-value records with a critical
//! bit, their typed contents, and the client's handling of a response.
use vstd::prelude::*;
use crate::cookie::{eat_cookie_spec, key_id_spec, make_cookie, NTSKeys, COOKIE_SIZE};
use crate::rotation::{derived_key, epoch_id, RotatingKeys};
use crate::wire::{be16, copy_range, lemma_u16_round_trip, push_all, push_u16, read_u16, u16_at};

verus! {

/// Next protocol: NTPv4.
pub const NTP_V4_PROTOCOL: u16 = 0;

/// AEAD algorithm: AES-SIV-CMAC-256.
pub const AES_SIV_CMAC_256: u16 = 15;

/// NTP port a client uses when the server names none.
pub const DEFAULT_NTP_PORT: u16 = 123;

/// NTS-KE port a client connects to when none is configured.
pub const DEFAULT_KE_PORT: u16 = 1234;

/// AEAD scheme a client records until the server names one.
pub const DEFAULT_SCHEME: u16 = 0;

/// Exporter direction byte: client to server.
pub const DIRECTION_C2S: u8 = 0;

/// Exporter direction byte: server to client.
pub const DIRECTION_S2C: u8 = 1;

#[derive(Debug, Clone, Copy, PartialEq, Eq, Structural)]
pub enum NtsKeType {
    EndOfMessage,
    NextProtocolNegotiation,
    Error,
    Warning,
    AEADAlgorithmNegotiation,
    NewCookie,
    ServerNegotiation,
    PortNegotiation,
}

/// One NTS-KE record.
#[derive(Debug, Clone)]
pub struct NtsKeRecord {
    pub critical: bool,
    pub record_type: NtsKeType,
    pub contents: Vec<u8>,
}

/// A record as a value: critical bit, type, contents.
pub type RecordModel = (bool, NtsKeType, Seq<u8>);

impl NtsKeRecord {
    pub open spec fn model(&self) -> RecordModel {
        (self.critical, self.record_type, self.contents@)
    }
}

/// Why bytes do not give a record.
#[derive(Debug, Clone, Copy, PartialEq, Eq, Structural)]
pub enum DeserializeError {
    /// This many more bytes are needed before a record can be read.
    TooShort(usize),
    /// A critical record of a type that is not known.
    UnknownCriticalRecord(u16),
}

pub open spec fn ke_type_code(t: NtsKeType) -> u16 {
    match t {
        NtsKeType::EndOfMessage => 0,
        NtsKeType::NextProtocolNegotiation => 1,
        NtsKeType::Error => 2,
        NtsKeType::Warning => 3,
        NtsKeType::AEADAlgorithmNegotiation => 4,
        NtsKeType::NewCookie => 5,
        NtsKeType::ServerNegotiation => 6,
        NtsKeType::PortNegotiation => 7,
    }
}

pub open spec fn ke_type_of(code: u16) -> Option<NtsKeType> {
    if code == 0 {
        Some(NtsKeType::EndOfMessage)
    } else if code == 1 {
        Some(NtsKeType::NextProtocolNegotiation)
    } else if code == 2 {
        Some(NtsKeType::Error)
    } else if code == 3 {
        Some(NtsKeType::Warning)
    } else if code == 4 {
        Some(NtsKeType::AEADAlgorithmNegotiation)
    } else if code == 5 {
        Some(NtsKeType::NewCookie)
    } else if code == 6 {
        Some(NtsKeType::ServerNegotiation)
    } else if code == 7 {
        Some(NtsKeType::PortNegotiation)
    } else {
        None
    }
}

fn type_code(t: NtsKeType) -> (r: u16)
    ensures
        r == ke_type_code(t),
{
    match t {
        NtsKeType::EndOfMessage => 0,
        NtsKeType::NextProtocolNegotiation => 1,
        NtsKeType::Error => 2,
        NtsKeType::Warning => 3,
        NtsKeType::AEADAlgorithmNegotiation => 4,
        NtsKeType::NewCookie => 5,
        NtsKeType::ServerNegotiation => 6,
        NtsKeType::PortNegotiation => 7,
    }
}

fn type_of_code(code: u16) -> (r: Option<NtsKeType>)
    ensures
        r == ke_type_of(code),
{
    if code == 0 {
        Some(NtsKeType::EndOfMessage)
    } else if code == 1 {
        Some(NtsKeType::NextProtocolNegotiation)
    } else if code == 2 {
        Some(NtsKeType::Error)
    } else if code == 3 {
        Some(NtsKeType::Warning)
    } else if code == 4 {
        Some(NtsKeType::AEADAlgorithmNegotiation)
    } else if code == 5 {
        Some(NtsKeType::NewCookie)
    } else if code == 6 {
        Some(NtsKeType::ServerNegotiation)
    } else if code == 7 {
        Some(NtsKeType::PortNegotiation)
    } else {
        None
    }
}

/// A record on the wire: the critical bit and the 15-bit type, the length,
/// the contents.
pub open spec fn record_bytes(r: RecordModel) -> Seq<u8> {
    let t = ke_type_code(r.1);
    let hi = ((t >> 8u16) as u8) & 0x7fu8;
    seq![if r.0 { hi | 0x80u8 } else { hi }, t as u8] + be16(r.2.len() as u16) + r.2
}

/// What the front of `s` gives: a record and the bytes it spans; no record
/// (but its span) for a non-critical record of an unknown type; or an error.
pub open spec fn deserialize_spec(s: Seq<u8>) -> Result<(Option<RecordModel>, nat), DeserializeError> {
    if s.len() < 4 {
        Err(DeserializeError::TooShort((4 - s.len()) as usize))
    } else {
        let critical = s[0] & 0x80u8 != 0;
        let code = u16_at(s, 0) & 0x7fffu16;
        let len = u16_at(s, 2) as nat;
        if s.len() < 4 + len {
            Err(DeserializeError::TooShort((4 + len - s.len()) as usize))
        } else {
            match ke_type_of(code) {
                None => if critical {
                    Err(DeserializeError::UnknownCriticalRecord(code))
                } else {
                    Ok((None, 4 + len))
                },
                Some(t) => Ok((Some((critical, t, s.subrange(4, 4 + len as int))), 4 + len)),
            }
        }
    }
}

/// The wire form of a record.
pub fn serialize_record(rec: &NtsKeRecord) -> (r: Vec<u8>)
    requires
        rec.contents@.len() <= 0xffff,
    ensures
        r@ == record_bytes(rec.model()),
{
    let t = type_code(rec.record_type);
    let hi = ((t >> 8u16) as u8) & 0x7fu8;
    let mut buf: Vec<u8> = Vec::new();
    buf.push(if rec.critical { hi | 0x80u8 } else { hi });
    buf.push(t as u8);
    push_u16(&mut buf, rec.contents.len() as u16);
    push_all(&mut buf, rec.contents.as_slice());
    assert(buf@ =~= record_bytes(rec.model()));
    buf
}

/// Reads the record at the front of `bytes`.
pub fn deserialize_record(bytes: &[u8]) -> (r: Result<(Option<NtsKeRecord>, usize), DeserializeError>)
    ensures
        match deserialize_spec(bytes@) {
            Err(e) => r == Err::<(Option<NtsKeRecord>, usize), DeserializeError>(e),
            Ok((m, n)) => r.is_ok() && r.unwrap().1 == n && match r.unwrap().0 {
                None => m.is_none(),
                Some(rec) => m == Some(rec.model()),
            },
        },
{
    let n = bytes.len();
    if n < 4 {
        return Err(DeserializeError::TooShort(4 - n));
    }
    let critical = bytes[0] & 0x80u8 != 0;
    let code = read_u16(bytes, 0) & 0x7fffu16;
    let len = read_u16(bytes, 2) as usize;
    if n < 4 + len {
        return Err(DeserializeError::TooShort(4 + len - n));
    }
    match type_of_code(code) {
        None => if critical {
            Err(DeserializeError::UnknownCriticalRecord(code))
        } else {
            Ok((None, 4 + len))
        },
        Some(t) => {
            let contents = copy_range(bytes, 4, 4 + len);
            Ok((Some(NtsKeRecord { critical, record_type: t, contents }), 4 + len))
        },
    }
}

/// A record of a known type reads back from its wire form, whatever follows it.
pub proof fn lemma_record_round_trip(r: RecordModel, rest: Seq<u8>)
    requires
        r.2.len() <= 0xffff,
    ensures
        deserialize_spec(record_bytes(r) + rest) == Ok::<
            (Option<RecordModel>, nat),
            DeserializeError,
        >((Some(r), 4 + r.2.len())),
{
    let s = record_bytes(r) + rest;
    let t = ke_type_code(r.1);
    let hi = ((t >> 8u16) as u8) & 0x7fu8;
    let b0: u8 = if r.0 { hi | 0x80u8 } else { hi };
    let b1 = t as u8;
    assert(s[0] == b0 && s[1] == b1);
    assert(t <= 7);
    assert(((((b0 as u16) << 8u16) | (b1 as u16)) & 0x7fffu16) == t) by (bit_vector)
        requires
            t <= 7,
            hi == ((t >> 8u16) as u8) & 0x7fu8,
            b0 == hi | 0x80u8 || b0 == hi,
            b1 == t as u8,
    ;
    assert((b0 & 0x80u8 != 0) == r.0) by {
        if r.0 {
            assert((hi | 0x80u8) & 0x80u8 != 0) by (bit_vector);
        } else {
            assert(hi & 0x80u8 == 0) by (bit_vector)
                requires hi == ((t >> 8u16) as u8) & 0x7fu8;
        }
    }
    lemma_u16_round_trip(r.2.len() as u16);
    assert(u16_at(s, 2) == u16_at(be16(r.2.len() as u16), 0));
    assert(s.subrange(4, 4 + r.2.len() as int) =~= r.2);
}

/// The big-endian 16-bit values that `c` holds, or nothing if its length is odd.
pub open spec fn u16s_spec(c: Seq<u8>) -> Option<Seq<u16>> {
    if c.len() % 2 != 0 {
        None
    } else {
        Some(Seq::new(c.len() / 2, |i: int| u16_at(c, 2 * i)))
    }
}

fn extract_u16s(c: &Vec<u8>) -> (r: Option<Vec<u16>>)
    ensures
        match u16s_spec(c@) {
            None => r.is_none(),
            Some(v) => r.is_some() && r.unwrap()@ == v,
        },
{
    let n = c.len();
    if n % 2 != 0 {
        return None;
    }
    let mut v: Vec<u16> = Vec::new();
    let mut i: usize = 0;
    while i < n / 2
        invariant
            n == c@.len(),
            n % 2 == 0,
            i <= n / 2,
            v@ =~= Seq::new(i as nat, |j: int| u16_at(c@, 2 * j)),
        decreases n / 2 - i,
    {
        v.push(read_u16(c.as_slice(), 2 * i));
        i = i + 1;
    }
    Some(v)
}

/// The protocol identifiers of a next-protocol record.
pub fn extract_protos(rec: &NtsKeRecord) -> (r: Option<Vec<u16>>)
    ensures
        match u16s_spec(rec.contents@) {
            None => r.is_none(),
            Some(v) => r.is_some() && r.unwrap()@ == v,
        },
{
    extract_u16s(&rec.contents)
}

/// The algorithm identifiers of an AEAD negotiation record.
pub fn extract_aead(rec: &NtsKeRecord) -> (r: Option<Vec<u16>>)
    ensures
        match u16s_spec(rec.contents@) {
            None => r.is_none(),
            Some(v) => r.is_some() && r.unwrap()@ == v,
        },
{
    extract_u16s(&rec.contents)
}

/// The port of a port negotiation record, which holds exactly one.
pub fn extract_port(rec: &NtsKeRecord) -> (r: Option<u16>)
    ensures
        rec.contents@.len() == 2 ==> r == Some(u16_at(rec.contents@, 0)),
        rec.contents@.len() != 2 ==> r.is_none(),
{
    if rec.contents.len() != 2 {
        None
    } else {
        Some(read_u16(rec.contents.as_slice(), 0))
    }
}

/// The context of the TLS exporter for one direction: next protocol, AEAD
/// algorithm, direction byte.
pub fn exporter_context(next_proto: u16, aead: u16, direction: u8) -> (r: Vec<u8>)
    ensures
        r@ == be16(next_proto) + be16(aead) + seq![direction],
{
    let mut c: Vec<u8> = Vec::new();
    push_u16(&mut c, next_proto);
    push_u16(&mut c, aead);
    c.push(direction);
    c
}

/// Records one after the other on the wire.
pub open spec fn records_bytes(rs: Seq<RecordModel>) -> Seq<u8>
    decreases rs.len(),
{
    if rs.len() == 0 {
        Seq::empty()
    } else {
        records_bytes(rs.drop_last()) + record_bytes(rs.last())
    }
}

/// Whether some record of type `t` among `rs` holds whole 16-bit values, one
/// of them `v`.
pub open spec fn proposes(rs: Seq<RecordModel>, t: NtsKeType, v: u16) -> bool {
    exists|i: int|
        0 <= i < rs.len() && (#[trigger] rs[i]).1 == t && u16s_spec(rs[i].2).is_some() && u16s_spec(
            rs[i].2,
        ).unwrap().contains(v)
}

pub open spec fn records_model(rs: Seq<NtsKeRecord>) -> Seq<RecordModel> {
    rs.map_values(|r: NtsKeRecord| r.model())
}

fn contains_u16(v: &Vec<u16>, x: u16) -> (r: bool)
    ensures
        r == v@.contains(x),
{
    let mut i: usize = 0;
    while i < v.len()
        invariant
            i <= v@.len(),
            forall|j: int| 0 <= j < i ==> v@[j] != x,
        decreases v@.len() - i,
    {
        if v[i] == x {
            return true;
        }
        i = i + 1;
    }
    false
}

fn proposes_exec(records: &Vec<NtsKeRecord>, t: NtsKeType, x: u16) -> (r: bool)
    ensures
        r == proposes(records_model(records@), t, x),
{
    let ghost m = records_model(records@);
    let mut i: usize = 0;
    while i < records.len()
        invariant
            i <= records@.len(),
            m == records_model(records@),
            forall|j: int|
                0 <= j < i ==> !((#[trigger] m[j]).1 == t && u16s_spec(m[j].2).is_some() && u16s_spec(
                    m[j].2,
                ).unwrap().contains(x)),
        decreases records@.len() - i,
    {
        let rec = &records[i];
        if rec.record_type == t {
            match extract_u16s(&rec.contents) {
                Some(v) => {
                    if contains_u16(&v, x) {
                        assert(m[i as int] == rec.model());
                        return true;
                    }
                },
                None => {},
            }
        }
        i = i + 1;
    }
    false
}

/// Whether a client's request can be served: it proposes NTPv4 as next
/// protocol and AES-SIV-CMAC-256 as AEAD algorithm.
pub fn request_acceptable(records: &Vec<NtsKeRecord>) -> (r: bool)
    ensures
        r == (proposes(records_model(records@), NtsKeType::NextProtocolNegotiation, NTP_V4_PROTOCOL)
            && proposes(
            records_model(records@),
            NtsKeType::AEADAlgorithmNegotiation,
            AES_SIV_CMAC_256,
        )),
{
    proposes_exec(records, NtsKeType::NextProtocolNegotiation, NTP_V4_PROTOCOL) && proposes_exec(
        records,
        NtsKeType::AEADAlgorithmNegotiation,
        AES_SIV_CMAC_256,
    )
}

/// The records of the server's answer: NTPv4, AES-SIV-CMAC-256, the port and
/// the server if they are advertised, one record per cookie, and the end of
/// the message.
pub open spec fn response_records(
    cookies: Seq<Seq<u8>>,
    next_port: Option<u16>,
    next_server: Option<Seq<u8>>,
) -> Seq<RecordModel> {
    let head = seq![
        (true, NtsKeType::NextProtocolNegotiation, be16(NTP_V4_PROTOCOL)),
        (true, NtsKeType::AEADAlgorithmNegotiation, be16(AES_SIV_CMAC_256)),
    ];
    let with_port = match next_port {
        None => head,
        Some(p) => head.push((true, NtsKeType::PortNegotiation, be16(p))),
    };
    let with_server = match next_server {
        None => with_port,
        Some(h) => with_port.push((true, NtsKeType::ServerNegotiation, h)),
    };
    with_server + cookies.map_values(|c: Seq<u8>| (false, NtsKeType::NewCookie, c)) + seq![
        (true, NtsKeType::EndOfMessage, Seq::empty()),
    ]
}

fn push_record(out: &mut Vec<u8>, rec: &NtsKeRecord, Ghost(done): Ghost<Seq<RecordModel>>)
    requires
        rec.contents@.len() <= 0xffff,
        old(out)@ == records_bytes(done),
    ensures
        final(out)@ == records_bytes(done.push(rec.model())),
{
    let b = serialize_record(rec);
    push_all(out, b.as_slice());
    assert(done.push(rec.model()).drop_last() =~= done);
}

fn u16_record(critical: bool, t: NtsKeType, v: u16) -> (r: NtsKeRecord)
    ensures
        r.model() == (critical, t, be16(v)),
{
    let mut c: Vec<u8> = Vec::new();
    push_u16(&mut c, v);
    assert(c@ =~= be16(v));
    NtsKeRecord { critical, record_type: t, contents: c }
}

/// The wire form of the server's answer, carrying `cookies`.
pub fn ke_response(cookies: &Vec<Vec<u8>>, next_port: Option<u16>, next_server: &Option<Vec<u8>>) -> (r: Vec<u8>)
    requires
        forall|i: int| 0 <= i < cookies@.len() ==> (#[trigger] cookies@[i])@.len() <= 0xffff,
        next_server.is_some() ==> next_server.unwrap()@.len() <= 0xffff,
    ensures
        r@ == records_bytes(
            response_records(
                cookies@.map_values(|c: Vec<u8>| c@),
                next_port,
                server_model(next_server),
            ),
        ),
{
    let ghost cm = cookies@.map_values(|c: Vec<u8>| c@);
    let mut out: Vec<u8> = Vec::new();
    let ghost mut done: Seq<RecordModel> = Seq::empty();
    let np = u16_record(true, NtsKeType::NextProtocolNegotiation, NTP_V4_PROTOCOL);
    push_record(&mut out, &np, Ghost(done));
    proof { done = done.push(np.model()); }
    let ae = u16_record(true, NtsKeType::AEADAlgorithmNegotiation, AES_SIV_CMAC_256);
    push_record(&mut out, &ae, Ghost(done));
    proof { done = done.push(ae.model()); }
    match next_port {
        Some(p) => {
            let pr = u16_record(true, NtsKeType::PortNegotiation, p);
            push_record(&mut out, &pr, Ghost(done));
            proof { done = done.push(pr.model()); }
        },
        None => {},
    }
    match next_server {
        Some(h) => {
            let sr = NtsKeRecord {
                critical: true,
                record_type: NtsKeType::ServerNegotiation,
                contents: h.clone(),
            };
            push_record(&mut out, &sr, Ghost(done));
            proof { done = done.push(sr.model()); }
        },
        None => {},
    }
    let ghost with_port = done;
    let mut i: usize = 0;
    while i < cookies.len()
        invariant
            i <= cookies@.len(),
            cm == cookies@.map_values(|c: Vec<u8>| c@),
            forall|j: int| 0 <= j < cookies@.len() ==> (#[trigger] cookies@[j])@.len() <= 0xffff,
            done == with_port + cm.subrange(0, i as int).map_values(
                |c: Seq<u8>| (false, NtsKeType::NewCookie, c),
            ),
            out@ == records_bytes(done),
        decreases cookies@.len() - i,
    {
        let rec = NtsKeRecord {
            critical: false,
            record_type: NtsKeType::NewCookie,
            contents: cookies[i].clone(),
        };
        push_record(&mut out, &rec, Ghost(done));
        proof {
            let f = |c: Seq<u8>| (false, NtsKeType::NewCookie, c);
            assert(cm.subrange(0, i + 1).map_values(f) =~= cm.subrange(0, i as int).map_values(f).push(
                rec.model(),
            ));
            done = done.push(rec.model());
            assert(done =~= with_port + cm.subrange(0, i + 1).map_values(f));
        }
        i = i + 1;
    }
    let end = NtsKeRecord { critical: true, record_type: NtsKeType::EndOfMessage, contents: Vec::new() };
    push_record(&mut out, &end, Ghost(done));
    proof {
        assert(end.contents@ =~= Seq::<u8>::empty());
        assert(cm.subrange(0, i as int) =~= cm);
        assert(done.push(end.model()) =~= response_records(cm, next_port, server_model(next_server)));
    }
    out
}

pub open spec fn server_model(next_server: &Option<Vec<u8>>) -> Option<Seq<u8>> {
    match next_server {
        None => None,
        Some(h) => Some(h@),
    }
}

/// The records of the answer to a request that cannot be served.
pub open spec fn error_records() -> Seq<RecordModel> {
    seq![(true, NtsKeType::Error, be16(1u16)), (true, NtsKeType::EndOfMessage, Seq::empty())]
}

/// Every one of `cookies` is minted under the current master key of `rk`,
/// names it, and opens to `keys`.
pub open spec fn minted_for(cookies: Seq<Seq<u8>>, keys: (Seq<u8>, Seq<u8>), rk: RotatingKeys) -> bool {
    forall|i: int|
        0 <= i < cookies.len() ==> {
            &&& (#[trigger] cookies[i]).len() == COOKIE_SIZE
            &&& key_id_spec(cookies[i]) == Some(epoch_id(rk.latest))
            &&& eat_cookie_spec(cookies[i], derived_key(rk.master_key@, rk.latest)) == Some(keys)
        }
}

/// The server's answer to one connection whose records are `records` and
/// whose exported session keys are `keys`: the error answer if the request
/// does not propose NTPv4 and AES-SIV-CMAC-256; otherwise `count` fresh
/// cookies under the current master key, with the port and server advertised.
pub fn ke_server_reply(
    records: &Vec<NtsKeRecord>,
    keys: &NTSKeys,
    rk: &RotatingKeys,
    count: usize,
    next_port: Option<u16>,
    next_server: &Option<Vec<u8>>,
) -> (r: Vec<u8>)
    requires
        keys.wf(),
        rk.wf(),
        next_server.is_some() ==> next_server.unwrap()@.len() <= 0xffff,
    ensures
        !(proposes(records_model(records@), NtsKeType::NextProtocolNegotiation, NTP_V4_PROTOCOL)
            && proposes(records_model(records@), NtsKeType::AEADAlgorithmNegotiation, AES_SIV_CMAC_256))
            ==> r@ == records_bytes(error_records()),
        (proposes(records_model(records@), NtsKeType::NextProtocolNegotiation, NTP_V4_PROTOCOL)
            && proposes(records_model(records@), NtsKeType::AEADAlgorithmNegotiation, AES_SIV_CMAC_256))
            ==> exists|cookies: Seq<Seq<u8>>|
            #![trigger minted_for(cookies, keys.model(), *rk)]
            cookies.len() == count && minted_for(cookies, keys.model(), *rk) && r@ == records_bytes(
                response_records(cookies, next_port, server_model(next_server)),
            ),
{
    if !request_acceptable(records) {
        return ke_error_response();
    }
    let (id, key) = rk.latest();
    let mut cookies: Vec<Vec<u8>> = Vec::new();
    let mut i: usize = 0;
    while i < count
        invariant
            i <= count,
            keys.wf(),
            id@ == epoch_id(rk.latest),
            id@.len() == 8,
            key@ == derived_key(rk.master_key@, rk.latest),
            key@.len() == 32,
            cookies@.len() == i,
            minted_for(cookies@.map_values(|c: Vec<u8>| c@), keys.model(), *rk),
        decreases count - i,
    {
        let c = make_cookie(keys, key.as_slice(), id.as_slice());
        let ghost before = cookies@.map_values(|c: Vec<u8>| c@);
        cookies.push(c);
        proof {
            let m = cookies@.map_values(|c: Vec<u8>| c@);
            assert(m =~= before.push(c@));
            assert forall|j: int| 0 <= j < m.len() implies {
                &&& (#[trigger] m[j]).len() == COOKIE_SIZE
                &&& key_id_spec(m[j]) == Some(epoch_id(rk.latest))
                &&& eat_cookie_spec(m[j], derived_key(rk.master_key@, rk.latest)) == Some(keys.model())
            } by {
                if j < before.len() {
                    assert(m[j] == before[j]);
                }
            }
        }
        i = i + 1;
    }
    proof {
        let m = cookies@.map_values(|c: Vec<u8>| c@);
        assert forall|j: int| 0 <= j < cookies@.len() implies (#[trigger] cookies@[j])@.len()
            <= 0xffff by {
            assert(m[j] == cookies@[j]@);
        }
    }
    let r = ke_response(&cookies, next_port, next_server);
    proof {
        let m = cookies@.map_values(|c: Vec<u8>| c@);
        assert(minted_for(m, keys.model(), *rk));
    }
    r
}

/// The server's answer to a request it cannot serve: an error record (bad
/// request) and the end of the message.
pub fn ke_error_response() -> (r: Vec<u8>)
    ensures
        r@ == records_bytes(error_records()),
{
    let mut out: Vec<u8> = Vec::new();
    let er = u16_record(true, NtsKeType::Error, 1);
    push_record(&mut out, &er, Ghost(Seq::empty()));
    let end = NtsKeRecord { critical: true, record_type: NtsKeType::EndOfMessage, contents: Vec::new() };
    let ghost d1 = seq![er.model()];
    push_record(&mut out, &end, Ghost(d1));
    proof {
        assert(Seq::<RecordModel>::empty().push(er.model()) =~= seq![er.model()]);
        assert(end.contents@ =~= Seq::<u8>::empty());
        assert(seq![er.model()].push(end.model()) =~= seq![
            (true, NtsKeType::Error, be16(1u16)),
            (true, NtsKeType::EndOfMessage, Seq::empty()),
        ]);
    }
    out
}

} // verus!
