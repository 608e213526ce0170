//! The NTS-KE client: the request it sends, and how each record of the
//! server's response changes what it has learned.
use vstd::prelude::*;
use crate::cookie::NTSKeys;
use crate::nts_ke::{
    deserialize_record, deserialize_spec, extract_aead, extract_port, extract_protos, record_bytes,
    serialize_record, u16s_spec, DeserializeError,
    NtsKeRecord, NtsKeType, RecordModel, DEFAULT_NTP_PORT, DEFAULT_SCHEME,
};
use crate::wire::{push_all, u16_at};

verus! {

/// What the client has learned so far from the server's records.
#[derive(Debug, Clone)]
pub struct ClientState {
    pub finished: bool,
    pub cookies: Vec<Vec<u8>>,
    pub next_protocols: Vec<u16>,
    pub aead_scheme: u16,
    pub next_port: u16,
    pub next_server: String,
    pub keys: NTSKeys,
}

/// What a finished exchange gives the NTP client.
#[derive(Debug, Clone)]
pub struct NtsKeResult {
    pub cookies: Vec<Vec<u8>>,
    pub next_protocols: Vec<u16>,
    pub aead_scheme: u16,
    pub next_server: String,
    pub next_port: u16,
    pub keys: NTSKeys,
    pub use_ipv4: Option<bool>,
}

#[derive(Debug, Clone, Copy, PartialEq, Eq, Structural)]
pub enum ClientError {
    RecordAfterEnd,
    ErrorRecord,
    InvalidRecord,
    NoIpv4AddrFound,
    NoIpv6AddrFound,
}

/// The part of the state that records change: finished, cookies, next
/// protocols, AEAD scheme, next port.
pub type ClientModel = (bool, Seq<Seq<u8>>, Seq<u16>, u16, u16);

impl ClientState {
    pub open spec fn model(&self) -> ClientModel {
        (
            self.finished,
            self.cookies@.map_values(|c: Vec<u8>| c@),
            self.next_protocols@,
            self.aead_scheme,
            self.next_port,
        )
    }
}

/// What one record does to the state: nothing may follow the end of the
/// message, which must be critical and empty; an error record aborts; a warning or a server negotiation is
/// ignored; an AEAD record must name exactly one algorithm; a next-protocol
/// record must hold whole 16-bit values and a port record exactly one.
pub open spec fn process_spec(rec: RecordModel, s: ClientModel) -> Result<ClientModel, ClientError> {
    if s.0 {
        Err(ClientError::RecordAfterEnd)
    } else {
        match rec.1 {
            NtsKeType::EndOfMessage => if !rec.0 || rec.2.len() != 0 {
                Err(ClientError::InvalidRecord)
            } else {
                Ok((true, s.1, s.2, s.3, s.4))
            },
            NtsKeType::NextProtocolNegotiation => match u16s_spec(rec.2) {
                None => Err(ClientError::InvalidRecord),
                Some(v) => Ok((s.0, s.1, v, s.3, s.4)),
            },
            NtsKeType::Error => Err(ClientError::ErrorRecord),
            NtsKeType::Warning => Ok(s),
            NtsKeType::AEADAlgorithmNegotiation => match u16s_spec(rec.2) {
                None => Err(ClientError::InvalidRecord),
                Some(v) => if v.len() != 1 {
                    Err(ClientError::InvalidRecord)
                } else {
                    Ok((s.0, s.1, s.2, v[0], s.4))
                },
            },
            NtsKeType::NewCookie => Ok((s.0, s.1.push(rec.2), s.2, s.3, s.4)),
            NtsKeType::ServerNegotiation => Ok(s),
            NtsKeType::PortNegotiation => if rec.2.len() != 2 {
                Err(ClientError::InvalidRecord)
            } else {
                Ok((s.0, s.1, s.2, s.3, u16_at(rec.2, 0)))
            },
        }
    }
}

/// Applies one record of the server's response to the state; on an error the
/// state is left as it was.
pub fn process_record(rec: NtsKeRecord, state: &mut ClientState) -> (r: Result<(), ClientError>)
    ensures
        match process_spec(rec.model(), old(state).model()) {
            Err(e) => r == Err::<(), ClientError>(e) && final(state).model() == old(state).model(),
            Ok(m) => r.is_ok() && final(state).model() == m,
        },
        final(state).next_server@ == old(state).next_server@,
        final(state).keys.model() == old(state).keys.model(),
{
    if state.finished {
        return Err(ClientError::RecordAfterEnd);
    }
    match rec.record_type {
        NtsKeType::EndOfMessage => {
            if !rec.critical || rec.contents.len() != 0 {
                return Err(ClientError::InvalidRecord);
            }
            state.finished = true;
        },
        NtsKeType::NextProtocolNegotiation => match extract_protos(&rec) {
            None => return Err(ClientError::InvalidRecord),
            Some(v) => {
                state.next_protocols = v;
            },
        },
        NtsKeType::Error => return Err(ClientError::ErrorRecord),
        NtsKeType::Warning => {},
        NtsKeType::AEADAlgorithmNegotiation => match extract_aead(&rec) {
            None => return Err(ClientError::InvalidRecord),
            Some(v) => {
                if v.len() != 1 {
                    return Err(ClientError::InvalidRecord);
                }
                state.aead_scheme = v[0];
            },
        },
        NtsKeType::NewCookie => {
            let ghost before = state.cookies@;
            state.cookies.push(rec.contents);
            assert(state.cookies@.map_values(|c: Vec<u8>| c@) =~= before.map_values(
                |c: Vec<u8>| c@,
            ).push(rec.contents@));
        },
        NtsKeType::ServerNegotiation => {},
        NtsKeType::PortNegotiation => match extract_port(&rec) {
            None => return Err(ClientError::InvalidRecord),
            Some(p) => {
                state.next_port = p;
            },
        },
    }
    Ok(())
}

/// The records a client sends: NTPv4 as next protocol (critical),
/// AES-SIV-CMAC-256 as AEAD algorithm, and the end of the message.
pub open spec fn client_request_spec() -> Seq<u8> {
    record_bytes((true, NtsKeType::NextProtocolNegotiation, seq![0u8, 0u8])) + record_bytes(
        (false, NtsKeType::AEADAlgorithmNegotiation, seq![0u8, 15u8]),
    ) + record_bytes((true, NtsKeType::EndOfMessage, Seq::empty()))
}

/// The wire form of the client's request.
pub fn client_request() -> (r: Vec<u8>)
    ensures
        r@ == client_request_spec(),
{
    let next_proto = NtsKeRecord {
        critical: true,
        record_type: NtsKeType::NextProtocolNegotiation,
        contents: vec![0u8, 0u8],
    };
    let aead_rec = NtsKeRecord {
        critical: false,
        record_type: NtsKeType::AEADAlgorithmNegotiation,
        contents: vec![0u8, 15u8],
    };
    let end_rec = NtsKeRecord {
        critical: true,
        record_type: NtsKeType::EndOfMessage,
        contents: Vec::new(),
    };
    let mut out = serialize_record(&next_proto);
    let b = serialize_record(&aead_rec);
    let c = serialize_record(&end_rec);
    push_all(&mut out, b.as_slice());
    push_all(&mut out, c.as_slice());
    assert(next_proto.contents@ =~= seq![0u8, 0u8]);
    assert(aead_rec.contents@ =~= seq![0u8, 15u8]);
    assert(end_rec.contents@ =~= Seq::<u8>::empty());
    out
}

/// The state of a client that has sent its request to `host`, with the keys
/// exported from the TLS session.
pub fn initial_state(host: String, keys: NTSKeys) -> (r: ClientState)
    ensures
        r.model() == (
            false,
            Seq::<Seq<u8>>::empty(),
            Seq::<u16>::empty(),
            DEFAULT_SCHEME,
            DEFAULT_NTP_PORT,
        ),
        r.next_server@ == host@,
        r.keys.model() == keys.model(),
{
    let r = ClientState {
        finished: false,
        cookies: Vec::new(),
        next_protocols: Vec::new(),
        next_server: host,
        next_port: DEFAULT_NTP_PORT,
        keys,
        aead_scheme: DEFAULT_SCHEME,
    };
    assert(r.cookies@.map_values(|c: Vec<u8>| c@) =~= Seq::<Seq<u8>>::empty());
    r
}

/// What reading the front of the received bytes led to.
#[derive(Debug, Clone, Copy, PartialEq, Eq, Structural)]
pub enum ReadStep {
    /// A record spanning this many bytes was read and applied, or skipped.
    Consumed(usize),
    /// This many more bytes are needed before the next record can be read.
    NeedMore(usize),
}

/// Why the exchange stops.
#[derive(Debug, Clone, Copy, PartialEq, Eq, Structural)]
pub enum StepError {
    Record(DeserializeError),
    Client(ClientError),
}

/// Reads the record at the front of `buf` and applies it: a record that is
/// incomplete asks for more bytes, a non-critical record of an unknown type
/// is skipped, a bad record or a record the state refuses ends the exchange.
/// The state changes only when a record is applied.
pub fn client_step(buf: &[u8], state: &mut ClientState) -> (r: Result<ReadStep, StepError>)
    ensures
        final(state).next_server@ == old(state).next_server@,
        final(state).keys.model() == old(state).keys.model(),
        match deserialize_spec(buf@) {
            Err(DeserializeError::TooShort(n)) => r == Ok::<ReadStep, StepError>(
                ReadStep::NeedMore(n),
            ) && final(state).model() == old(state).model(),
            Err(e) => r == Err::<ReadStep, StepError>(StepError::Record(e)) && final(state).model()
                == old(state).model(),
            Ok((None, n)) => r == Ok::<ReadStep, StepError>(ReadStep::Consumed(n as usize))
                && final(state).model() == old(state).model(),
            Ok((Some(rec), n)) => match process_spec(rec, old(state).model()) {
                Err(e) => r == Err::<ReadStep, StepError>(StepError::Client(e))
                    && final(state).model() == old(state).model(),
                Ok(m) => r == Ok::<ReadStep, StepError>(ReadStep::Consumed(n as usize))
                    && final(state).model() == m,
            },
        },
{
    match deserialize_record(buf) {
        Err(DeserializeError::TooShort(n)) => Ok(ReadStep::NeedMore(n)),
        Err(e) => Err(StepError::Record(e)),
        Ok((None, n)) => Ok(ReadStep::Consumed(n)),
        Ok((Some(rec), n)) => match process_record(rec, state) {
            Err(e) => Err(StepError::Client(e)),
            Ok(()) => Ok(ReadStep::Consumed(n)),
        },
    }
}

/// Which of the resolved addresses (given by whether each is IPv4) to
/// connect to: with a preference, the first of that family, or
/// `NoIpv4AddrFound` / `NoIpv6AddrFound` if there is none; without one, the
/// first address, if any.
pub fn select_address(is_ipv4: &Vec<bool>, use_ipv4: Option<bool>) -> (r: Result<Option<usize>, ClientError>)
    ensures
        match use_ipv4 {
            None => r == Ok::<Option<usize>, ClientError>(
                if is_ipv4@.len() == 0 { None } else { Some(0usize) },
            ),
            Some(want) => match r {
                Ok(Some(i)) => i < is_ipv4@.len() && is_ipv4@[i as int] == want && forall|j: int|
                    0 <= j < i ==> is_ipv4@[j] != want,
                Ok(None) => false,
                Err(e) => e == (if want { ClientError::NoIpv4AddrFound } else { ClientError::NoIpv6AddrFound })
                    && forall|j: int| 0 <= j < is_ipv4@.len() ==> is_ipv4@[j] != want,
            },
        },
{
    match use_ipv4 {
        None => if is_ipv4.len() == 0 {
            Ok(None)
        } else {
            Ok(Some(0))
        },
        Some(want) => {
            let mut i: usize = 0;
            while i < is_ipv4.len()
                invariant
                    use_ipv4 == Some(want),
                    i <= is_ipv4@.len(),
                    forall|j: int| 0 <= j < i ==> is_ipv4@[j] != want,
                decreases is_ipv4@.len() - i,
            {
                if is_ipv4[i] == want {
                    return Ok(Some(i));
                }
                i = i + 1;
            }
            if want {
                Err(ClientError::NoIpv4AddrFound)
            } else {
                Err(ClientError::NoIpv6AddrFound)
            }
        },
    }
}

} // verus!
