//! Cookies: the two session keys sealed under a master key, behind the
//! master key's identifier.
use vstd::prelude::*;
use crate::aead::{open, random_bytes, seal, siv_open, siv_seal};
use crate::wire::{copy_range, push_all};

verus! {

/// Length of a key identifier at the front of a cookie.
pub const KEY_ID_LEN: usize = 8;

/// Length of the nonce after the key identifier.
pub const COOKIE_NONCE_LEN: usize = 16;

/// Length of each directional session key.
pub const NTS_KEY_LEN: usize = 32;

/// Length of every cookie: key identifier, nonce, and the sealed pair of
/// session keys with its 16-byte tag.
pub const COOKIE_SIZE: usize = 104;

/// The session keys of one association: client to server and server to client.
#[derive(Debug, Clone)]
pub struct NTSKeys {
    pub c2s: Vec<u8>,
    pub s2c: Vec<u8>,
}

impl NTSKeys {
    /// Both keys are 32 bytes long.
    pub open spec fn wf(&self) -> bool {
        self.c2s@.len() == NTS_KEY_LEN && self.s2c@.len() == NTS_KEY_LEN
    }

    pub open spec fn model(&self) -> (Seq<u8>, Seq<u8>) {
        (self.c2s@, self.s2c@)
    }
}

/// A cookie on the wire: `key_id ‖ nonce ‖ seal(master, nonce, key_id, c2s ‖ s2c)`.
pub open spec fn cookie_bytes(
    keys: (Seq<u8>, Seq<u8>),
    master: Seq<u8>,
    key_id: Seq<u8>,
    nonce: Seq<u8>,
) -> Seq<u8> {
    key_id + nonce + siv_seal(master, nonce, key_id, keys.0 + keys.1)
}

/// The key identifier a cookie begins with.
pub open spec fn key_id_spec(cookie: Seq<u8>) -> Option<Seq<u8>> {
    if cookie.len() < KEY_ID_LEN {
        None
    } else {
        Some(cookie.subrange(0, KEY_ID_LEN as int))
    }
}

/// The session keys a cookie holds under `master`, if it has the right length
/// and its tag checks.
pub open spec fn eat_cookie_spec(cookie: Seq<u8>, master: Seq<u8>) -> Option<(Seq<u8>, Seq<u8>)> {
    if cookie.len() != COOKIE_SIZE {
        None
    } else {
        match siv_open(
            master,
            cookie.subrange(8, 24),
            cookie.subrange(0, 8),
            cookie.subrange(24, COOKIE_SIZE as int),
        ) {
            Some(pt) => if pt.len() == 64 {
                Some((pt.subrange(0, 32), pt.subrange(32, 64)))
            } else {
                None
            },
            None => None,
        }
    }
}

/// Seals `keys` under `master_key` with the given nonce. The cookie begins
/// with `key_id` and opens back to `keys` under the same master key.
pub fn make_cookie_with_nonce(keys: &NTSKeys, master_key: &[u8], key_id: &[u8], nonce: &[u8]) -> (r:
    Vec<u8>)
    requires
        keys.wf(),
        master_key@.len() == 32,
        key_id@.len() == KEY_ID_LEN,
        nonce@.len() == COOKIE_NONCE_LEN,
    ensures
        r@ == cookie_bytes(keys.model(), master_key@, key_id@, nonce@),
        r@.len() == COOKIE_SIZE,
        key_id_spec(r@) == Some(key_id@),
        eat_cookie_spec(r@, master_key@) == Some(keys.model()),
{
    let mut plaintext: Vec<u8> = Vec::new();
    push_all(&mut plaintext, keys.c2s.as_slice());
    push_all(&mut plaintext, keys.s2c.as_slice());
    let ciphertext = seal(master_key, nonce, key_id, plaintext.as_slice());
    let mut cookie: Vec<u8> = Vec::new();
    push_all(&mut cookie, key_id);
    push_all(&mut cookie, nonce);
    push_all(&mut cookie, ciphertext.as_slice());
    proof {
        let c = cookie@;
        assert(c.subrange(0, 8) =~= key_id@);
        assert(c.subrange(8, 24) =~= nonce@);
        assert(c.subrange(24, COOKIE_SIZE as int) =~= ciphertext@);
        assert(plaintext@.subrange(0, 32) =~= keys.c2s@);
        assert(plaintext@.subrange(32, 64) =~= keys.s2c@);
    }
    cookie
}

/// Seals `keys` under `master_key` with a fresh random nonce.
pub fn make_cookie(keys: &NTSKeys, master_key: &[u8], key_id: &[u8]) -> (r: Vec<u8>)
    requires
        keys.wf(),
        master_key@.len() == 32,
        key_id@.len() == KEY_ID_LEN,
    ensures
        exists|nonce: Seq<u8>|
            nonce.len() == COOKIE_NONCE_LEN && r@ == cookie_bytes(
                keys.model(),
                master_key@,
                key_id@,
                nonce,
            ),
        r@.len() == COOKIE_SIZE,
        key_id_spec(r@) == Some(key_id@),
        eat_cookie_spec(r@, master_key@) == Some(keys.model()),
{
    let nonce = random_bytes(COOKIE_NONCE_LEN);
    make_cookie_with_nonce(keys, master_key, key_id, nonce.as_slice())
}

/// The key identifier a cookie begins with, or `None` if it is shorter than one.
pub fn get_keyid(cookie: &[u8]) -> (r: Option<Vec<u8>>)
    ensures
        match key_id_spec(cookie@) {
            None => r.is_none(),
            Some(id) => r.is_some() && r.unwrap()@ == id,
        },
{
    if cookie.len() < KEY_ID_LEN {
        None
    } else {
        Some(copy_range(cookie, 0, KEY_ID_LEN))
    }
}

/// Opens a cookie under `master_key`: `None` if its length is wrong or its tag
/// does not check, the two session keys otherwise.
pub fn eat_cookie(cookie: &[u8], master_key: &[u8]) -> (r: Option<NTSKeys>)
    requires
        master_key@.len() == 32,
    ensures
        match eat_cookie_spec(cookie@, master_key@) {
            None => r.is_none(),
            Some(k) => r.is_some() && r.unwrap().model() == k && r.unwrap().wf(),
        },
{
    if cookie.len() != COOKIE_SIZE {
        return None;
    }
    let key_id = copy_range(cookie, 0, 8);
    let nonce = copy_range(cookie, 8, 24);
    let ciphertext = copy_range(cookie, 24, COOKIE_SIZE);
    match open(master_key, nonce.as_slice(), key_id.as_slice(), ciphertext.as_slice()) {
        None => None,
        Some(pt) => {
            if pt.len() != 64 {
                None
            } else {
                let c2s = copy_range(pt.as_slice(), 0, 32);
                let s2c = copy_range(pt.as_slice(), 32, 64);
                Some(NTSKeys { c2s, s2c })
            }
        },
    }
}

} // verus!
