use cfnts::cookie::{
    eat_cookie, get_keyid, make_cookie, make_cookie_with_nonce, NTSKeys, COOKIE_SIZE,
};
use cfnts::rotation::{derive_key, RotatingKeys};

fn keys(c: u8, s: u8) -> NTSKeys {
    NTSKeys { c2s: vec![c; 32], s2c: vec![s; 32] }
}

#[test]
fn cookie_round_trip() {
    let k = keys(1, 2);
    let master = [9u8; 32];
    let id = [0, 0, 0, 0, 0, 0, 0, 5];
    let cookie = make_cookie(&k, &master, &id);
    assert_eq!(cookie.len(), COOKIE_SIZE);
    assert_eq!(get_keyid(&cookie).unwrap(), id.to_vec());
    let back = eat_cookie(&cookie, &master).unwrap();
    assert_eq!(back.c2s, k.c2s);
    assert_eq!(back.s2c, k.s2c);
}

#[test]
fn cookie_under_other_master_is_refused() {
    let k = keys(3, 4);
    let cookie = make_cookie(&k, &[9u8; 32], &[0u8; 8]);
    assert!(eat_cookie(&cookie, &[8u8; 32]).is_none());
}

#[test]
fn cookie_layout_and_tamper() {
    let k = keys(5, 6);
    let master = [1u8; 32];
    let id = [1, 2, 3, 4, 5, 6, 7, 8];
    let nonce = [0xabu8; 16];
    let cookie = make_cookie_with_nonce(&k, &master, &id, &nonce);
    assert_eq!(&cookie[0..8], &id[..]);
    assert_eq!(&cookie[8..24], &nonce[..]);
    assert_eq!(cookie, make_cookie_with_nonce(&k, &master, &id, &nonce));
    // the keys do not appear in clear
    assert!(cookie[24..].windows(32).all(|w| w != &k.c2s[..]));
    for i in 0..cookie.len() {
        let mut t = cookie.clone();
        t[i] ^= 1;
        assert!(eat_cookie(&t, &master).is_none());
    }
}

#[test]
fn cookie_of_wrong_length_is_refused() {
    let cookie = make_cookie(&keys(1, 1), &[0u8; 32], &[0u8; 8]);
    assert!(eat_cookie(&cookie[..COOKIE_SIZE - 1], &[0u8; 32]).is_none());
    let mut longer = cookie.clone();
    longer.push(0);
    assert!(eat_cookie(&longer, &[0u8; 32]).is_none());
}

#[test]
fn key_id_of_short_cookie_is_none() {
    assert!(get_keyid(&[1, 2, 3, 4, 5, 6, 7]).is_none());
    assert_eq!(get_keyid(&[1, 2, 3, 4, 5, 6, 7, 8, 9]).unwrap(), vec![1, 2, 3, 4, 5, 6, 7, 8]);
}

fn id_for(t: u64, duration: u64) -> Vec<u8> {
    (t / duration).to_be_bytes().to_vec()
}

#[test]
fn rotation_window_lookup() {
    let d = 3600;
    let now = 1_000 * d + 17;
    let rk = RotatingKeys::new(vec![7u8; 32], d, 2, 24, now).unwrap();
    let (id, key) = rk.latest();
    assert_eq!(id, id_for(now, d));
    assert_eq!(key.len(), 32);
    assert_eq!(rk.lookup(&id).unwrap(), key);
    assert!(rk.lookup(&id_for(now + 2 * d, d)).is_some());
    assert!(rk.lookup(&id_for(now + 3 * d, d)).is_none());
    assert!(rk.lookup(&id_for(now - 24 * d, d)).is_some());
    assert!(rk.lookup(&id_for(now - 25 * d, d)).is_none());
    assert!(rk.lookup(&[0u8; 7]).is_none());
}

#[test]
fn rotation_moves_the_window() {
    let d = 10;
    let mut rk = RotatingKeys::new(vec![1u8; 40], d, 1, 1, 100).unwrap();
    let old_id = id_for(100, d);
    let old_key = rk.lookup(&old_id).unwrap();
    rk.rotate_keys(110);
    assert_eq!(rk.lookup(&old_id).unwrap(), old_key);
    rk.rotate_keys(130);
    assert!(rk.lookup(&old_id).is_none());
    assert_eq!(rk.latest().0, id_for(130, d));
}

#[test]
fn rotation_window_clipped_at_zero() {
    let rk = RotatingKeys::new(vec![0u8; 32], 3600, 2, 24, 0).unwrap();
    assert_eq!(rk.latest().0, vec![0u8; 8]);
    assert_eq!(rk.keys.len(), 3);
}

#[test]
fn derivation_is_deterministic() {
    let a = RotatingKeys::new(vec![4u8; 32], 60, 2, 3, 6000).unwrap();
    let b = RotatingKeys::new(vec![4u8; 32], 60, 5, 2, 6060).unwrap();
    for e in 99u64..=102 {
        let id = e.to_be_bytes();
        assert_eq!(a.lookup(&id).unwrap(), b.lookup(&id).unwrap());
        assert_eq!(a.lookup(&id).unwrap(), derive_key(&[4u8; 32], e));
    }
    let c = RotatingKeys::new(vec![5u8; 32], 60, 2, 3, 6000).unwrap();
    assert_ne!(a.latest().1, c.latest().1);
    assert_ne!(derive_key(&[4u8; 32], 1), derive_key(&[4u8; 32], 2));
}

#[test]
fn rotation_rejects_bad_settings() {
    assert!(RotatingKeys::new(vec![0u8; 31], 3600, 2, 24, 0).is_none());
    assert!(RotatingKeys::new(vec![0u8; 32], 0, 2, 24, 0).is_none());
    assert!(RotatingKeys::new(vec![0u8; 32], 1, 2, 24, u64::MAX).is_none());
}

#[test]
fn cookies_use_fresh_nonces() {
    let k = keys(1, 2);
    let a = make_cookie(&k, &[9u8; 32], &[0u8; 8]);
    let b = make_cookie(&k, &[9u8; 32], &[0u8; 8]);
    assert_ne!(&a[8..24], &b[8..24]);
    assert_ne!(a, b);
}

#[test]
fn rotation_accepts_wide_windows() {
    let rk = RotatingKeys::new(vec![2u8; 32], 1, 70_000, 0, 0).unwrap();
    assert_eq!(rk.keys.len(), 70_001);
    assert!(rk.lookup(&70_000u64.to_be_bytes()).is_some());
    assert!(rk.lookup(&70_001u64.to_be_bytes()).is_none());
}
