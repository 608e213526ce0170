//! The rotating master keys: one key per period, derived from a root secret
//! and the period's number, kept over a window around the current period.
use vstd::prelude::*;
use vstd::arithmetic::div_mod::{lemma_div_is_ordered, lemma_hoist_over_denominator};
use crate::aead::{seal, siv_seal};
use crate::wire::{be64, copy_range, lemma_u64_round_trip, push_u64, read_u64, u64_at};

verus! {

/// The master key of period `epoch`: the AEAD, keyed with the first 32 bytes
/// of the root secret, seals 16 zero bytes with the period's big-endian number
/// as associated data. The same root secret gives the same keys everywhere.
pub open spec fn derived_key(master: Seq<u8>, epoch: u64) -> Seq<u8> {
    siv_seal(master.subrange(0, 32), Seq::empty(), be64(epoch), Seq::new(16, |j: int| 0u8))
}

/// Derives the master key of period `epoch`.
pub fn derive_key(master: &[u8], epoch: u64) -> (r: Vec<u8>)
    requires
        master@.len() >= 32,
    ensures
        r@ == derived_key(master@, epoch),
        r@.len() == 32,
{
    let key = copy_range(master, 0, 32);
    let mut id: Vec<u8> = Vec::new();
    push_u64(&mut id, epoch);
    let zeros: Vec<u8> = vec![0u8; 16];
    let empty: Vec<u8> = Vec::new();
    proof {
        assert(id@ =~= be64(epoch));
        assert(empty@ =~= Seq::<u8>::empty());
        assert(zeros@ =~= Seq::new(16, |j: int| 0u8));
    }
    seal(key.as_slice(), empty.as_slice(), id.as_slice(), zeros.as_slice())
}

/// The key identifier of period `epoch`: its number, big-endian.
pub open spec fn epoch_id(epoch: u64) -> Seq<u8> {
    be64(epoch)
}

/// The master keys over the window `[latest - backward_periods, latest +
/// forward_periods]` of periods of `duration` seconds (clipped at period 0).
#[derive(Debug)]
pub struct RotatingKeys {
    pub master_key: Vec<u8>,
    pub duration: u64,
    pub forward_periods: u64,
    pub backward_periods: u64,
    /// The current period.
    pub latest: u64,
    /// The first period of the window; `keys[i]` is the key of period `first + i`.
    pub first: u64,
    pub keys: Vec<Vec<u8>>,
}

/// The first period of the window around `e`.
pub open spec fn window_start(e: u64, backward: u64) -> u64 {
    if e >= backward {
        (e - backward) as u64
    } else {
        0
    }
}

impl RotatingKeys {
    pub open spec fn wf(&self) -> bool {
        &&& self.master_key@.len() >= 32
        &&& self.duration > 0
        &&& self.latest + self.forward_periods < u64::MAX
        &&& self.first == window_start(self.latest, self.backward_periods)
        &&& self.keys@.len() == self.latest + self.forward_periods - self.first + 1
        &&& forall|i: int|
            0 <= i < self.keys@.len() ==> (#[trigger] self.keys@[i])@ == derived_key(
                self.master_key@,
                (self.first + i) as u64,
            ) && self.keys@[i]@.len() == 32
    }

    /// The key of each period of the window.
    pub open spec fn keys_view(&self) -> Map<u64, Seq<u8>> {
        Map::new(
            |e: u64| self.first <= e && e - self.first < self.keys@.len(),
            |e: u64| self.keys@[e - self.first]@,
        )
    }

    /// What a lookup of `id` finds.
    pub open spec fn lookup_spec(&self, id: Seq<u8>) -> Option<Seq<u8>> {
        if id.len() != 8 || !self.keys_view().contains_key(u64_at(id, 0)) {
            None
        } else {
            Some(self.keys_view()[u64_at(id, 0)])
        }
    }

    /// A key schedule for the given root secret and periods, rotated to the
    /// time `now` (Unix seconds). `None` if the root secret is shorter than 32
    /// bytes, the period is zero, or the
    /// window would end past the last representable period.
    pub fn new(
        master_key: Vec<u8>,
        duration: u64,
        forward_periods: u64,
        backward_periods: u64,
        now: u64,
    ) -> (r: Option<RotatingKeys>)
        ensures
            r.is_some() <==> (master_key@.len() >= 32 && duration > 0 && forward_periods
                < u64::MAX - now / duration),
            r.is_some() ==> {
                let k = r.unwrap();
                &&& k.wf()
                &&& k.master_key@ == master_key@
                &&& k.duration == duration
                &&& k.forward_periods == forward_periods
                &&& k.backward_periods == backward_periods
                &&& k.latest == now / duration
            },
    {
        if master_key.len() < 32 || duration == 0 {
            return None;
        }
        if forward_periods >= u64::MAX - now / duration {
            return None;
        }
        let mut k = RotatingKeys {
            master_key,
            duration,
            forward_periods,
            backward_periods,
            latest: 0,
            first: 0,
            keys: Vec::new(),
        };
        k.rotate_keys(now);
        Some(k)
    }

    /// Moves the window to the period of `now` (Unix seconds): keys still in
    /// the window are kept, new periods are derived, periods that left it are
    /// dropped.
    pub fn rotate_keys(&mut self, now: u64)
        requires
            old(self).master_key@.len() >= 32,
            old(self).duration > 0,
            forall|i: int|
                0 <= i < old(self).keys@.len() ==> (#[trigger] old(self).keys@[i])@
                    == derived_key(old(self).master_key@, (old(self).first + i) as u64)
                    && old(self).keys@[i]@.len() == 32,
            now / old(self).duration + old(self).forward_periods < u64::MAX,
        ensures
            final(self).wf(),
            final(self).latest == now / old(self).duration,
            final(self).master_key@ == old(self).master_key@,
            final(self).duration == old(self).duration,
            final(self).forward_periods == old(self).forward_periods,
            final(self).backward_periods == old(self).backward_periods,
    {
        let e = now / self.duration;
        let first = if e >= self.backward_periods {
            e - self.backward_periods
        } else {
            0
        };
        let count = e + self.forward_periods - first + 1;
        let mut keys: Vec<Vec<u8>> = Vec::new();
        let mut i: u64 = 0;
        while i < count
            invariant
                self.master_key@.len() >= 32,
                count == e + self.forward_periods - first + 1,
                first <= e,
                e + self.forward_periods < u64::MAX,
                i <= count,
                keys@.len() == i,
                forall|j: int|
                    0 <= j < self.keys@.len() ==> (#[trigger] self.keys@[j])@ == derived_key(
                        self.master_key@,
                        (self.first + j) as u64,
                    ) && self.keys@[j]@.len() == 32,
                forall|j: int|
                    0 <= j < keys@.len() ==> (#[trigger] keys@[j])@ == derived_key(
                        self.master_key@,
                        (first + j) as u64,
                    ) && keys@[j]@.len() == 32,
            decreases count - i,
        {
            let epoch = first + i;
            let held = self.keys.len() as u64;
            let key = if self.first <= epoch && epoch - self.first < held {
                let k = self.keys[(epoch - self.first) as usize].clone();
                k
            } else {
                derive_key(self.master_key.as_slice(), epoch)
            };
            keys.push(key);
            i = i + 1;
        }
        self.keys = keys;
        self.first = first;
        self.latest = e;
    }

    /// The current period's key identifier and master key.
    pub fn latest(&self) -> (r: (Vec<u8>, Vec<u8>))
        requires
            self.wf(),
        ensures
            r.0@ == epoch_id(self.latest),
            r.1@ == derived_key(self.master_key@, self.latest),
            r.1@ == self.keys_view()[self.latest],
            r.1@.len() == 32,
    {
        let mut id: Vec<u8> = Vec::new();
        push_u64(&mut id, self.latest);
        let n = self.keys.len();
        assert(self.latest - self.first < n);
        let key = self.keys[(self.latest - self.first) as usize].clone();
        proof {
            assert(id@ =~= be64(self.latest));
            assert(self.keys_view().contains_key(self.latest));
        }
        (id, key)
    }

    /// The master key that `id` names, if its period is in the window.
    pub fn lookup(&self, id: &[u8]) -> (r: Option<Vec<u8>>)
        requires
            self.wf(),
        ensures
            match self.lookup_spec(id@) {
                None => r.is_none(),
                Some(k) => r.is_some() && r.unwrap()@ == k && k.len() == 32,
            },
    {
        if id.len() != 8 {
            return None;
        }
        let epoch = read_u64(id, 0);
        if self.first <= epoch && epoch - self.first < self.keys.len() as u64 {
            let k = self.keys[(epoch - self.first) as usize].clone();
            proof {
                assert(self.keys_view().contains_key(epoch));
            }
            Some(k)
        } else {
            None
        }
    }
}


/// After a rotation to time `t`, the identifier of the period of time `t2` is
/// found exactly when that period lies at most `backward_periods` before and at
/// most `forward_periods` after the period of `t`; so it is found for every
/// `t2` in `[t - backward_periods * duration, t + forward_periods * duration]`.
pub proof fn lemma_rotation_window(k: RotatingKeys, t: u64, t2: u64)
    requires
        k.wf(),
        k.latest == t / k.duration,
    ensures
        k.lookup_spec(epoch_id(t2 / k.duration)).is_some() <==> (t / k.duration
            - k.backward_periods <= t2 / k.duration <= t / k.duration + k.forward_periods),
        t - k.backward_periods * k.duration <= t2 <= t + k.forward_periods * k.duration
            ==> k.lookup_spec(epoch_id(t2 / k.duration)).is_some(),
{
    let d = k.duration as int;
    let e2 = t2 / k.duration;
    lemma_u64_round_trip(e2);
    let back = k.backward_periods as int;
    let fwd = k.forward_periods as int;
    if t - back * d <= t2 && t2 <= t + fwd * d {
        lemma_hoist_over_denominator(t as int, -back, d as nat);
        lemma_hoist_over_denominator(t as int, fwd, d as nat);
        lemma_div_is_ordered(t - back * d, t2 as int, d);
        lemma_div_is_ordered(t2 as int, t + fwd * d, d);
        assert((-back) * d == -(back * d)) by (nonlinear_arith);
    }
}

/// Two key schedules made from the same root secret hold the same key for
/// every period that both of their windows cover.
pub proof fn lemma_same_secret_same_keys(a: RotatingKeys, b: RotatingKeys, e: u64)
    requires
        a.wf(),
        b.wf(),
        a.master_key@ == b.master_key@,
        a.keys_view().contains_key(e),
        b.keys_view().contains_key(e),
    ensures
        a.keys_view()[e] == b.keys_view()[e],
        a.keys_view()[e] == derived_key(a.master_key@, e),
{
    assert(a.keys@[e - a.first]@ == derived_key(a.master_key@, (a.first + (e - a.first)) as u64));
    assert(b.keys@[e - b.first]@ == derived_key(b.master_key@, (b.first + (e - b.first)) as u64));
}

} // verus!
