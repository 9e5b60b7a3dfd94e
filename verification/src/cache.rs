//! A small in-memory cache with per-entry expiry times.
//!
//! Entries are stored as key/value pairs with a millisecond timestamp after
//! which they no longer count as present.  The store keeps its keys unique.
//! The current time is read through a trusted clock wrapper; every method
//! that depends on the clock forwards to a verified `..._at` method that
//! takes the time as an argument and has an exact contract.

use vstd::prelude::*;
use crate::strings::str_eq;

verus! {

/// Reads the system clock.  Relies on std::time::SystemTime::now and
/// SystemTime::duration_since: the result is the wall-clock time in
/// milliseconds since the epoch.  Nothing can be promised of its value.
#[verifier::external_body]
pub fn now_millis() -> u64 {
    match std::time::SystemTime::now().duration_since(std::time::UNIX_EPOCH) {
        Ok(d) => {
            let ms = d.as_millis();
            if ms > u64::MAX as u128 {
                u64::MAX
            } else {
                ms as u64
            }
        },
        Err(_) => 0,
    }
}

pub struct CacheEntry<T> {
    pub data: T,
    pub expires_at_ms: u64,
}

/// The (key, value, expiry) triples abstracting a vector of stored entries.
pub open spec fn entry_triples<T>(s: Seq<(String, CacheEntry<T>)>) -> Seq<(Seq<char>, T, u64)> {
    Seq::new(s.len(), |i: int| (s[i].0@, s[i].1.data, s[i].1.expires_at_ms))
}

/// Holds of a triple whose expiry does not lie before `now`.
pub open spec fn entry_live_pred<T>(now: u64) -> spec_fn((Seq<char>, T, u64)) -> bool {
    |e: (Seq<char>, T, u64)| e.2 >= now
}

/// An in-memory key/value cache whose entries expire.
pub struct Cache<T> {
    entries: Vec<(String, CacheEntry<T>)>,
    default_ttl_ms: u64,
}

impl<T> Cache<T> {
    /// The stored entries, as a sequence of (key, value, expiry) triples.
    pub closed spec fn entries_seq(&self) -> Seq<(Seq<char>, T, u64)> {
        entry_triples(self.entries@)
    }

    pub closed spec fn default_ttl(&self) -> u64 {
        self.default_ttl_ms
    }

    /// Keys are stored at most once.
    pub open spec fn wf(&self) -> bool {
        forall|i: int, j: int|
            0 <= i < j < self.entries_seq().len() ==> (#[trigger] self.entries_seq()[i]).0 != (
            #[trigger] self.entries_seq()[j]).0
    }

    /// Some entry's key equals `k`.
    pub open spec fn has_key(&self, k: Seq<char>) -> bool {
        exists|i: int| 0 <= i < self.entries_seq().len() && (#[trigger] self.entries_seq()[i]).0 == k
    }

    /// An entry for `k` with value `v` is present and does not expire before `now`.
    pub open spec fn live_at(&self, k: Seq<char>, v: T, now: u64) -> bool {
        exists|i: int|
            0 <= i < self.entries_seq().len() && ((#[trigger] self.entries_seq()[i]).0 == k
                && self.entries_seq()[i].1 == v && now <= self.entries_seq()[i].2)
    }

    /// Create an empty cache whose entries expire `default_ttl_ms`
    /// milliseconds after they are set, unless a different span is given.
    pub fn new(default_ttl_ms: u64) -> (r: Cache<T>)
        ensures
            r.wf(),
            r.entries_seq().len() == 0,
            r.default_ttl() == default_ttl_ms,
    {
        Cache { entries: Vec::new(), default_ttl_ms }
    }

    fn find_index(&self, key: &str) -> (r: Option<usize>)
        ensures
            match r {
                Some(i) => i < self.entries_seq().len() && self.entries_seq()[i as int].0 == key@,
                None => !self.has_key(key@),
            },
    {
        let n = self.entries.len();
        let mut i: usize = 0;
        while i < n
            invariant
                n == self.entries_seq().len(),
                n == self.entries@.len(),
                i <= n,
                forall|j: int| 0 <= j < i ==> (#[trigger] self.entries_seq()[j]).0 != key@,
            decreases n - i,
        {
            if str_eq(self.entries[i].0.as_str(), key) {
                return Some(i);
            }
            i = i + 1;
        }
        None
    }

    /// Store `data` under `key`, replacing any previous entry for that key.
    /// The entry expires `ttl_ms` (or the default span) after `now_ms`,
    /// saturating at the largest representable time.
    pub fn set_at(&mut self, key: String, data: T, ttl_ms: Option<u64>, now_ms: u64)
        requires
            old(self).wf(),
        ensures
            final(self).wf(),
            final(self).default_ttl() == old(self).default_ttl(),
            ({
                let span = if ttl_ms is Some {
                    ttl_ms->0
                } else {
                    old(self).default_ttl()
                };
                let expiry: u64 = if now_ms + span > u64::MAX {
                    u64::MAX
                } else {
                    (now_ms + span) as u64
                };
                if old(self).has_key(key@) {
                    exists|i: int|
                        0 <= i < old(self).entries_seq().len() && (#[trigger] old(
                            self,
                        ).entries_seq()[i]).0 == key@ && final(self).entries_seq() == old(
                            self,
                        ).entries_seq().update(i, (key@, data, expiry))
                } else {
                    final(self).entries_seq() == old(self).entries_seq().push((key@, data, expiry))
                }
            }),
    {
        let span = match ttl_ms {
            Some(t) => t,
            None => self.default_ttl_ms,
        };
        let expiry = if span > u64::MAX - now_ms {
            u64::MAX
        } else {
            now_ms + span
        };
        let ghost kview = key@;
        let found = self.find_index(key.as_str());
        match found {
            Some(i) => {
                self.entries[i] = (key, CacheEntry { data, expires_at_ms: expiry });
                proof {
                    assert(self.entries_seq() =~= old(self).entries_seq().update(
                        i as int,
                        (kview, data, expiry),
                    ));
                }
            },
            None => {
                self.entries.push((key, CacheEntry { data, expires_at_ms: expiry }));
                proof {
                    assert(self.entries_seq() =~= old(self).entries_seq().push(
                        (kview, data, expiry),
                    ));
                    assert forall|i: int, j: int|
                        0 <= i < j < self.entries_seq().len() implies (
                    #[trigger] self.entries_seq()[i]).0 != (#[trigger] self.entries_seq()[j]).0 by {
                        if j == self.entries_seq().len() - 1 {
                            assert(!old(self).has_key(kview));
                            assert(old(self).entries_seq()[i].0 != kview);
                        }
                    }
                }
            },
        }
    }

    /// Store `data` under `key` with the clock read internally.
    pub fn set(&mut self, key: String, data: T, ttl_ms: Option<u64>)
        requires
            old(self).wf(),
        ensures
            final(self).wf(),
            final(self).default_ttl() == old(self).default_ttl(),
            exists|now: u64| final(self).live_at(key@, data, now),
    {
        let now = now_millis();
        let ghost kview = key@;
        self.set_at(key, data, ttl_ms, now);
        proof {
            let span = if ttl_ms is Some {
                ttl_ms->0
            } else {
                old(self).default_ttl()
            };
            let expiry: u64 = if now + span > u64::MAX {
                u64::MAX
            } else {
                (now + span) as u64
            };
            assert(self.live_at(kview, data, now)) by {
                if old(self).has_key(kview) {
                    let i = choose|i: int|
                        0 <= i < old(self).entries_seq().len() && (#[trigger] old(
                            self,
                        ).entries_seq()[i]).0 == kview && self.entries_seq() == old(
                            self,
                        ).entries_seq().update(i, (kview, data, expiry));
                    assert(self.entries_seq()[i] == (kview, data, expiry));
                } else {
                    assert(self.entries_seq().last() == (kview, data, expiry));
                }
            }
        }
    }

    /// Look `key` up at time `now_ms`.  An entry whose expiry lies before
    /// `now_ms` counts as absent and is removed.
    pub fn get_at(&mut self, key: &str, now_ms: u64) -> (r: Option<&T>)
        requires
            old(self).wf(),
        ensures
            final(self).wf(),
            final(self).default_ttl() == old(self).default_ttl(),
            match r {
                Some(d) => *final(self) == *old(self) && old(self).live_at(key@, *d, now_ms),
                None => {
                    &&& !final(self).has_key(key@)
                    &&& if old(self).has_key(key@) {
                        exists|i: int|
                            0 <= i < old(self).entries_seq().len() && (#[trigger] old(
                                self,
                            ).entries_seq()[i]).0 == key@ && now_ms > old(self).entries_seq()[i].2
                                && final(self).entries_seq() == old(self).entries_seq().remove(i)
                    } else {
                        *final(self) == *old(self)
                    }
                },
            },
    {
        let found = self.find_index(key);
        match found {
            Some(i) => {
                if now_ms > self.entries[i].1.expires_at_ms {
                    self.entries.remove(i);
                    proof {
                        assert(self.entries_seq() =~= old(self).entries_seq().remove(i as int));
                        assert forall|j: int|
                            0 <= j < self.entries_seq().len() implies (
                        #[trigger] self.entries_seq()[j]).0 != key@ by {
                            if j < i {
                                assert(self.entries_seq()[j] == old(self).entries_seq()[j]);
                            } else {
                                assert(self.entries_seq()[j] == old(self).entries_seq()[j + 1]);
                            }
                        }
                    }
                    None
                } else {
                    Some(&self.entries[i].1.data)
                }
            },
            None => None,
        }
    }

    /// Look `key` up with the clock read internally.  A returned value was
    /// stored under `key` and had not expired when the clock was read.
    pub fn get(&mut self, key: &str) -> (r: Option<&T>)
        requires
            old(self).wf(),
        ensures
            final(self).wf(),
            final(self).default_ttl() == old(self).default_ttl(),
            match r {
                Some(d) => *final(self) == *old(self) && exists|now: u64|
                    old(self).live_at(key@, *d, now),
                None => !final(self).has_key(key@),
            },
    {
        let now = now_millis();
        self.get_at(key, now)
    }

    /// True when `key` holds an unexpired entry at the internally read time.
    pub fn has(&mut self, key: &str) -> (r: bool)
        requires
            old(self).wf(),
        ensures
            final(self).wf(),
            final(self).default_ttl() == old(self).default_ttl(),
            !r ==> !final(self).has_key(key@),
            r ==> old(self).has_key(key@),
    {
        let r = self.get(key);
        r.is_some()
    }

    /// Drop every entry.
    pub fn clear(&mut self)
        ensures
            final(self).wf(),
            final(self).entries_seq().len() == 0,
            final(self).default_ttl() == old(self).default_ttl(),
    {
        self.entries.clear();
    }

    /// Drop the entries whose expiry lies before `now_ms` and no others.
    pub fn cleanup_at(&mut self, now_ms: u64)
        requires
            old(self).wf(),
        ensures
            final(self).wf(),
            final(self).default_ttl() == old(self).default_ttl(),
            forall|i: int|
                0 <= i < final(self).entries_seq().len() ==> old(self).entries_seq().contains(
                    #[trigger] final(self).entries_seq()[i],
                ) && final(self).entries_seq()[i].2 >= now_ms,
            forall|k: int|
                0 <= k < old(self).entries_seq().len() && (#[trigger] old(
                    self,
                ).entries_seq()[k]).2 >= now_ms ==> final(self).entries_seq().contains(
                    old(self).entries_seq()[k],
                ),
    {
        let ghost orig = self.entries_seq();
        let ghost orig_ttl = self.default_ttl();
        let mut kept: Vec<(String, CacheEntry<T>)> = Vec::new();
        let ghost mut processed: int = 0;
        proof {
            assert(orig.subrange(0, orig.len() as int) =~= orig);
        }
        while self.entries.len() > 0
            invariant
                0 <= processed <= orig.len(),
                self.default_ttl() == orig_ttl,
                forall|i: int, j: int|
                    0 <= i < j < orig.len() ==> (#[trigger] orig[i]).0 != (#[trigger] orig[j]).0,
                self.entries_seq() == orig.subrange(processed, orig.len() as int),
                forall|i: int|
                    0 <= i < entry_triples(kept@).len() ==> exists|k: int|
                        0 <= k < processed && #[trigger] entry_triples(kept@)[i] == orig[k],
                forall|i: int|
                    0 <= i < entry_triples(kept@).len() ==> (#[trigger] entry_triples(
                        kept@,
                    )[i]).2 >= now_ms,
                forall|k: int|
                    0 <= k < processed && (#[trigger] orig[k]).2 >= now_ms ==> entry_triples(
                        kept@,
                    ).contains(orig[k]),
                forall|i: int, j: int|
                    0 <= i < j < entry_triples(kept@).len() ==> (#[trigger] entry_triples(
                        kept@,
                    )[i]).0 != (#[trigger] entry_triples(kept@)[j]).0,
            decreases self.entries.len(),
        {
            let ghost prev = entry_triples(kept@);
            let ghost before = self.entries_seq();
            let ghost before_vec = self.entries@;
            proof {
                assert(before.len() == self.entries@.len());
                assert(before.len() == orig.len() - processed);
                assert(processed < orig.len());
                assert(orig.subrange(processed, orig.len() as int)[0] == orig[processed]);
                assert(before[0] == orig[processed]);
            }
            let e = self.entries.remove(0);
            let ghost etrip = (e.0@, e.1.data, e.1.expires_at_ms);
            proof {
                assert(etrip == before[0]);
                assert(etrip == orig[processed]);
                before_vec.remove_ensures(0);
                assert forall|k: int|
                    0 <= k < self.entries_seq().len() implies #[trigger] self.entries_seq()[k]
                    == orig[processed + 1 + k] by {
                    assert(self.entries@[k] == before_vec.remove(0)[k]);
                    assert(before_vec.remove(0)[k] == before_vec[k + 1]);
                    assert(before[k + 1] == orig.subrange(processed, orig.len() as int)[k + 1]);
                }
                assert(self.entries_seq() =~= orig.subrange(processed + 1, orig.len() as int));
            }
            if e.1.expires_at_ms >= now_ms {
                let ghost prev_kept = kept@;
                kept.push(e);
                proof {
                    assert(kept@ == prev_kept.push((kept@[kept@.len() - 1].0, kept@[kept@.len()
                        - 1].1)));
                    assert forall|i: int|
                        0 <= i < entry_triples(kept@).len() - 1 implies #[trigger] entry_triples(
                        kept@,
                    )[i] == prev[i] by {
                        assert(kept@[i] == prev_kept[i]);
                    }
                    assert(entry_triples(kept@)[entry_triples(kept@).len() - 1] == etrip);
                    assert(entry_triples(kept@) =~= prev.push(etrip));
                    assert forall|i: int, j: int|
                        0 <= i < j < entry_triples(kept@).len() implies (
                    #[trigger] entry_triples(kept@)[i]).0 != (#[trigger] entry_triples(
                        kept@,
                    )[j]).0 by {
                        if j == entry_triples(kept@).len() - 1 {
                            let ki = choose|k: int| 0 <= k < processed && prev[i] == orig[k];
                            assert(prev[i] == orig[ki]);
                            assert(entry_triples(kept@)[j] == orig[processed]);
                        }
                    }
                }
            }
            proof {
                processed = processed + 1;
                assert forall|k: int|
                    0 <= k < processed && (#[trigger] orig[k]).2 >= now_ms implies entry_triples(
                    kept@,
                ).contains(orig[k]) by {
                    if k == processed - 1 {
                        assert(entry_triples(kept@).last() == orig[k]);
                    } else {
                        assert(prev.contains(orig[k]));
                        let i = choose|i: int| 0 <= i < prev.len() && prev[i] == orig[k];
                        assert(entry_triples(kept@)[i] == orig[k]);
                    }
                }
            }
        }
        proof {
            assert(self.entries_seq().len() == 0);
            assert(processed == orig.len());
        }
        self.entries = kept;
        proof {
            assert forall|i: int|
                0 <= i < self.entries_seq().len() implies orig.contains(
                #[trigger] self.entries_seq()[i],
            ) by {
                let k = choose|k: int| 0 <= k < orig.len() && self.entries_seq()[i] == orig[k];
                assert(orig[k] == self.entries_seq()[i]);
            }
        }
    }

    /// Drop expired entries with the clock read internally.  Every kept
    /// entry was already stored.
    pub fn cleanup(&mut self)
        requires
            old(self).wf(),
        ensures
            final(self).wf(),
            final(self).default_ttl() == old(self).default_ttl(),
            forall|i: int|
                0 <= i < final(self).entries_seq().len() ==> old(self).entries_seq().contains(
                    #[trigger] final(self).entries_seq()[i],
                ),
    {
        let now = now_millis();
        self.cleanup_at(now);
    }
}

} // verus!
