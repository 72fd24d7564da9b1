//! The store engine: a key-value map with per-key expiration.
//!
//! Keys are strings, values are opaque byte sequences, and every entry may
//! carry an absolute expiration instant, given in milliseconds of a
//! monotonic clock.  Every operation that depends on the clock takes the
//! current instant `now` as an argument; an entry whose expiration is at or
//! before `now` behaves exactly as if the key were absent.

use vstd::prelude::*;

verus! {

/// The largest expiration instant an entry may carry.  Keeping instants
/// within the signed 64-bit range lets a remaining ttl always fit in `i64`.
pub const MAX_EXPIRE_MS: u64 = 0x7fff_ffff_ffff_ffff;

/// The mathematical content of a stored entry: the value's bytes and the
/// optional absolute expiration instant in monotonic milliseconds.
pub ghost struct EntryModel {
    pub value: Seq<u8>,
    pub expire_at: Option<u64>,
}

/// A stored value together with an optional absolute expiration instant.
pub struct Entry {
    value: Vec<u8>,
    expire_at: Option<u64>,
}

impl View for Entry {
    type V = EntryModel;

    closed spec fn view(&self) -> EntryModel {
        EntryModel { value: self.value@, expire_at: self.expire_at }
    }
}

impl Entry {
    /// A fresh entry holds the given value and never expires.
    pub fn new(value: Vec<u8>) -> (e: Entry)
        ensures
            e@ == (EntryModel { value: value@, expire_at: None::<u64> }),
    {
        Entry { value, expire_at: None }
    }

    /// The stored value.
    pub fn get_value(&self) -> (v: &Vec<u8>)
        ensures
            v@ == self@.value,
    {
        &self.value
    }
}

/// An entry model is live at `now` when it never expires or expires
/// strictly after `now`.
pub open spec fn model_live(m: EntryModel, now: u64) -> bool {
    match m.expire_at {
        Some(t) => t > now,
        None => true,
    }
}

/// An expiration instant, when present, stays within [`MAX_EXPIRE_MS`].
pub open spec fn ts_ok(t: Option<u64>) -> bool {
    match t {
        Some(v) => v <= MAX_EXPIRE_MS,
        None => true,
    }
}

/// How a write may be gated on the key's current state.
#[derive(Clone, Copy, Debug, PartialEq, Eq)]
pub enum SetMode {
    /// Write unconditionally.
    Default,
    /// Write only if the key is currently absent (an expired entry counts
    /// as absent).
    Nx,
    /// Write only if the key is currently present and unexpired.
    Xx,
}

/// Options consumed by the conditional-write operation.
#[derive(Clone, Copy, Debug, PartialEq, Eq)]
pub struct SetOptions {
    pub mode: SetMode,
    /// An explicit absolute expiration for the new entry; takes precedence
    /// over `keep_ttl`.
    pub expire: Option<u64>,
    /// Preserve the prior live entry's expiration when overwriting it.
    pub keep_ttl: bool,
}

impl Default for SetOptions {
    /// Unconditional write, no expiration, no ttl carried over.
    fn default() -> (o: SetOptions)
        ensures
            o == (SetOptions { mode: SetMode::Default, expire: None::<u64>, keep_ttl: false }),
    {
        SetOptions { mode: SetMode::Default, expire: None, keep_ttl: false }
    }
}

/// The key-to-entry mapping.  Keys are unique; no ordering is implied.
pub struct Store {
    entries: Vec<(String, Entry)>,
}

/// First entry in `s` whose key reads as `k`, scanning from the front.
spec fn seq_get(s: Seq<(String, Entry)>, k: Seq<char>) -> Option<EntryModel>
    decreases s.len(),
{
    if s.len() == 0 {
        None
    } else if s[0].0@ == k {
        Some(s[0].1@)
    } else {
        seq_get(s.skip(1), k)
    }
}

/// No two entries share a key.
spec fn keys_unique(s: Seq<(String, Entry)>) -> bool {
    forall|i: int, j: int| 0 <= i < j < s.len() ==> s[i].0@ != s[j].0@
}

/// Every expiration instant stays within [`MAX_EXPIRE_MS`].
spec fn expires_bounded(s: Seq<(String, Entry)>) -> bool {
    forall|i: int| 0 <= i < s.len() ==> ts_ok(#[trigger] s[i].1@.expire_at)
}

proof fn lemma_seq_get_absent(s: Seq<(String, Entry)>, k: Seq<char>)
    requires
        forall|j: int| 0 <= j < s.len() ==> (#[trigger] s[j].0@) != k,
    ensures
        seq_get(s, k) is None,
    decreases s.len(),
{
    if s.len() > 0 {
        assert forall|j: int| 0 <= j < s.skip(1).len() implies (#[trigger] s.skip(1)[j].0@)
            != k by {
            assert(s.skip(1)[j] == s[j + 1]);
        }
        lemma_seq_get_absent(s.skip(1), k);
    }
}

proof fn lemma_seq_get_none_absent(s: Seq<(String, Entry)>, k: Seq<char>)
    requires
        seq_get(s, k) is None,
    ensures
        forall|j: int| 0 <= j < s.len() ==> (#[trigger] s[j].0@) != k,
    decreases s.len(),
{
    if s.len() > 0 {
        lemma_seq_get_none_absent(s.skip(1), k);
        assert forall|j: int| 0 <= j < s.len() implies (#[trigger] s[j].0@) != k by {
            if j > 0 {
                assert(s.skip(1)[j - 1] == s[j]);
                assert(s.skip(1)[j - 1].0@ != k);
            }
        }
    }
}

proof fn lemma_seq_get_push(s: Seq<(String, Entry)>, p: (String, Entry), k: Seq<char>)
    ensures
        seq_get(s.push(p), k) == (if seq_get(s, k) is Some {
            seq_get(s, k)
        } else if p.0@ == k {
            Some(p.1@)
        } else {
            None::<EntryModel>
        }),
    decreases s.len(),
{
    if s.len() == 0 {
        assert(s.push(p)[0] == p);
        assert(s.push(p).skip(1) =~= Seq::<(String, Entry)>::empty());
        assert(seq_get(Seq::<(String, Entry)>::empty(), k) is None);
        assert(seq_get(s, k) is None);
    } else {
        assert(s.push(p)[0] == s[0]);
        assert(s.push(p).skip(1) =~= s.skip(1).push(p));
        lemma_seq_get_push(s.skip(1), p, k);
        if s[0].0@ == k {
            assert(seq_get(s, k) == Some(s[0].1@));
            assert(seq_get(s.push(p), k) == Some(s[0].1@));
        } else {
            assert(seq_get(s.push(p), k) == seq_get(s.skip(1).push(p), k));
            assert(seq_get(s, k) == seq_get(s.skip(1), k));
        }
    }
}

proof fn lemma_seq_get_remove(s: Seq<(String, Entry)>, i: int, k: Seq<char>)
    requires
        0 <= i < s.len(),
        keys_unique(s),
    ensures
        seq_get(s.remove(i), k) == (if s[i].0@ == k {
            None::<EntryModel>
        } else {
            seq_get(s, k)
        }),
    decreases s.len(),
{
    if i == 0 {
        assert(s.remove(0) =~= s.skip(1));
        if s[0].0@ == k {
            assert(forall|j: int| 0 <= j < s.skip(1).len() ==> (#[trigger] s.skip(1)[j].0@) != k)
                by {
                assert(forall|j: int| 0 <= j < s.skip(1).len() ==> s.skip(1)[j] == s[j + 1]);
            }
            lemma_seq_get_absent(s.skip(1), k);
        }
    } else {
        assert(s.remove(i)[0] == s[0]);
        assert(s.remove(i).skip(1) =~= s.skip(1).remove(i - 1));
        assert(keys_unique(s.skip(1))) by {
            assert(forall|j: int| 0 <= j < s.skip(1).len() ==> s.skip(1)[j] == s[j + 1]);
        }
        assert(s.skip(1)[i - 1] == s[i]);
        lemma_seq_get_remove(s.skip(1), i - 1, k);
    }
}

proof fn lemma_remove_keeps_invariants(s: Seq<(String, Entry)>, i: int)
    requires
        0 <= i < s.len(),
        keys_unique(s),
        expires_bounded(s),
    ensures
        keys_unique(s.remove(i)),
        expires_bounded(s.remove(i)),
{
    assert forall|a: int, b: int| 0 <= a < b < s.remove(i).len() implies s.remove(i)[a].0@ != s.remove(
        i,
    )[b].0@ by {
        let a0 = if a < i { a } else { a + 1 };
        let b0 = if b < i { b } else { b + 1 };
        assert(s.remove(i)[a] == s[a0]);
        assert(s.remove(i)[b] == s[b0]);
    }
    assert forall|a: int| 0 <= a < s.remove(i).len() implies ts_ok(
        #[trigger] s.remove(i)[a].1@.expire_at,
    ) by {
        let a0 = if a < i { a } else { a + 1 };
        assert(s.remove(i)[a] == s[a0]);
    }
}

proof fn lemma_push_new(s: Seq<(String, Entry)>, p: (String, Entry))
    requires
        keys_unique(s),
        expires_bounded(s),
        seq_get(s, p.0@) is None,
        ts_ok(p.1@.expire_at),
    ensures
        keys_unique(s.push(p)),
        expires_bounded(s.push(p)),
        seq_get(s.push(p), p.0@) == Some(p.1@),
        forall|k2: Seq<char>| k2 != p.0@ ==> #[trigger] seq_get(s.push(p), k2) == seq_get(s, k2),
{
    lemma_seq_get_none_absent(s, p.0@);
    assert forall|a: int, b: int| 0 <= a < b < s.push(p).len() implies s.push(p)[a].0@ != s.push(
        p,
    )[b].0@ by {
        assert(s.push(p)[a] == s[a]);
        if b == s.len() {
            assert(s.push(p)[b] == p);
        } else {
            assert(s.push(p)[b] == s[b]);
        }
    }
    assert forall|a: int| 0 <= a < s.push(p).len() implies ts_ok(
        #[trigger] s.push(p)[a].1@.expire_at,
    ) by {
        if a == s.len() {
            assert(s.push(p)[a] == p);
        } else {
            assert(s.push(p)[a] == s[a]);
        }
    }
    lemma_seq_get_push(s, p, p.0@);
    assert forall|k2: Seq<char>| k2 != p.0@ implies #[trigger] seq_get(s.push(p), k2) == seq_get(
        s,
        k2,
    ) by {
        lemma_seq_get_push(s, p, k2);
    }
}

/// Views of a sequence of key strings.
pub open spec fn views_of(ks: Seq<String>) -> Seq<Seq<char>> {
    Seq::new(ks.len(), |i: int| ks[i]@)
}

/// Whether a write in the given mode goes through against store `s`.
pub open spec fn spec_set_applies(s: Store, k: Seq<char>, mode: SetMode, now: u64) -> bool {
    match mode {
        SetMode::Default => true,
        SetMode::Nx => !s.spec_live(k, now),
        SetMode::Xx => s.spec_live(k, now),
    }
}

/// The expiration the new entry carries after an applied write: an explicit
/// `expire` option wins; otherwise `keep_ttl` carries over the prior live
/// entry's expiration; otherwise the expiration is cleared.
pub open spec fn spec_set_expire(s: Store, k: Seq<char>, opts: SetOptions, now: u64) -> Option<
    u64,
> {
    match opts.expire {
        Some(t) => Some(t),
        None => if opts.keep_ttl && s.spec_live(k, now) {
            s.spec_get(k).unwrap().expire_at
        } else {
            None
        },
    }
}

/// The full effect of `set`: whether it applied, the entry it left under
/// the key, and that every other key kept its entry.
pub open spec fn spec_set_post(
    pre: Store,
    post: Store,
    k: Seq<char>,
    v: Seq<u8>,
    opts: SetOptions,
    now: u64,
    applied: bool,
) -> bool {
    &&& applied == spec_set_applies(pre, k, opts.mode, now)
    &&& (applied ==> post.spec_get(k) == Some(
        (EntryModel { value: v, expire_at: spec_set_expire(pre, k, opts, now) }),
    ))
    &&& (!applied ==> post.spec_get(k) == pre.spec_get(k))
    &&& (forall|k2: Seq<char>| k2 != k ==> #[trigger] post.spec_get(k2) == pre.spec_get(k2))
}

/// How many of the keys `ks`, duplicates counted once, are live in `s`.
pub open spec fn spec_del_count(s: Store, ks: Seq<Seq<char>>, now: u64) -> nat
    decreases ks.len(),
{
    if ks.len() == 0 {
        0
    } else {
        spec_del_count(s, ks.drop_last(), now) + (if s.spec_live(ks.last(), now)
            && !ks.drop_last().contains(ks.last()) {
            1nat
        } else {
            0nat
        })
    }
}

/// How many of the keys `ks`, duplicates counted each, are live in `s`.
pub open spec fn spec_exists_count(s: Store, ks: Seq<Seq<char>>, now: u64) -> nat
    decreases ks.len(),
{
    if ks.len() == 0 {
        0
    } else {
        spec_exists_count(s, ks.drop_last(), now) + (if s.spec_live(ks.last(), now) {
            1nat
        } else {
            0nat
        })
    }
}

/// The full effect of `expire_at`: it succeeds exactly on a live key, stamps
/// the given expiration on it, and touches nothing else.
pub open spec fn spec_expire_post(
    pre: Store,
    post: Store,
    k: Seq<char>,
    when_ms: u64,
    now: u64,
    r: bool,
) -> bool {
    &&& r == pre.spec_live(k, now)
    &&& (r ==> post.spec_get(k) == Some(
        (EntryModel { value: pre.spec_get(k).unwrap().value, expire_at: Some(when_ms) }),
    ))
    &&& (!r ==> post.spec_get(k) == pre.spec_get(k))
    &&& (forall|k2: Seq<char>| k2 != k ==> #[trigger] post.spec_get(k2) == pre.spec_get(k2))
}

/// The full effect of `persist`: it succeeds exactly on a live key, clears
/// its expiration, and touches nothing else.
pub open spec fn spec_persist_post(
    pre: Store,
    post: Store,
    k: Seq<char>,
    now: u64,
    r: bool,
) -> bool {
    &&& r == pre.spec_live(k, now)
    &&& (r ==> post.spec_get(k) == Some(
        (EntryModel { value: pre.spec_get(k).unwrap().value, expire_at: None::<u64> }),
    ))
    &&& (!r ==> post.spec_get(k) == pre.spec_get(k))
    &&& (forall|k2: Seq<char>| k2 != k ==> #[trigger] post.spec_get(k2) == pre.spec_get(k2))
}

/// What `ttl_ms` reports for key `k` at instant `now`: nothing for an
/// absent key, `-1` for one that never expires or has already expired, and
/// the remaining milliseconds otherwise.
pub open spec fn spec_ttl(s: Store, k: Seq<char>, now: u64) -> Option<i64> {
    match s.spec_get(k) {
        None => None,
        Some(m) => match m.expire_at {
            None => Some(-1i64),
            Some(t) => if t > now {
                Some((t - now) as i64)
            } else {
                Some(-1i64)
            },
        },
    }
}

impl Store {
    /// The entry stored under key `k`, as a mathematical value.
    pub closed spec fn spec_get(self, k: Seq<char>) -> Option<EntryModel> {
        seq_get(self.entries@, k)
    }

    /// Key `k` is present and unexpired at instant `now`.
    pub open spec fn spec_live(self, k: Seq<char>, now: u64) -> bool {
        match self.spec_get(k) {
            Some(m) => model_live(m, now),
            None => false,
        }
    }

    /// Well-formedness: keys are unique and expirations are bounded.
    pub closed spec fn wf(self) -> bool {
        keys_unique(self.entries@) && expires_bounded(self.entries@)
    }

    /// A fresh store holds no key.
    pub fn new() -> (s: Store)
        ensures
            s.wf(),
            forall|k: Seq<char>| (#[trigger] s.spec_get(k)) is None,
    {
        let s = Store { entries: Vec::new() };
        proof {
            assert(forall|k: Seq<char>| (#[trigger] seq_get(s.entries@, k)) is None);
        }
        s
    }

    /// Index of the entry stored under `key`, if any.
    fn find_index(&self, key: &String) -> (r: Option<usize>)
        ensures
            match r {
                Some(i) => i < self.entries@.len() && self.entries@[i as int].0@ == key@
                    && self.spec_get(key@) == Some(self.entries@[i as int].1@),
                None => self.spec_get(key@) is None,
            },
    {
        let n = self.entries.len();
        let mut i: usize = 0;
        proof {
            assert(self.entries@.skip(0) =~= self.entries@);
        }
        while i < n
            invariant
                i <= n,
                n == self.entries@.len(),
                seq_get(self.entries@, key@) == seq_get(self.entries@.skip(i as int), key@),
            decreases n - i,
        {
            if self.entries[i].0 == *key {
                proof {
                    assert(self.entries@.skip(i as int)[0] == self.entries@[i as int]);
                }
                return Some(i);
            }
            proof {
                assert(self.entries@.skip(i as int)[0] == self.entries@[i as int]);
                assert(self.entries@.skip(i as int).skip(1) =~= self.entries@.skip(i as int + 1));
            }
            i = i + 1;
        }
        None
    }

    /// Whether key `key` is present and unexpired at instant `now`.
    pub fn is_live(&self, key: &String, now: u64) -> (b: bool)
        ensures
            b == self.spec_live(key@, now),
    {
        match self.find_index(key) {
            Some(i) => {
                match self.entries[i].1.expire_at {
                    Some(t) => t > now,
                    None => true,
                }
            },
            None => false,
        }
    }

    /// Returns the value stored under `key` when the key is live at `now`;
    /// an absent or expired key yields nothing.
    pub fn get(&self, key: &String, now: u64) -> (r: Option<Vec<u8>>)
        ensures
            r is Some <==> self.spec_live(key@, now),
            match r {
                Some(v) => v@ == self.spec_get(key@).unwrap().value,
                None => true,
            },
    {
        match self.find_index(key) {
            Some(i) => {
                let live = match self.entries[i].1.expire_at {
                    Some(t) => t > now,
                    None => true,
                };
                if live {
                    Some(self.entries[i].1.value.clone())
                } else {
                    None
                }
            },
            None => None,
        }
    }

    /// Removes the entry at `idx`, when one is given, and stores `e` under
    /// `key`; `idx` must be the key's slot as `find_index` reports it.
    fn put(&mut self, key: &String, idx: Option<usize>, e: Entry)
        requires
            old(self).wf(),
            match idx {
                Some(i) => i < old(self).entries@.len() && old(self).entries@[i as int].0@ == key@,
                None => old(self).spec_get(key@) is None,
            },
            ts_ok(e@.expire_at),
        ensures
            final(self).wf(),
            final(self).spec_get(key@) == Some(e@),
            forall|k2: Seq<char>|
                k2 != key@ ==> #[trigger] final(self).spec_get(k2) == old(self).spec_get(k2),
    {
        let ghost s0 = self.entries@;
        match idx {
            Some(i) => {
                let pair = self.entries.remove(i);
                proof {
                    lemma_remove_keeps_invariants(s0, i as int);
                    assert forall|k2: Seq<char>| true implies #[trigger] seq_get(
                        self.entries@,
                        k2,
                    ) == (if s0[i as int].0@ == k2 {
                        None::<EntryModel>
                    } else {
                        seq_get(s0, k2)
                    }) by {
                        lemma_seq_get_remove(s0, i as int, k2);
                    }
                }
                let key2 = pair.0;
                let ghost s1 = self.entries@;
                self.entries.push((key2, e));
                proof {
                    let ghost s2 = self.entries@;
                    let ghost p = s2.last();
                    assert(s2 == s1.push(p));
                    assert(p.0@ == key@);
                    lemma_push_new(s1, p);
                }
            },
            None => {
                let k_owned = key.clone();
                let ghost s1 = self.entries@;
                self.entries.push((k_owned, e));
                proof {
                    let ghost s2 = self.entries@;
                    let ghost p = s2.last();
                    assert(s2 == s1.push(p));
                    assert(p.0@ == key@);
                    lemma_push_new(s1, p);
                }
            },
        }
    }

    /// Conditionally stores `val` under `key`.  In default mode the write
    /// always applies; `Nx` applies only to an absent (or expired) key,
    /// `Xx` only to a live one.  An applied write installs the expiration
    /// that `spec_set_expire` describes; a rejected one changes nothing.
    pub fn set(&mut self, key: &String, val: Vec<u8>, opts: SetOptions, now: u64) -> (applied:
        bool)
        requires
            old(self).wf(),
            ts_ok(opts.expire),
        ensures
            final(self).wf(),
            spec_set_post(*old(self), *final(self), key@, val@, opts, now, applied),
    {
        let idx = self.find_index(key);
        let live = match idx {
            Some(i) => match self.entries[i].1.expire_at {
                Some(t) => t > now,
                None => true,
            },
            None => false,
        };
        let applied = match opts.mode {
            SetMode::Default => true,
            SetMode::Nx => !live,
            SetMode::Xx => live,
        };
        if applied {
            let keep: Option<u64> = match idx {
                Some(i) => if live {
                    self.entries[i].1.expire_at
                } else {
                    None
                },
                None => None,
            };
            let expire: Option<u64> = match opts.expire {
                Some(t) => Some(t),
                None => if opts.keep_ttl {
                    keep
                } else {
                    None
                },
            };
            proof {
                if idx is Some {
                    let i = idx.unwrap() as int;
                    assert(ts_ok(self.entries@[i].1@.expire_at));
                }
            }
            self.put(key, idx, Entry { value: val, expire_at: expire });
        }
        applied
    }

    /// Removes every given key; the result counts how many of them,
    /// duplicates counted once, were live at `now`.
    pub fn del(&mut self, keys: &[String], now: u64) -> (n: usize)
        requires
            old(self).wf(),
        ensures
            final(self).wf(),
            n == spec_del_count(*old(self), views_of(keys@), now),
            n <= keys@.len(),
            forall|k2: Seq<char>|
                views_of(keys@).contains(k2) ==> (#[trigger] final(self).spec_get(k2)) is None,
            forall|k2: Seq<char>|
                !views_of(keys@).contains(k2) ==> #[trigger] final(self).spec_get(k2) == old(
                    self,
                ).spec_get(k2),
    {
        let m = keys.len();
        let mut n: usize = 0;
        let mut j: usize = 0;
        proof {
            assert(views_of(keys@).take(0) =~= Seq::<Seq<char>>::empty());
        }
        while j < m
            invariant
                old(self).wf(),
                self.wf(),
                j <= m,
                m == keys@.len(),
                n <= j,
                n == spec_del_count(*old(self), views_of(keys@).take(j as int), now),
                forall|k2: Seq<char>|
                    views_of(keys@).take(j as int).contains(k2) ==> (#[trigger] self.spec_get(
                        k2,
                    )) is None,
                forall|k2: Seq<char>|
                    !views_of(keys@).take(j as int).contains(k2) ==> #[trigger] self.spec_get(k2)
                        == old(self).spec_get(k2),
            decreases m - j,
        {
            let ghost pre = *self;
            let ghost kv = keys@[j as int]@;
            let ghost taken = views_of(keys@).take(j as int);
            let ghost taken1 = views_of(keys@).take(j as int + 1);
            proof {
                assert(taken1.drop_last() =~= taken);
                assert(taken1.last() == kv);
            }
            let key = &keys[j];
            let mut was_live = false;
            match self.find_index(key) {
                Some(i) => {
                    was_live = match self.entries[i].1.expire_at {
                        Some(t) => t > now,
                        None => true,
                    };
                    let ghost s0 = self.entries@;
                    let _ = self.entries.remove(i);
                    proof {
                        lemma_remove_keeps_invariants(s0, i as int);
                        assert forall|k2: Seq<char>| true implies #[trigger] seq_get(
                            self.entries@,
                            k2,
                        ) == (if kv == k2 {
                            None::<EntryModel>
                        } else {
                            seq_get(s0, k2)
                        }) by {
                            lemma_seq_get_remove(s0, i as int, k2);
                        }
                    }
                },
                None => {},
            }
            proof {
                if taken.contains(kv) {
                    assert(pre.spec_get(kv) is None);
                    assert(!pre.spec_live(kv, now));
                    assert(!was_live);
                } else {
                    assert(pre.spec_get(kv) == old(self).spec_get(kv));
                    assert(was_live == old(self).spec_live(kv, now));
                }
                assert(taken1[j as int] == kv);
                assert forall|k2: Seq<char>| taken1.contains(k2) implies (#[trigger] self.spec_get(
                    k2,
                )) is None by {
                    if k2 != kv {
                        let w = choose|w: int| 0 <= w < taken1.len() && taken1[w] == k2;
                        assert(taken[w] == k2);
                        assert(taken.contains(k2));
                        assert(pre.spec_get(k2) is None);
                    }
                }
                assert forall|k2: Seq<char>| !taken1.contains(k2) implies #[trigger] self.spec_get(
                    k2,
                ) == old(self).spec_get(k2) by {
                    assert(k2 != kv);
                    if taken.contains(k2) {
                        let w = choose|w: int| 0 <= w < taken.len() && taken[w] == k2;
                        assert(taken1[w] == k2);
                        assert(taken1.contains(k2));
                    }
                    assert(pre.spec_get(k2) == old(self).spec_get(k2));
                }
            }
            if was_live {
                n = n + 1;
            }
            j = j + 1;
        }
        proof {
            assert(views_of(keys@).take(m as int) =~= views_of(keys@));
        }
        n
    }

    /// Counts how many of the given keys are live at `now`; a key given
    /// twice is counted twice.
    pub fn exists_count(&self, keys: &[String], now: u64) -> (n: usize)
        ensures
            n == spec_exists_count(*self, views_of(keys@), now),
            n <= keys@.len(),
    {
        let m = keys.len();
        let mut n: usize = 0;
        let mut j: usize = 0;
        proof {
            assert(views_of(keys@).take(0) =~= Seq::<Seq<char>>::empty());
        }
        while j < m
            invariant
                j <= m,
                m == keys@.len(),
                n <= j,
                n == spec_exists_count(*self, views_of(keys@).take(j as int), now),
            decreases m - j,
        {
            proof {
                assert(views_of(keys@).take(j as int + 1).drop_last() =~= views_of(keys@).take(
                    j as int,
                ));
                assert(views_of(keys@).take(j as int + 1).last() == keys@[j as int]@);
            }
            if self.is_live(&keys[j], now) {
                n = n + 1;
            }
            j = j + 1;
        }
        proof {
            assert(views_of(keys@).take(m as int) =~= views_of(keys@));
        }
        n
    }

    /// Stamps the absolute expiration `when_ms` on a live key; an absent or
    /// expired key is left alone and reported as missing.
    pub fn expire_at(&mut self, key: &String, when_ms: u64, now: u64) -> (r: bool)
        requires
            old(self).wf(),
            when_ms <= MAX_EXPIRE_MS,
        ensures
            final(self).wf(),
            spec_expire_post(*old(self), *final(self), key@, when_ms, now, r),
    {
        let idx = self.find_index(key);
        match idx {
            Some(i) => {
                let live = match self.entries[i].1.expire_at {
                    Some(t) => t > now,
                    None => true,
                };
                if live {
                    let v = vstd::slice::slice_to_vec(self.entries[i].1.value.as_slice());
                    self.put(key, idx, Entry { value: v, expire_at: Some(when_ms) });
                    true
                } else {
                    false
                }
            },
            None => false,
        }
    }

    /// Clears any expiration on a live key, which then never expires; an
    /// absent or expired key is left alone and reported as missing.
    pub fn persist(&mut self, key: &String, now: u64) -> (r: bool)
        requires
            old(self).wf(),
        ensures
            final(self).wf(),
            spec_persist_post(*old(self), *final(self), key@, now, r),
    {
        let idx = self.find_index(key);
        match idx {
            Some(i) => {
                let live = match self.entries[i].1.expire_at {
                    Some(t) => t > now,
                    None => true,
                };
                if live {
                    let v = vstd::slice::slice_to_vec(self.entries[i].1.value.as_slice());
                    self.put(key, idx, Entry { value: v, expire_at: None });
                    true
                } else {
                    false
                }
            },
            None => false,
        }
    }

    /// Reports the key's remaining time to live in milliseconds: nothing
    /// for an absent key, `-1` for one that never expires or has already
    /// expired, and the positive remainder otherwise.
    pub fn ttl_ms(&self, key: &String, now: u64) -> (r: Option<i64>)
        requires
            self.wf(),
        ensures
            r == spec_ttl(*self, key@, now),
    {
        match self.find_index(key) {
            Some(i) => {
                match self.entries[i].1.expire_at {
                    Some(t) => {
                        if t > now {
                            proof {
                                assert(ts_ok(self.entries@[i as int].1@.expire_at));
                            }
                            let rem: u64 = t - now;
                            Some(rem as i64)
                        } else {
                            Some(-1i64)
                        }
                    },
                    None => Some(-1i64),
                }
            },
            None => None,
        }
    }
}

proof fn lemma_seq_get_some_bounded(s: Seq<(String, Entry)>, k: Seq<char>)
    requires
        expires_bounded(s),
        seq_get(s, k) is Some,
    ensures
        ts_ok(seq_get(s, k).unwrap().expire_at),
    decreases s.len(),
{
    if s.len() > 0 && s[0].0@ != k {
        assert forall|j: int| 0 <= j < s.skip(1).len() implies ts_ok(
            #[trigger] s.skip(1)[j].1@.expire_at,
        ) by {
            assert(s.skip(1)[j] == s[j + 1]);
        }
        lemma_seq_get_some_bounded(s.skip(1), k);
    } else {
        assert(ts_ok(s[0].1@.expire_at));
    }
}

/// In a well-formed store every stored expiration instant is bounded.
pub proof fn lemma_wf_expire_bounded(s: Store, k: Seq<char>)
    requires
        s.wf(),
        s.spec_get(k) is Some,
    ensures
        ts_ok(s.spec_get(k).unwrap().expire_at),
{
    lemma_seq_get_some_bounded(s.entries@, k);
}

/// A key never written is wholly unknown: it is not live at any instant
/// and reports no time to live.
pub proof fn lemma_unwritten_key_absent(s: Store, k: Seq<char>, now: u64)
    requires
        forall|k2: Seq<char>| (#[trigger] s.spec_get(k2)) is None,
    ensures
        !s.spec_live(k, now),
        spec_ttl(s, k, now) is None,
{
}

/// After an applied default-mode write without an expiration option, the
/// key is live at every instant and holds exactly the written value.
pub proof fn lemma_set_default_then_get(
    pre: Store,
    post: Store,
    k: Seq<char>,
    v: Seq<u8>,
    opts: SetOptions,
    now: u64,
    later: u64,
    applied: bool,
)
    requires
        opts.mode is Default,
        opts.expire is None,
        !opts.keep_ttl,
        spec_set_post(pre, post, k, v, opts, now, applied),
    ensures
        applied,
        post.spec_live(k, later),
        post.spec_get(k).unwrap().value == v,
{
}

/// A conditional write gated on absence succeeds on an absent key and
/// stores its value; a second such write then fails and leaves the first
/// value in place.
pub proof fn lemma_set_nx_two_writes(
    pre: Store,
    mid: Store,
    post: Store,
    k: Seq<char>,
    v1: Seq<u8>,
    v2: Seq<u8>,
    opts: SetOptions,
    now1: u64,
    now2: u64,
    r1: bool,
    r2: bool,
)
    requires
        opts.mode is Nx,
        opts.expire is None,
        !pre.spec_live(k, now1),
        spec_set_post(pre, mid, k, v1, opts, now1, r1),
        spec_set_post(mid, post, k, v2, opts, now2, r2),
    ensures
        r1,
        !r2,
        post.spec_get(k).unwrap().value == v1,
        post.spec_live(k, now2),
{
}

/// A conditional write gated on presence fails on an absent key and
/// creates nothing; after an unconditional write it succeeds and replaces
/// the value.
pub proof fn lemma_set_xx_absent_then_present(
    pre: Store,
    mid: Store,
    post: Store,
    k: Seq<char>,
    v1: Seq<u8>,
    v2: Seq<u8>,
    xx: SetOptions,
    dflt: SetOptions,
    now: u64,
    r0: bool,
    r1: bool,
    r2: bool,
    scratch: Store,
)
    requires
        xx.mode is Xx,
        xx.expire is None,
        dflt.mode is Default,
        dflt.expire is None,
        !dflt.keep_ttl,
        !pre.spec_live(k, now),
        spec_set_post(pre, scratch, k, v1, xx, now, r0),
        spec_set_post(pre, mid, k, v1, dflt, now, r1),
        spec_set_post(mid, post, k, v2, xx, now, r2),
    ensures
        !r0,
        scratch.spec_get(k) == pre.spec_get(k),
        r1,
        r2,
        post.spec_get(k).unwrap().value == v2,
{
}

/// Once a key's expiration instant has been reached, the key counts as
/// absent and its time to live reads as `-1`, though the entry is still
/// materially present.
pub proof fn lemma_expired_key_reads_absent(s: Store, k: Seq<char>, when_ms: u64, later: u64)
    requires
        s.spec_get(k) is Some,
        s.spec_get(k).unwrap().expire_at == Some(when_ms),
        when_ms <= later,
    ensures
        !s.spec_live(k, later),
        spec_ttl(s, k, later) == Some(-1i64),
{
}

/// Clearing the expiration of a live key leaves the key live forever with
/// its value intact, and its time to live reads as `-1` from then on.
pub proof fn lemma_persist_clears_ttl(
    pre: Store,
    post: Store,
    k: Seq<char>,
    now: u64,
    later: u64,
    r: bool,
)
    requires
        pre.spec_live(k, now),
        spec_persist_post(pre, post, k, now, r),
    ensures
        r,
        post.spec_live(k, later),
        spec_ttl(post, k, later) == Some(-1i64),
        post.spec_get(k).unwrap().value == pre.spec_get(k).unwrap().value,
{
}

/// Over two distinct keys of which only the first is live, a deletion
/// removes one entry and a presence count reports one key.
pub proof fn lemma_del_exists_counts(s: Store, k1: Seq<char>, k2: Seq<char>, now: u64)
    requires
        s.spec_live(k1, now),
        !s.spec_live(k2, now),
        k1 != k2,
    ensures
        spec_del_count(s, seq![k1, k2], now) == 1,
        spec_exists_count(s, seq![k1, k2], now) == 1,
{
    let ks = seq![k1, k2];
    assert(ks.drop_last() =~= seq![k1]);
    assert(seq![k1].drop_last() =~= Seq::<Seq<char>>::empty());
    assert(spec_del_count(s, Seq::<Seq<char>>::empty(), now) == 0);
    assert(spec_exists_count(s, Seq::<Seq<char>>::empty(), now) == 0);
    assert(seq![k1].last() == k1);
    assert(spec_del_count(s, seq![k1], now) == 1);
    assert(spec_exists_count(s, seq![k1], now) == 1);
    assert(!ks.drop_last().contains(ks.last()));
}

} // verus!
