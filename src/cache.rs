//! A bounded cache of file-hook verdicts. It is limited both in the number of
//! entries and in their total weight, an estimate of the memory they take;
//! the least recently used entries leave first.
use crate::hook::FileHookExecutionID;
use crate::text::{byte_len, string_byte_len};
use crate::types::{HgChangesetId, HookExecution};
use vstd::prelude::*;

verus! {

/// Weight of a string besides its bytes.
pub const STRING_OVERHEAD: u128 = 24;

/// Weight of a changeset id.
pub const ID_WEIGHT: u128 = 20;

/// Weight of a verdict besides the strings of a rejection.
pub const VERDICT_OVERHEAD: u128 = 56;

/// Weight of a rejection besides its strings.
pub const REJECTION_OVERHEAD: u128 = 48;

pub open spec fn str_weight(s: Seq<char>) -> nat {
    (STRING_OVERHEAD + byte_len(s)) as nat
}

pub open spec fn key_weight(k: FileHookExecutionID) -> nat {
    (ID_WEIGHT + str_weight(k.hook_name@) + str_weight(k.file.path@)) as nat
}

pub open spec fn value_weight(v: HookExecution) -> nat {
    match v {
        HookExecution::Accepted => VERDICT_OVERHEAD as nat,
        HookExecution::Rejected(info) => (VERDICT_OVERHEAD + REJECTION_OVERHEAD + str_weight(
            info.description@,
        ) + str_weight(info.long_description@)) as nat,
    }
}

/// Keys that agree on changeset, hook name and file are one key.
pub open spec fn same_key(a: FileHookExecutionID, b: FileHookExecutionID) -> bool {
    a.cs_id == b.cs_id && a.hook_name@ == b.hook_name@ && a.file.path@ == b.file.path@
        && a.file.changeset_id == b.file.changeset_id
}

pub struct CacheEntry {
    pub key: FileHookExecutionID,
    pub value: HookExecution,
    pub weight: u128,
}

/// The verdict that the latest entry for `k` holds.
pub open spec fn lookup(s: Seq<CacheEntry>, k: FileHookExecutionID) -> Option<HookExecution>
    decreases s.len(),
{
    if s.len() == 0 {
        None
    } else if same_key(s.last().key, k) {
        Some(s.last().value)
    } else {
        lookup(s.drop_last(), k)
    }
}

pub open spec fn total(s: Seq<CacheEntry>) -> nat
    decreases s.len(),
{
    if s.len() == 0 {
        0
    } else {
        (total(s.drop_last()) + s.last().weight) as nat
    }
}

/// The verdict that the latest entry for hook `hook` on the file at `path`,
/// both at changeset `id`, holds.
pub open spec fn cached_verdict(
    s: Seq<CacheEntry>,
    id: HgChangesetId,
    path: Seq<char>,
    hook: Seq<char>,
) -> Option<HookExecution>
    decreases s.len(),
{
    if s.len() == 0 {
        None
    } else if s.last().key.cs_id == id && s.last().key.hook_name@ == hook && s.last().key.file.path@
        == path && s.last().key.file.changeset_id == id {
        Some(s.last().value)
    } else {
        cached_verdict(s.drop_last(), id, path, hook)
    }
}

pub proof fn lemma_cached_verdict(s: Seq<CacheEntry>, k: FileHookExecutionID)
    requires
        k.file.changeset_id == k.cs_id,
    ensures
        lookup(s, k) == cached_verdict(s, k.cs_id, k.file.path@, k.hook_name@),
    decreases s.len(),
{
    if s.len() > 0 {
        lemma_cached_verdict(s.drop_last(), k);
    }
}

/// `s` with its latest entry for `k` taken out.
pub open spec fn without(s: Seq<CacheEntry>, k: FileHookExecutionID) -> Seq<CacheEntry>
    decreases s.len(),
{
    if s.len() == 0 {
        s
    } else if same_key(s.last().key, k) {
        s.drop_last()
    } else {
        without(s.drop_last(), k).push(s.last())
    }
}

pub open spec fn fits(s: Seq<CacheEntry>, entry_limit: nat, weight_limit: nat) -> bool {
    s.len() <= entry_limit && total(s) <= weight_limit
}

/// Entries once `k` is stored with `v`, before anything is evicted.
pub open spec fn with_entry(
    s: Seq<CacheEntry>,
    k: FileHookExecutionID,
    v: HookExecution,
) -> Seq<CacheEntry> {
    without(s, k).push(CacheEntry { key: k, value: v, weight: (key_weight(k) + value_weight(v)) as u128 })
}

/// `new` is what remains of `old` once `k` is stored with `v` and the least
/// recently used entries are evicted, as few as the limits allow.
pub open spec fn inserted(
    old: Seq<CacheEntry>,
    new: Seq<CacheEntry>,
    k: FileHookExecutionID,
    v: HookExecution,
    entry_limit: nat,
    weight_limit: nat,
) -> bool {
    let base = with_entry(old, k, v);
    &&& fits(new, entry_limit, weight_limit)
    &&& exists|j: int|
        0 <= j <= base.len() && new == #[trigger] base.subrange(j, base.len() as int) && (j == 0
            || !fits(base.subrange(j - 1, base.len() as int), entry_limit, weight_limit))
}

pub proof fn lemma_without_len(s: Seq<CacheEntry>, k: FileHookExecutionID)
    ensures
        without(s, k).len() <= s.len(),
    decreases s.len(),
{
    if s.len() > 0 {
        lemma_without_len(s.drop_last(), k);
    }
}

proof fn lemma_total_remove(s: Seq<CacheEntry>, i: int)
    requires
        0 <= i < s.len(),
    ensures
        total(s.remove(i)) + s[i].weight == total(s),
    decreases s.len(),
{
    if i < s.len() - 1 {
        lemma_total_remove(s.drop_last(), i);
        assert(s.remove(i).drop_last() =~= s.drop_last().remove(i));
    } else {
        assert(s.remove(i) =~= s.drop_last());
    }
}

proof fn lemma_remove_last_match(s: Seq<CacheEntry>, i: int, k: FileHookExecutionID)
    requires
        0 <= i < s.len(),
        same_key(s[i].key, k),
        forall|j: int| i < j < s.len() ==> !same_key(#[trigger] s[j].key, k),
    ensures
        s.remove(i) == without(s, k),
        forall|k2: FileHookExecutionID|
            !same_key(k, k2) ==> lookup(#[trigger] s.remove(i), k2) == lookup(s, k2),
    decreases s.len(),
{
    if i < s.len() - 1 {
        lemma_remove_last_match(s.drop_last(), i, k);
        assert(s.remove(i).drop_last() =~= s.drop_last().remove(i));
        assert(s.remove(i) =~= s.drop_last().remove(i).push(s.last()));
        assert forall|k2: FileHookExecutionID| !same_key(k, k2) implies lookup(
            #[trigger] s.remove(i),
            k2,
        ) == lookup(s, k2) by {
            assert(s.remove(i).last() == s.last());
        }
    } else {
        assert(s.remove(i) =~= s.drop_last());
        assert forall|k2: FileHookExecutionID| !same_key(k, k2) implies lookup(
            #[trigger] s.remove(i),
            k2,
        ) == lookup(s, k2) by {
            assert(!same_key(s.last().key, k2));
        }
    }
}

proof fn lemma_without_absent(s: Seq<CacheEntry>, k: FileHookExecutionID)
    requires
        lookup(s, k) is None,
    ensures
        without(s, k) == s,
    decreases s.len(),
{
    if s.len() > 0 {
        lemma_without_absent(s.drop_last(), k);
        assert(s.drop_last().push(s.last()) =~= s);
    }
}

proof fn lemma_lookup_suffix(s: Seq<CacheEntry>, j: int, k: FileHookExecutionID)
    requires
        0 <= j <= s.len(),
    ensures
        lookup(s.subrange(j, s.len() as int), k) is None || lookup(
            s.subrange(j, s.len() as int),
            k,
        ) == lookup(s, k),
    decreases s.len(),
{
    if j < s.len() {
        let t = s.subrange(j, s.len() as int);
        assert(t.last() == s.last());
        assert(t.drop_last() =~= s.drop_last().subrange(j, s.len() - 1));
        lemma_lookup_suffix(s.drop_last(), j, k);
    }
}

proof fn lemma_total_drop_first(s: Seq<CacheEntry>)
    requires
        s.len() > 0,
    ensures
        total(s) == s[0].weight + total(s.subrange(1, s.len() as int)),
{
    lemma_total_remove(s, 0);
    assert(s.remove(0) =~= s.subrange(1, s.len() as int));
}

/// A longer tail of the entries weighs at least as much.
proof fn lemma_total_suffix_grows(s: Seq<CacheEntry>, j: int)
    requires
        0 < j <= s.len(),
    ensures
        total(s.subrange(j - 1, s.len() as int)) >= total(s.subrange(j, s.len() as int)),
{
    let t = s.subrange(j - 1, s.len() as int);
    lemma_total_drop_first(t);
    assert(t.subrange(1, t.len() as int) =~= s.subrange(j, s.len() as int));
}

pub struct VerdictCache {
    entries: Vec<CacheEntry>,
    entry_limit: usize,
    weight_limit: usize,
    total_weight: u128,
}

impl VerdictCache {
    /// The entries, least recently used first.
    pub closed spec fn entries(&self) -> Seq<CacheEntry> {
        self.entries@
    }

    pub closed spec fn entry_limit(&self) -> nat {
        self.entry_limit as nat
    }

    pub closed spec fn weight_limit(&self) -> nat {
        self.weight_limit as nat
    }

    pub closed spec fn wf(&self) -> bool {
        &&& self.total_weight == total(self.entries@)
        &&& fits(self.entries@, self.entry_limit as nat, self.weight_limit as nat)
        &&& forall|i: int|
            0 <= i < self.entries@.len() ==> (#[trigger] self.entries@[i]).weight == key_weight(
                self.entries@[i].key,
            ) + value_weight(self.entries@[i].value)
    }

    pub fn with_limits(entry_limit: usize, weight_limit: usize) -> (r: VerdictCache)
        ensures
            r.wf(),
            r.entries().len() == 0,
            r.entry_limit() == entry_limit,
            r.weight_limit() == weight_limit,
    {
        VerdictCache { entries: Vec::new(), entry_limit, weight_limit, total_weight: 0 }
    }

    /// Number of entries held.
    pub fn len(&self) -> (r: usize)
        ensures
            r == self.entries().len(),
    {
        self.entries.len()
    }

    /// Total weight of the entries held.
    pub fn total_weight(&self) -> (r: u128)
        requires
            self.wf(),
        ensures
            r == total(self.entries()),
    {
        self.total_weight
    }

    fn position(&self, key: &FileHookExecutionID) -> (r: Option<usize>)
        ensures
            match r {
                Some(i) => i < self.entries@.len() && same_key(self.entries@[i as int].key, *key)
                    && forall|j: int|
                    i < j < self.entries@.len() ==> !same_key(#[trigger] self.entries@[j].key, *key),
                None => lookup(self.entries@, *key) is None,
            },
    {
        let mut i: usize = self.entries.len();
        proof {
            assert(self.entries@.subrange(0, i as int) =~= self.entries@);
        }
        while i > 0
            invariant
                i <= self.entries@.len(),
                forall|j: int| i <= j < self.entries@.len() ==> !same_key(#[trigger] self.entries@[j].key, *key),
                lookup(self.entries@, *key) == lookup(self.entries@.subrange(0, i as int), *key),
            decreases i,
        {
            proof {
                assert(self.entries@.subrange(0, i as int).drop_last() =~= self.entries@.subrange(
                    0,
                    i - 1,
                ));
            }
            let e = &self.entries[i - 1];
            if e.key.cs_id == key.cs_id && e.key.hook_name == key.hook_name && e.key.file.path
                == key.file.path && e.key.file.changeset_id == key.file.changeset_id {
                return Some(i - 1);
            }
            i = i - 1;
        }
        proof {
            assert(self.entries@.subrange(0, 0) =~= Seq::<CacheEntry>::empty());
        }
        None
    }

    /// The cached verdict for `key`, which becomes the most recently used.
    pub fn get(&mut self, key: &FileHookExecutionID) -> (r: Option<HookExecution>)
        requires
            old(self).wf(),
        ensures
            final(self).wf(),
            r == lookup(old(self).entries(), *key),
            r is None ==> *final(self) == *old(self),
            forall|k: FileHookExecutionID| #[trigger]
                lookup(final(self).entries(), k) == lookup(old(self).entries(), k),
            final(self).entries().len() == old(self).entries().len(),
            final(self).entry_limit() == old(self).entry_limit(),
            final(self).weight_limit() == old(self).weight_limit(),
    {
        proof {
            assert(self.entries@.subrange(0, self.entries@.len() as int) =~= self.entries@);
        }
        match self.position(key) {
            None => None,
            Some(i) => {
                let ghost s = self.entries@;
                proof {
                    lemma_remove_last_match(s, i as int, *key);
                    lemma_total_remove(s, i as int);
                    assert(lookup(s, *key) == Some(s[i as int].value)) by {
                        lemma_lookup_at_last_match(s, i as int, *key);
                    }
                }
                let e = self.entries.remove(i);
                let v = e.value.duplicate();
                self.entries.push(e);
                proof {
                    assert(self.entries@.drop_last() =~= s.remove(i as int));
                    assert forall|k: FileHookExecutionID| #[trigger]
                        lookup(self.entries@, k) == lookup(s, k) by {
                        assert(self.entries@.last() == s[i as int]);
                        if same_key(*key, k) {
                            lemma_lookup_at_last_match(s, i as int, k);
                        }
                    }
                    assert forall|j: int| 0 <= j < self.entries@.len() implies (
                    #[trigger] self.entries@[j]).weight == key_weight(self.entries@[j].key)
                        + value_weight(self.entries@[j].value) by {
                        if j < i {
                            assert(self.entries@[j] == s[j]);
                        } else if j < self.entries@.len() - 1 {
                            assert(self.entries@[j] == s[j + 1]);
                        }
                    }
                }
                Some(v)
            },
        }
    }

    /// Evicts entries from the front, least recently used first, until both
    /// limits hold.
    fn evict_to_limits(&mut self)
        requires
            old(self).total_weight == total(old(self).entries@),
            forall|i: int|
                0 <= i < old(self).entries@.len() ==> (#[trigger] old(self).entries@[i]).weight
                    == key_weight(old(self).entries@[i].key) + value_weight(
                    old(self).entries@[i].value,
                ),
        ensures
            final(self).wf(),
            final(self).entry_limit == old(self).entry_limit,
            final(self).weight_limit == old(self).weight_limit,
            ({
                let base = old(self).entries@;
                exists|j: int|
                    0 <= j <= base.len() && final(self).entries@ == #[trigger] base.subrange(
                        j,
                        base.len() as int,
                    ) && (j == 0 || !fits(
                        base.subrange(j - 1, base.len() as int),
                        old(self).entry_limit as nat,
                        old(self).weight_limit as nat,
                    ))
            }),
    {
        let ghost base = self.entries@;
        let start_len: usize = self.entries.len();
        let mut j: usize = 0;
        proof {
            assert(base.subrange(0, base.len() as int) =~= base);
        }
        while self.entries.len() > self.entry_limit || self.total_weight > self.weight_limit as u128
            invariant
                j <= base.len(),
                base.len() == start_len,
                j + self.entries@.len() == base.len(),
                self.entry_limit == old(self).entry_limit,
                self.weight_limit == old(self).weight_limit,
                self.entries@ == base.subrange(j as int, base.len() as int),
                self.total_weight == total(self.entries@),
                j == 0 || !fits(
                    base.subrange(j - 1, base.len() as int),
                    self.entry_limit as nat,
                    self.weight_limit as nat,
                ),
                forall|i: int|
                    0 <= i < base.len() ==> (#[trigger] base[i]).weight == key_weight(base[i].key)
                        + value_weight(base[i].value),
            decreases self.entries@.len(),
        {
            proof {
                if self.entries@.len() == 0 {
                    assert(total(self.entries@) == 0);
                }
                lemma_total_drop_first(self.entries@);
            }
            let e = self.entries.remove(0);
            self.total_weight = self.total_weight - e.weight;
            proof {
                assert(self.entries@ =~= base.subrange(j + 1, base.len() as int));
            }
            j = j + 1;
        }
        proof {
            let fin = self.entries@;
            assert forall|i: int| 0 <= i < fin.len() implies (#[trigger] fin[i]).weight
                == key_weight(fin[i].key) + value_weight(fin[i].value) by {
                assert(fin[i] == base[j + i]);
            }
            assert(self.entries@ == base.subrange(j as int, base.len() as int));
        }
    }

    /// Stores `value` for `key` as the most recently used entry, then evicts
    /// the least recently used entries until both limits hold again.
    pub fn insert(&mut self, key: FileHookExecutionID, value: HookExecution)
        requires
            old(self).wf(),
        ensures
            final(self).wf(),
            final(self).entry_limit() == old(self).entry_limit(),
            final(self).weight_limit() == old(self).weight_limit(),
            inserted(
                old(self).entries(),
                final(self).entries(),
                key,
                value,
                old(self).entry_limit(),
                old(self).weight_limit(),
            ),
            key_weight(key) + value_weight(value) <= old(self).weight_limit() && old(self).entry_limit()
                >= 1 ==> lookup(final(self).entries(), key) == Some(value),
            forall|k: FileHookExecutionID|
                !same_key(key, k) ==> lookup(#[trigger] final(self).entries(), k) is None || lookup(
                    final(self).entries(),
                    k,
                ) == lookup(old(self).entries(), k),
    {
        let ghost s = self.entries@;
        proof {
            assert(self.entries@.subrange(0, self.entries@.len() as int) =~= self.entries@);
        }
        match self.position(&key) {
            Some(i) => {
                proof {
                    lemma_remove_last_match(s, i as int, key);
                    lemma_total_remove(s, i as int);
                }
                let e = self.entries.remove(i);
                self.total_weight = self.total_weight - e.weight;
                proof {
                    assert forall|j: int| 0 <= j < self.entries@.len() implies (
                    #[trigger] self.entries@[j]).weight == key_weight(self.entries@[j].key)
                        + value_weight(self.entries@[j].value) by {
                        if j < i {
                            assert(self.entries@[j] == s[j]);
                        } else {
                            assert(self.entries@[j] == s[j + 1]);
                        }
                    }
                }
            },
            None => {
                proof {
                    lemma_without_absent(s, key);
                }
            },
        }
        let ghost w = without(s, key);
        assert(self.entries@ == w);
        proof {
            assert forall|k: FileHookExecutionID| !same_key(key, k) implies lookup(w, k) == lookup(s, k) by {
                lemma_lookup_without(s, key, k);
            }
        }
        let weight = entry_weight(&key, &value);
        self.entries.push(CacheEntry { key, value, weight });
        let ghost base = self.entries@;
        proof {
            assert(base.drop_last() =~= w);
            assert(base == with_entry(s, key, value));
        }
        self.total_weight = self.total_weight + weight;
        proof {
            assert forall|i: int| 0 <= i < base.len() implies (#[trigger] base[i]).weight
                == key_weight(base[i].key) + value_weight(base[i].value) by {
                if i < base.len() - 1 {
                    assert(base[i] == w[i]);
                }
            }
        }
        self.evict_to_limits();
        let ghost j = choose|j: int|
            0 <= j <= base.len() && self.entries@ == #[trigger] base.subrange(j, base.len() as int)
                && (j == 0 || !fits(
                base.subrange(j - 1, base.len() as int),
                self.entry_limit as nat,
                self.weight_limit as nat,
            ));
        proof {
            assert forall|k: FileHookExecutionID| !same_key(key, k) implies lookup(
                #[trigger] self.entries@,
                k,
            ) is None || lookup(self.entries@, k) == lookup(s, k) by {
                lemma_lookup_suffix(base, j as int, k);
                assert(lookup(base, k) == lookup(w, k));
            }
            if key_weight(key) + value_weight(value) <= self.weight_limit && self.entry_limit >= 1 {
                if j == base.len() {
                    let t = base.subrange(j - 1, base.len() as int);
                    assert(t.drop_last() =~= Seq::<CacheEntry>::empty());
                    assert(t.last() == base[base.len() - 1]);
                    assert(total(t.drop_last()) == 0);
                    assert(total(t) == t.last().weight);
                    assert(!fits(t, self.entry_limit as nat, self.weight_limit as nat));
                    assert(false);
                }
                assert(self.entries@.last() == base.last());
                assert(same_key(key, key));
            }
        }
    }
}

proof fn lemma_lookup_at_last_match(s: Seq<CacheEntry>, i: int, k: FileHookExecutionID)
    requires
        0 <= i < s.len(),
        same_key(s[i].key, k),
        forall|j: int| i < j < s.len() ==> !same_key(#[trigger] s[j].key, k),
    ensures
        lookup(s, k) == Some(s[i].value),
    decreases s.len(),
{
    if i < s.len() - 1 {
        lemma_lookup_at_last_match(s.drop_last(), i, k);
    }
}

proof fn lemma_lookup_without(s: Seq<CacheEntry>, k: FileHookExecutionID, k2: FileHookExecutionID)
    requires
        !same_key(k, k2),
    ensures
        lookup(without(s, k), k2) == lookup(s, k2),
    decreases s.len(),
{
    if s.len() > 0 {
        lemma_lookup_without(s.drop_last(), k, k2);
        if !same_key(s.last().key, k) {
            assert(without(s, k).drop_last() =~= without(s.drop_last(), k));
        }
    }
}

/// The weight of a cache entry for `key` holding `value`.
pub fn entry_weight(key: &FileHookExecutionID, value: &HookExecution) -> (r: u128)
    ensures
        r == key_weight(*key) + value_weight(*value),
{
    let name = string_byte_len(&key.hook_name) as u128;
    let path = string_byte_len(&key.file.path) as u128;
    let k = ID_WEIGHT + STRING_OVERHEAD + name + STRING_OVERHEAD + path;
    match value {
        HookExecution::Accepted => k + VERDICT_OVERHEAD,
        HookExecution::Rejected(info) => {
            let d = string_byte_len(&info.description) as u128;
            let l = string_byte_len(&info.long_description) as u128;
            k + VERDICT_OVERHEAD + REJECTION_OVERHEAD + STRING_OVERHEAD + d + STRING_OVERHEAD + l
        },
    }
}

} // verus!
