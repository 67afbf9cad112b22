//! The in-memory index of the on-disk content-addressed store.
//!
//! The index maps each cached descriptor to its last access time. Commits
//! are admitted only after the streamed bytes verify against the
//! descriptor; eviction drops least-recently-used non-static entries
//! until usage falls to 90% of the configured limit. Static entries
//! (hash prefix in the node's assigned range) are never evicted.
use vstd::prelude::*;
use crate::bytesutil::{all_hex_digits, bytes_eq, is_hex_digit};
use crate::digest::{digest, digest_of};
use crate::fileid::FileId;

verus! {

/// Why a commit was refused.
#[derive(Clone, Copy, PartialEq, Eq, Structural, Debug)]
pub enum CacheError {
    /// The streamed bytes do not match the descriptor's hash or size.
    Integrity,
}

/// One indexed object: its descriptor and when it was last served.
pub struct CacheEntry {
    pub id: FileId,
    pub last_access: u64,
}

/// Numeric value of a hex digit.
pub open spec fn hex_val(b: u8) -> nat {
    if 0x30 <= b <= 0x39 {
        (b - 0x30) as nat
    } else {
        (b - 0x61 + 10) as nat
    }
}

/// The 16-bit shard prefix of a hash: its first four hex digits.
pub open spec fn prefix_val(hash: Seq<u8>) -> nat {
    ((hex_val(hash[0]) * 16 + hex_val(hash[1])) * 16 + hex_val(hash[2])) * 16 + hex_val(hash[3])
}

/// Is the descriptor pinned for this node (hash prefix in the range)?
pub open spec fn is_static_id(id: FileId, ranges: Seq<u16>) -> bool {
    ranges.contains(prefix_val(id.hash@) as u16)
}

/// Computes the shard prefix of a well-formed hash.
pub fn hash_prefix(hash: &[u8]) -> (r: u16)
    requires
        hash@.len() >= 4,
        all_hex_digits(hash@),
    ensures
        r as nat == prefix_val(hash@),
{
    proof {
        assert(is_hex_digit(hash@[0]) && is_hex_digit(hash@[1]) && is_hex_digit(hash@[2])
            && is_hex_digit(hash@[3]));
    }
    let d0 = hex_val_exec(hash[0]);
    let d1 = hex_val_exec(hash[1]);
    let d2 = hex_val_exec(hash[2]);
    let d3 = hex_val_exec(hash[3]);
    ((d0 as u16 * 16 + d1 as u16) * 16 + d2 as u16) * 16 + d3 as u16
}

fn hex_val_exec(b: u8) -> (r: u8)
    requires
        is_hex_digit(b),
    ensures
        r as nat == hex_val(b),
        r < 16,
{
    if b <= 0x39 {
        b - 0x30
    } else {
        b - 0x61 + 10
    }
}

/// Total bytes of all indexed entries.
pub open spec fn total_of(s: Seq<CacheEntry>) -> nat
    decreases s.len(),
{
    if s.len() == 0 {
        0
    } else {
        total_of(s.drop_last()) + s.last().id.size as nat
    }
}

/// Bytes contributed by an entry to the evictable (non-static) total.
pub open spec fn ns_bytes(e: CacheEntry, ranges: Seq<u16>) -> nat {
    if is_static_id(e.id, ranges) {
        0
    } else {
        e.id.size as nat
    }
}

/// Total bytes of non-static entries: the quantity eviction bounds.
pub open spec fn ns_total(s: Seq<CacheEntry>, ranges: Seq<u16>) -> nat
    decreases s.len(),
{
    if s.len() == 0 {
        0
    } else {
        ns_total(s.drop_last(), ranges) + ns_bytes(s.last(), ranges)
    }
}

/// Removing one entry removes exactly its contribution from each total.
proof fn lemma_totals_remove(s: Seq<CacheEntry>, ranges: Seq<u16>, i: int)
    requires
        0 <= i < s.len(),
    ensures
        total_of(s.remove(i)) + s[i].id.size as nat == total_of(s),
        ns_total(s.remove(i), ranges) + ns_bytes(s[i], ranges) == ns_total(s, ranges),
    decreases s.len(),
{
    if i == s.len() - 1 {
        assert(s.remove(i) =~= s.drop_last());
    } else {
        assert(s.remove(i).drop_last() =~= s.drop_last().remove(i));
        assert(s.remove(i).last() == s.last());
        lemma_totals_remove(s.drop_last(), ranges, i);
        assert(s.drop_last()[i] == s[i]);
    }
}

/// Updating an entry's timestamp changes neither total.
proof fn lemma_totals_update_time(s: Seq<CacheEntry>, ranges: Seq<u16>, i: int, t: u64)
    requires
        0 <= i < s.len(),
    ensures
        total_of(s.update(i, CacheEntry { id: s[i].id, last_access: t })) == total_of(s),
        ns_total(s.update(i, CacheEntry { id: s[i].id, last_access: t }), ranges) == ns_total(
            s,
            ranges,
        ),
    decreases s.len(),
{
    let s2 = s.update(i, CacheEntry { id: s[i].id, last_access: t });
    if i == s.len() - 1 {
        assert(s2.drop_last() =~= s.drop_last());
        assert(ns_bytes(s2.last(), ranges) == ns_bytes(s.last(), ranges));
    } else {
        assert(s2.drop_last() =~= s.drop_last().update(i, CacheEntry { id: s[i].id, last_access: t }));
        assert(s2.last() == s.last());
        lemma_totals_update_time(s.drop_last(), ranges, i, t);
        assert(s.drop_last()[i] == s[i]);
    }
}

/// The evictable total never exceeds the overall total.
proof fn lemma_ns_le_total(s: Seq<CacheEntry>, ranges: Seq<u16>)
    ensures
        ns_total(s, ranges) <= total_of(s),
    decreases s.len(),
{
    if s.len() > 0 {
        lemma_ns_le_total(s.drop_last(), ranges);
    }
}

/// The total is bounded by the entry count times the largest size.
proof fn lemma_total_bound(s: Seq<CacheEntry>)
    ensures
        total_of(s) <= s.len() * 0xffff_ffff_ffff_ffff,
    decreases s.len(),
{
    if s.len() > 0 {
        lemma_total_bound(s.drop_last());
    }
}

/// Does the index hold an entry for `id`?
pub open spec fn contains_id(s: Seq<CacheEntry>, id: FileId) -> bool {
    exists|i: int| 0 <= i < s.len() && s[i].id.eqv(id)
}

/// The LRU index of the cache store.
pub struct CacheIndex {
    /// The indexed entries, one per on-disk file.
    pub entries: Vec<CacheEntry>,
    /// Bound on the evictable (non-static) bytes.
    pub size_limit: u64,
    /// The shard prefixes pinned on this node.
    pub static_ranges: Vec<u16>,
    /// Cached sum of all entry sizes.
    pub total_bytes: u128,
    /// Cached sum of non-static entry sizes.
    pub nonstatic_bytes: u128,
}

impl CacheIndex {
    /// Invariant: descriptors well-formed and unique, cached sums exact.
    pub open spec fn wf(&self) -> bool {
        &&& forall|i: int| 0 <= i < self.entries@.len() ==> (#[trigger] self.entries@[i].id).wf()
        &&& forall|i: int, j: int|
            0 <= i < j < self.entries@.len() ==> !self.entries@[i].id.eqv(self.entries@[j].id)
        &&& self.total_bytes as nat == total_of(self.entries@)
        &&& self.nonstatic_bytes as nat == ns_total(self.entries@, self.static_ranges@)
    }

    /// A fresh, empty index.
    pub fn new(size_limit: u64, static_ranges: Vec<u16>) -> (r: CacheIndex)
        ensures
            r.wf(),
            r.entries@.len() == 0,
            r.size_limit == size_limit,
            r.static_ranges == static_ranges,
    {
        CacheIndex {
            entries: Vec::new(),
            size_limit,
            static_ranges,
            total_bytes: 0,
            nonstatic_bytes: 0,
        }
    }

    /// The position of `id`'s entry, if any.
    fn find(&self, id: &FileId) -> (r: Option<usize>)
        ensures
            r matches Some(i) ==> i < self.entries@.len() && self.entries@[i as int].id.eqv(*id),
            r is None ==> !contains_id(self.entries@, *id),
    {
        let n = self.entries.len();
        let mut i: usize = 0;
        while i < n
            invariant
                i <= n,
                n == self.entries@.len(),
                forall|j: int| 0 <= j < i ==> !self.entries@[j].id.eqv(*id),
            decreases n - i,
        {
            if self.entries[i].id.same(id) {
                return Some(i);
            }
            i = i + 1;
        }
        None
    }

    /// Is `id` static (pinned) for this node?
    pub fn is_static(&self, id: &FileId) -> (r: bool)
        requires
            id.wf(),
        ensures
            r == is_static_id(*id, self.static_ranges@),
    {
        let p = hash_prefix(self.id_hash_slice(id));
        let n = self.static_ranges.len();
        let mut i: usize = 0;
        while i < n
            invariant
                n == self.static_ranges@.len(),
                i <= n,
                p as nat == prefix_val(id.hash@),
                forall|j: int| 0 <= j < i ==> self.static_ranges@[j] != p,
            decreases n - i,
        {
            if self.static_ranges[i] == p {
                return true;
            }
            i = i + 1;
        }
        proof {
            assert(!self.static_ranges@.contains(p));
        }
        false
    }

    fn id_hash_slice<'a>(&self, id: &'a FileId) -> (r: &'a [u8])
        ensures
            r@ == id.hash@,
    {
        id.hash.as_slice()
    }

    /// Cache probe: on a hit, refreshes the entry's last access time.
    ///
    /// Returns whether `id` was indexed; the hit entry's timestamp
    /// becomes `now` and nothing else changes.
    pub fn lookup_touch(&mut self, id: &FileId, now: u64) -> (hit: bool)
        requires
            old(self).wf(),
        ensures
            final(self).wf(),
            hit == contains_id(old(self).entries@, *id),
            final(self).size_limit == old(self).size_limit,
            final(self).static_ranges == old(self).static_ranges,
            !hit ==> final(self).entries@ == old(self).entries@,
            hit ==> exists|i: int|
                0 <= i < old(self).entries@.len() && old(self).entries@[i].id.eqv(*id)
                    && final(self).entries@ == old(self).entries@.update(
                    i,
                    CacheEntry { id: old(self).entries@[i].id, last_access: now },
                ),
    {
        let idx = match self.find(id) {
            Some(i) => i,
            None => {
                return false;
            }
        };
        let e = self.entries.remove(idx);
        let id2 = e.id;
        self.entries.insert(idx, CacheEntry { id: id2, last_access: now });
        proof {
            let s = old(self).entries@;
            assert(self.entries@ =~= s.update(
                idx as int,
                CacheEntry { id: s[idx as int].id, last_access: now },
            ));
            lemma_totals_update_time(s, self.static_ranges@, idx as int, now);
        }
        true
    }

    /// Verifies streamed bytes against a descriptor: exact size and hash.
    pub fn content_matches(id: &FileId, content: &[u8]) -> (r: bool)
        ensures
            r == (digest_of(content@) == id.hash@ && content@.len() == id.size as nat),
    {
        let d = digest(content);
        let len_ok = content.len() as u128 == id.size as u128;
        bytes_eq(d.as_slice(), id.hash.as_slice()) && len_ok
    }

    /// Commits a fetched object.
    ///
    /// Succeeds iff the bytes hash to the descriptor's hash and have
    /// exactly its size; then the entry is indexed with time `now` (or,
    /// if already present, only its timestamp is refreshed). On a
    /// mismatch the index is unchanged and the commit reports an
    /// integrity error: the temp file is to be discarded.
    pub fn insert_commit(&mut self, id: FileId, content: &[u8], now: u64) -> (r: Result<
        (),
        CacheError,
    >)
        requires
            old(self).wf(),
            id.wf(),
        ensures
            final(self).wf(),
            final(self).size_limit == old(self).size_limit,
            final(self).static_ranges == old(self).static_ranges,
            r is Ok <==> (digest_of(content@) == id.hash@ && content@.len() == id.size as nat),
            r matches Err(e) ==> e == CacheError::Integrity && final(self).entries@ == old(
                self,
            ).entries@,
            r is Ok && !contains_id(old(self).entries@, id) ==> final(self).entries@ == old(
                self,
            ).entries@.push(CacheEntry { id: id, last_access: now }),
            r is Ok && contains_id(old(self).entries@, id) ==> exists|i: int|
                0 <= i < old(self).entries@.len() && old(self).entries@[i].id.eqv(id)
                    && final(self).entries@ == old(self).entries@.update(
                    i,
                    CacheEntry { id: old(self).entries@[i].id, last_access: now },
                ),
    {
        if !Self::content_matches(&id, content) {
            return Err(CacheError::Integrity);
        }
        if self.lookup_touch(&id, now) {
            return Ok(());
        }
        let n = self.entries.len();
        proof {
            lemma_total_bound(self.entries@);
            assert(n * 0xffff_ffff_ffff_ffff < u128::MAX - u64::MAX) by (nonlinear_arith)
                requires
                    n < 0x1_0000_0000_0000_0000,
            ;
        }
        let st = self.is_static(&id);
        let sz = id.size;
        proof {
            lemma_ns_le_total(self.entries@, self.static_ranges@);
            assert(self.total_bytes as nat <= n * 0xffff_ffff_ffff_ffff);
            assert(self.total_bytes as nat + sz as nat <= u128::MAX as nat);
            assert(self.nonstatic_bytes as nat + sz as nat <= u128::MAX as nat);
        }
        self.total_bytes = self.total_bytes + sz as u128;
        if !st {
            self.nonstatic_bytes = self.nonstatic_bytes + sz as u128;
        }
        let e = CacheEntry { id, last_access: now };
        self.entries.push(e);
        proof {
            let s = old(self).entries@;
            let s2 = self.entries@;
            assert(s2.drop_last() =~= s);
            assert(total_of(s2) == total_of(s) + sz as nat);
            assert(ns_total(s2, self.static_ranges@) == ns_total(s, self.static_ranges@)
                + ns_bytes(s2.last(), self.static_ranges@));
        }
        Ok(())
    }

    /// Drops `id` from the index; no-op when absent.
    pub fn remove(&mut self, id: &FileId)
        requires
            old(self).wf(),
        ensures
            final(self).wf(),
            final(self).size_limit == old(self).size_limit,
            final(self).static_ranges == old(self).static_ranges,
            !contains_id(old(self).entries@, *id) ==> final(self).entries@ == old(self).entries@,
            contains_id(old(self).entries@, *id) ==> exists|i: int|
                0 <= i < old(self).entries@.len() && old(self).entries@[i].id.eqv(*id)
                    && final(self).entries@ == old(self).entries@.remove(i),
            !contains_id(final(self).entries@, *id),
    {
        let idx = match self.find(id) {
            Some(i) => i,
            None => {
                return ;
            }
        };
        let e = self.entries.remove(idx);
        let st = self.is_static_entry(&e);
        let sz = e.id.size;
        proof {
            lemma_totals_remove(old(self).entries@, self.static_ranges@, idx as int);
            lemma_ns_le_total(old(self).entries@, self.static_ranges@);
        }
        self.total_bytes = self.total_bytes - sz as u128;
        if !st {
            self.nonstatic_bytes = self.nonstatic_bytes - sz as u128;
        }
        proof {
            let s = old(self).entries@;
            assert(self.entries@ =~= s.remove(idx as int));
            assert forall|j: int|
                0 <= j < self.entries@.len() implies !(#[trigger] self.entries@[j].id.eqv(
                *id,
            )) by {
                if j < idx {
                    assert(self.entries@[j] == s[j]);
                    assert(!s[j].id.eqv(s[idx as int].id));
                } else {
                    assert(self.entries@[j] == s[j + 1]);
                    assert(!s[idx as int].id.eqv(s[j + 1].id));
                }
            }
        }
    }

    fn is_static_entry(&self, e: &CacheEntry) -> (r: bool)
        requires
            e.id.wf(),
        ensures
            r == is_static_id(e.id, self.static_ranges@),
    {
        self.is_static(&e.id)
    }

    /// Current usage: total bytes and entry count.
    pub fn stats(&self) -> (r: (u128, usize))
        requires
            self.wf(),
        ensures
            r.0 as nat == total_of(self.entries@),
            r.1 == self.entries@.len(),
    {
        (self.total_bytes, self.entries.len())
    }

    /// The eviction target: 90% of the configured limit.
    pub open spec fn spec_evict_target(&self) -> nat {
        (self.size_limit as nat * 9) / 10
    }

    fn evict_target(&self) -> (r: u128)
        ensures
            r as nat == self.spec_evict_target(),
    {
        (self.size_limit as u128 * 9) / 10
    }

    /// Does usage call for an eviction round?
    pub fn needs_eviction(&self) -> (r: bool)
        requires
            self.wf(),
        ensures
            r == (ns_total(self.entries@, self.static_ranges@) > self.size_limit as nat),
    {
        self.nonstatic_bytes > self.size_limit as u128
    }

    /// The position of the least-recently-used non-static entry.
    fn find_lru_nonstatic(&self) -> (r: Option<usize>)
        requires
            self.wf(),
        ensures
            r matches Some(i) ==> i < self.entries@.len() && !is_static_id(
                self.entries@[i as int].id,
                self.static_ranges@,
            ) && (forall|j: int|
                0 <= j < self.entries@.len() && !is_static_id(
                    self.entries@[j].id,
                    self.static_ranges@,
                ) ==> self.entries@[i as int].last_access <= self.entries@[j].last_access),
            r is None ==> forall|j: int|
                0 <= j < self.entries@.len() ==> is_static_id(
                    self.entries@[j].id,
                    self.static_ranges@,
                ),
    {
        let n = self.entries.len();
        let mut best: Option<usize> = None;
        let mut i: usize = 0;
        while i < n
            invariant
                self.wf(),
                i <= n,
                n == self.entries@.len(),
                best matches Some(b) ==> b < i && !is_static_id(
                    self.entries@[b as int].id,
                    self.static_ranges@,
                ) && (forall|j: int|
                    0 <= j < i && !is_static_id(self.entries@[j].id, self.static_ranges@)
                        ==> self.entries@[b as int].last_access
                        <= self.entries@[j].last_access),
                best is None ==> forall|j: int|
                    0 <= j < i ==> is_static_id(self.entries@[j].id, self.static_ranges@),
            decreases n - i,
        {
            let e_static = self.is_static_entry_at(i);
            if !e_static {
                let t = self.entries[i].last_access;
                match best {
                    Some(b) => {
                        if t < self.entries[b].last_access {
                            best = Some(i);
                        }
                    }
                    None => {
                        best = Some(i);
                    }
                }
            }
            i = i + 1;
        }
        best
    }

    fn is_static_entry_at(&self, i: usize) -> (r: bool)
        requires
            self.wf(),
            i < self.entries@.len(),
        ensures
            r == is_static_id(self.entries@[i as int].id, self.static_ranges@),
    {
        let p = hash_prefix(self.entries[i].id.hash.as_slice());
        let n = self.static_ranges.len();
        let mut j: usize = 0;
        while j < n
            invariant
                n == self.static_ranges@.len(),
                j <= n,
                i < self.entries@.len(),
                p as nat == prefix_val(self.entries@[i as int].id.hash@),
                forall|k: int| 0 <= k < j ==> self.static_ranges@[k] != p,
            decreases n - j,
        {
            if self.static_ranges[j] == p {
                return true;
            }
            j = j + 1;
        }
        proof {
            assert(!self.static_ranges@.contains(p));
        }
        false
    }

    /// One eviction round.
    ///
    /// Drops non-static entries, least recently used first, until the
    /// evictable bytes are at or under 90% of the limit or only static
    /// entries remain. Static entries are untouched, survivors were all
    /// indexed before, and nothing evicted was used more recently than a
    /// surviving non-static entry.
    #[verifier::rlimit(100)]
    pub fn evict_round(&mut self)
        requires
            old(self).wf(),
        ensures
            final(self).wf(),
            final(self).size_limit == old(self).size_limit,
            final(self).static_ranges == old(self).static_ranges,
            ns_total(final(self).entries@, final(self).static_ranges@)
                <= final(self).spec_evict_target() || (forall|j: int|
                0 <= j < final(self).entries@.len() ==> is_static_id(
                    #[trigger] final(self).entries@[j].id,
                    final(self).static_ranges@,
                )),
            forall|i: int|
                0 <= i < old(self).entries@.len() ==> (is_static_id(
                    (#[trigger] old(self).entries@[i]).id,
                    old(self).static_ranges@,
                ) ==> contains_id(final(self).entries@, old(self).entries@[i].id)),
            forall|j: int|
                0 <= j < final(self).entries@.len() ==> contains_entry(
                    old(self).entries@,
                    #[trigger] final(self).entries@[j],
                ),
            forall|i: int, j: int|
                #![trigger old(self).entries@[i], final(self).entries@[j]]
                0 <= i < old(self).entries@.len() && 0 <= j < final(self).entries@.len()
                    && !contains_entry(final(self).entries@, old(self).entries@[i])
                    && !is_static_id(final(self).entries@[j].id, final(self).static_ranges@)
                    ==> old(self).entries@[i].last_access
                    <= final(self).entries@[j].last_access,
    {
        let target = self.evict_target();
        loop
            invariant
                self.wf(),
                self.size_limit == old(self).size_limit,
                self.static_ranges == old(self).static_ranges,
                target as nat == self.spec_evict_target(),
                forall|i: int|
                    0 <= i < old(self).entries@.len() ==> (is_static_id(
                        (#[trigger] old(self).entries@[i]).id,
                        old(self).static_ranges@,
                    ) ==> contains_id(self.entries@, old(self).entries@[i].id)),
                forall|j: int|
                    0 <= j < self.entries@.len() ==> contains_entry(
                        old(self).entries@,
                        #[trigger] self.entries@[j],
                    ),
                forall|i: int, j: int|
                    #![trigger old(self).entries@[i], self.entries@[j]]
                    0 <= i < old(self).entries@.len() && 0 <= j < self.entries@.len()
                        && !contains_entry(self.entries@, old(self).entries@[i])
                        && !is_static_id(self.entries@[j].id, self.static_ranges@) ==> old(
                        self,
                    ).entries@[i].last_access <= self.entries@[j].last_access,
            decreases self.entries@.len(),
        {
            if self.nonstatic_bytes <= target {
                return ;
            }
            let victim = match self.find_lru_nonstatic() {
                Some(i) => i,
                None => {
                    proof {
                        lemma_ns_all_static(self.entries@, self.static_ranges@);
                    }
                    return ;
                }
            };
            let ghost prev = self.entries@;
            self.evict_at(victim);
            proof {
                lemma_evict_step_subset(old(self).entries@, prev, self.entries@, victim as int);
                lemma_evict_step_static(
                    old(self).entries@,
                    prev,
                    self.entries@,
                    self.static_ranges@,
                    victim as int,
                );
                lemma_evict_step_order(
                    old(self).entries@,
                    prev,
                    self.entries@,
                    self.static_ranges@,
                    victim as int,
                );
            }
        }
    }

    /// Removes the entry at `victim` and adjusts the cached totals.
    fn evict_at(&mut self, victim: usize)
        requires
            old(self).wf(),
            victim < old(self).entries@.len(),
        ensures
            final(self).wf(),
            final(self).size_limit == old(self).size_limit,
            final(self).static_ranges == old(self).static_ranges,
            final(self).entries@ == old(self).entries@.remove(victim as int),
    {
        let e = self.entries.remove(victim);
        let st = self.is_static_entry(&e);
        let sz = e.id.size;
        proof {
            lemma_totals_remove(old(self).entries@, self.static_ranges@, victim as int);
            lemma_ns_le_total(old(self).entries@, self.static_ranges@);
        }
        self.total_bytes = self.total_bytes - sz as u128;
        if !st {
            self.nonstatic_bytes = self.nonstatic_bytes - sz as u128;
        }
    }
}

/// Does the index hold this exact entry (same descriptor and time)?
pub open spec fn contains_entry(s: Seq<CacheEntry>, e: CacheEntry) -> bool {
    exists|i: int| 0 <= i < s.len() && s[i].id.eqv(e.id) && s[i].last_access == e.last_access
}

/// When every entry is static, the evictable total is zero.
proof fn lemma_ns_all_static(s: Seq<CacheEntry>, ranges: Seq<u16>)
    requires
        forall|j: int| 0 <= j < s.len() ==> is_static_id((#[trigger] s[j]).id, ranges),
    ensures
        ns_total(s, ranges) == 0,
    decreases s.len(),
{
    if s.len() > 0 {
        lemma_ns_all_static(s.drop_last(), ranges);
    }
}


/// One eviction step: every survivor was already indexed.
#[verifier::spinoff_prover]
#[verifier::rlimit(100)]
proof fn lemma_evict_step_subset(
    orig: Seq<CacheEntry>,
    prev: Seq<CacheEntry>,
    cur: Seq<CacheEntry>,
    victim: int,
)
    requires
        0 <= victim < prev.len(),
        cur == prev.remove(victim),
        forall|j: int| 0 <= j < prev.len() ==> contains_entry(orig, #[trigger] prev[j]),
    ensures
        forall|j: int| 0 <= j < cur.len() ==> contains_entry(orig, #[trigger] cur[j]),
{
    assert forall|j: int| 0 <= j < cur.len() implies contains_entry(orig, #[trigger] cur[j]) by {
        if j < victim {
            assert(cur[j] == prev[j]);
        } else {
            assert(cur[j] == prev[j + 1]);
        }
    }
}

/// One eviction step: static entries survive it.
#[verifier::spinoff_prover]
#[verifier::rlimit(100)]
proof fn lemma_evict_step_static(
    orig: Seq<CacheEntry>,
    prev: Seq<CacheEntry>,
    cur: Seq<CacheEntry>,
    ranges: Seq<u16>,
    victim: int,
)
    requires
        0 <= victim < prev.len(),
        cur == prev.remove(victim),
        !is_static_id(prev[victim].id, ranges),
        forall|i: int|
            0 <= i < orig.len() ==> (is_static_id((#[trigger] orig[i]).id, ranges)
                ==> contains_id(prev, orig[i].id)),
    ensures
        forall|i: int|
            0 <= i < orig.len() ==> (is_static_id((#[trigger] orig[i]).id, ranges)
                ==> contains_id(cur, orig[i].id)),
{
    assert forall|i: int|
        0 <= i < orig.len() && is_static_id((#[trigger] orig[i]).id, ranges) implies contains_id(
        cur,
        orig[i].id,
    ) by {
        let oid = orig[i].id;
        let k = choose|k: int| 0 <= k < prev.len() && prev[k].id.eqv(oid);
        assert(prev[k].id.hash@ == oid.hash@);
        assert(is_static_id(prev[k].id, ranges));
        assert(k != victim);
        if k < victim {
            assert(cur[k] == prev[k]);
            assert(cur[k].id.eqv(oid));
        } else {
            assert(cur[k - 1] == prev[k]);
            assert(cur[k - 1].id.eqv(oid));
        }
    }
}

/// One eviction step: nothing dropped so far was used more recently
/// than a surviving non-static entry.
#[verifier::spinoff_prover]
#[verifier::rlimit(100)]
proof fn lemma_evict_step_order(
    orig: Seq<CacheEntry>,
    prev: Seq<CacheEntry>,
    cur: Seq<CacheEntry>,
    ranges: Seq<u16>,
    victim: int,
)
    requires
        0 <= victim < prev.len(),
        cur == prev.remove(victim),
        !is_static_id(prev[victim].id, ranges),
        forall|j: int|
            0 <= j < prev.len() && !is_static_id(#[trigger] prev[j].id, ranges) ==> prev[victim].last_access
                <= prev[j].last_access,
        forall|i: int, j: int|
            #![trigger orig[i], prev[j]]
            0 <= i < orig.len() && 0 <= j < prev.len() && !contains_entry(prev, orig[i])
                && !is_static_id(prev[j].id, ranges) ==> orig[i].last_access
                <= prev[j].last_access,
    ensures
        forall|i: int, j: int|
            #![trigger orig[i], cur[j]]
            0 <= i < orig.len() && 0 <= j < cur.len() && !contains_entry(cur, orig[i])
                && !is_static_id(cur[j].id, ranges) ==> orig[i].last_access
                <= cur[j].last_access,
{
    assert forall|i: int, j: int|
        #![trigger orig[i], cur[j]]
        0 <= i < orig.len() && 0 <= j < cur.len() && !contains_entry(cur, orig[i])
            && !is_static_id(cur[j].id, ranges) implies orig[i].last_access
        <= cur[j].last_access by {
        let oe = orig[i];
        let kj: int = if j < victim {
            j
        } else {
            j + 1
        };
        assert(cur[j] == prev[kj]);
        if contains_entry(prev, oe) {
            let m = choose|m: int|
                0 <= m < prev.len() && prev[m].id.eqv(oe.id) && prev[m].last_access
                    == oe.last_access;
            if m != victim {
                let cm: int = if m < victim {
                    m
                } else {
                    m - 1
                };
                assert(cur[cm] == prev[m]);
                assert(contains_entry(cur, oe));
                assert(false);
            }
            assert(prev[victim].last_access == oe.last_access);
            assert(prev[victim].last_access <= prev[kj].last_access);
        } else {
            assert(oe.last_access <= prev[kj].last_access);
        }
    }
}

} // verus!
