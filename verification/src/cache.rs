//! The model cache: maps a configuration fingerprint to a loaded model,
//! deduplicates loads, and evicts least-recently-used entries under a
//! capacity bound — but never an entry that a caller still holds.
//!
//! Entries are kept in recency order, least recently used first: a hit moves
//! its entry to the back, and eviction removes the first entry whose
//! reference count is zero. When every entry is still referenced, the cache
//! exceeds its capacity rather than evict a model in use.

use vstd::prelude::*;

use crate::config::Config;
use crate::config::ConfigError;
use crate::config::ConfigV;
use crate::config::config_ok;
use crate::config::models_ok;
use crate::config::same_fingerprint;
use crate::config::vocabs_ok;

verus! {

/// A caller's reference to one loaded model. The numeric identity is unique
/// over the life of a cache: no two loads ever share it.
#[derive(Clone, Copy, PartialEq, Eq, Structural, Debug)]
pub struct ModelHandle {
    id: u64,
}

impl ModelHandle {
    /// The model's numeric identity.
    pub closed spec fn id_spec(self) -> u64 {
        self.id
    }

    /// The model's numeric identity, under which the embedder keys the
    /// backend resource belonging to this handle.
    pub fn id(&self) -> (r: u64)
        ensures
            r == self.id_spec(),
    {
        self.id
    }
}

/// A validated model description: a configuration that passed validation,
/// ready to be loaded into the cache.
pub struct TranslationModel {
    config: Config,
}

impl View for TranslationModel {
    type V = ConfigV;

    closed spec fn view(&self) -> ConfigV {
        self.config@
    }
}

impl TranslationModel {
    /// Validates `config` and wraps it as a model description. Returns `Ok`
    /// exactly on well-formed configurations, and otherwise the validation
    /// error (model paths are checked before vocabulary paths).
    pub fn from_config(config: Config) -> (r: Result<TranslationModel, ConfigError>)
        ensures
            r is Ok <==> config_ok(config@),
            r is Ok ==> r->Ok_0@ == config@,
            !models_ok(config@) ==> r == Result::<TranslationModel, ConfigError>::Err(
                ConfigError::MissingModelPath,
            ),
            models_ok(config@) && !vocabs_ok(config@) ==> r == Result::<
                TranslationModel,
                ConfigError,
            >::Err(ConfigError::MissingVocabPath),
    {
        match config.validate() {
            Ok(()) => Ok(TranslationModel { config }),
            Err(e) => Err(e),
        }
    }

    /// The configuration this model was validated from.
    pub fn config(&self) -> (r: &Config)
        ensures
            r@ == self@,
    {
        &self.config
    }
}

struct CacheEntry {
    model: TranslationModel,
    id: u64,
    ref_count: u64,
}

/// The mathematical value of one cache entry.
#[verifier::ext_equal]
pub ghost struct CacheEntryV {
    pub config: ConfigV,
    pub id: u64,
    pub ref_count: u64,
}

/// No two entries share a model identity.
pub open spec fn ids_distinct(s: Seq<CacheEntryV>) -> bool {
    forall|i: int, j: int| 0 <= i < j < s.len() ==> s[i].id != s[j].id
}

/// No two entries share a configuration fingerprint.
pub open spec fn configs_distinct(s: Seq<CacheEntryV>) -> bool {
    forall|i: int, j: int| 0 <= i < j < s.len() ==> s[i].config != s[j].config
}

/// Every entry's identity was allocated before `next`.
pub open spec fn ids_below(s: Seq<CacheEntryV>, next: u64) -> bool {
    forall|i: int| 0 <= i < s.len() ==> (#[trigger] s[i]).id < next
}

/// Every entry can take one more reference without overflowing its count.
pub open spec fn counts_below_max(s: Seq<CacheEntryV>) -> bool {
    forall|i: int| 0 <= i < s.len() ==> (#[trigger] s[i]).ref_count < u64::MAX
}

/// Entry `e` survives in `s`: some entry keeps its identity and fingerprint,
/// with at least as many outstanding references.
pub open spec fn retained_in(e: CacheEntryV, s: Seq<CacheEntryV>) -> bool {
    exists|k: int|
        0 <= k < s.len() && (#[trigger] s[k]).id == e.id && s[k].config == e.config
            && s[k].ref_count >= e.ref_count
}

/// The recency position of the first entry no caller holds, or -1 when every
/// entry is still referenced. This is the entry eviction takes: the least
/// recently used among those with a zero reference count.
pub open spec fn first_unpinned(s: Seq<CacheEntryV>) -> int
    decreases s.len(),
{
    if s.len() == 0 {
        -1
    } else if s[0].ref_count == 0 {
        0
    } else {
        let r = first_unpinned(s.drop_first());
        if r < 0 {
            -1
        } else {
            r + 1
        }
    }
}

/// `first_unpinned` is -1 exactly when every entry is referenced, and
/// otherwise names the first entry with a zero reference count.
pub proof fn lemma_first_unpinned(s: Seq<CacheEntryV>)
    ensures
        first_unpinned(s) == -1 <==> (forall|i: int|
            0 <= i < s.len() ==> (#[trigger] s[i]).ref_count > 0),
        first_unpinned(s) >= 0 ==> first_unpinned(s) < s.len() && s[first_unpinned(s)].ref_count
            == 0 && (forall|j: int| 0 <= j < first_unpinned(s) ==> (#[trigger] s[j]).ref_count > 0),
    decreases s.len(),
{
    if s.len() > 0 && s[0].ref_count != 0 {
        lemma_first_unpinned(s.drop_first());
        assert forall|i: int| 0 <= i < s.len() && first_unpinned(s) == -1 implies (#[trigger] s[i]).ref_count
            > 0 by {
            if i > 0 {
                assert(s.drop_first()[i - 1] == s[i]);
            }
        }
        if first_unpinned(s) >= 0 {
            assert(s.drop_first()[first_unpinned(s.drop_first())] == s[first_unpinned(s)]);
            assert forall|j: int| 0 <= j < first_unpinned(s) implies (#[trigger] s[j]).ref_count
                > 0 by {
                if j > 0 {
                    assert(s.drop_first()[j - 1] == s[j]);
                }
            }
        }
    }
}

/// When every entry before `k` is referenced and entry `k` is not,
/// `first_unpinned` names exactly `k`.
proof fn lemma_first_unpinned_at(s: Seq<CacheEntryV>, k: int)
    requires
        0 <= k < s.len(),
        s[k].ref_count == 0,
        forall|j: int| 0 <= j < k ==> (#[trigger] s[j]).ref_count > 0,
    ensures
        first_unpinned(s) == k,
    decreases k,
{
    if k > 0 {
        assert forall|j: int| 0 <= j < k - 1 implies (#[trigger] s.drop_first()[j]).ref_count
            > 0 by {
            assert(s.drop_first()[j] == s[j + 1]);
        }
        assert(s.drop_first()[k - 1] == s[k]);
        lemma_first_unpinned_at(s.drop_first(), k - 1);
    }
}

/// The capacity-bounded, least-recently-used model cache with pinning.
pub struct ModelCache {
    entries: Vec<CacheEntry>,
    capacity: usize,
    loads: u64,
}

/// The mathematical value of one stored entry.
spec fn entry_v(e: CacheEntry) -> CacheEntryV {
    CacheEntryV { config: e.model@, id: e.id, ref_count: e.ref_count }
}

impl View for ModelCache {
    type V = Seq<CacheEntryV>;

    closed spec fn view(&self) -> Seq<CacheEntryV> {
        self.entries@.map_values(|e: CacheEntry| entry_v(e))
    }
}

impl ModelCache {
    /// The entry count the cache aims to stay under.
    pub closed spec fn capacity_spec(&self) -> usize {
        self.capacity
    }

    /// How many models were ever constructed for this cache: the number of
    /// cache misses, each of which cost one backend load.
    pub closed spec fn load_count_spec(&self) -> u64 {
        self.loads
    }

    /// Each position of the view holds the value of the entry stored there.
    proof fn view_glue(&self)
        ensures
            self@.len() == self.entries@.len(),
            forall|x: int|
                0 <= x < self.entries@.len() ==> #[trigger] self@[x] == entry_v(self.entries@[x]),
    {
    }

    /// The cache's internal consistency: entries are pairwise distinct in
    /// identity and in fingerprint, and every identity was allocated by a
    /// past load.
    pub open spec fn wf(&self) -> bool {
        ids_distinct(self@) && configs_distinct(self@) && ids_below(self@, self.load_count_spec())
    }

    /// An empty cache that aims to hold at most `capacity` models. A zero
    /// capacity disables caching beyond the models callers still hold.
    pub fn new(capacity: usize) -> (c: ModelCache)
        ensures
            c.wf(),
            c@ == Seq::<CacheEntryV>::empty(),
            c.capacity_spec() == capacity,
            c.load_count_spec() == 0,
    {
        let c = ModelCache { entries: Vec::new(), capacity, loads: 0 };
        proof {
            assert(c@ =~= Seq::<CacheEntryV>::empty());
        }
        c
    }

    /// The number of models the cache currently holds.
    pub fn len(&self) -> (r: usize)
        ensures
            r == self@.len(),
    {
        self.entries.len()
    }

    /// How many models were ever constructed for this cache.
    pub fn load_count(&self) -> (r: u64)
        ensures
            r == self.load_count_spec(),
    {
        self.loads
    }

    /// The recency position of the entry for `config`, if one is cached.
    fn find(&self, config: &Config) -> (r: Option<usize>)
        ensures
            match r {
                Some(i) => i < self@.len() && self@[i as int].config == config@,
                None => forall|i: int|
                    0 <= i < self@.len() ==> (#[trigger] self@[i]).config != config@,
            },
    {
        let mut k: usize = 0;
        while k < self.entries.len()
            invariant
                k <= self@.len(),
                self@.len() == self.entries@.len(),
                forall|i: int| 0 <= i < k ==> (#[trigger] self@[i]).config != config@,
            decreases self@.len() - k,
        {
            if same_fingerprint(self.entries[k].model.config(), config) {
                assert(self@[k as int].config == config@);
                return Some(k);
            }
            assert(self@[k as int].config != config@);
            k = k + 1;
        }
        None
    }

    /// Whether a handle still names a cached model.
    pub fn contains_handle(&self, h: &ModelHandle) -> (r: bool)
        ensures
            r == exists|i: int| 0 <= i < self@.len() && (#[trigger] self@[i]).id == h.id_spec(),
    {
        let mut k: usize = 0;
        while k < self.entries.len()
            invariant
                k <= self@.len(),
                self@.len() == self.entries@.len(),
                forall|i: int| 0 <= i < k ==> (#[trigger] self@[i]).id != h.id_spec(),
            decreases self@.len() - k,
        {
            if self.entries[k].id == h.id() {
                assert(self@[k as int].id == h.id_spec());
                return true;
            }
            assert(self@[k as int].id != h.id_spec());
            k = k + 1;
        }
        false
    }

    /// Returns the cached handle for `model`'s fingerprint, loading at most
    /// one new model: on a hit the entry's reference count grows by one and
    /// the entry moves to most-recent, with no new load; on a miss a fresh
    /// entry is added (evicting the least-recently-used unreferenced entry
    /// if the cache is full), and the load count grows by one.
    ///
    /// Entries still referenced by a caller are never evicted.
    pub fn get_or_load(&mut self, model: TranslationModel) -> (h: ModelHandle)
        requires
            old(self).wf(),
            old(self).load_count_spec() < u64::MAX,
            counts_below_max(old(self)@),
        ensures
            final(self).wf(),
            final(self).capacity_spec() == old(self).capacity_spec(),
            // a hit: the entry keeps its identity and moves to most-recent
            (exists|i: int|
                0 <= i < old(self)@.len() && (#[trigger] old(self)@[i]).config == model@) ==> {
                let i = choose|i: int|
                    0 <= i < old(self)@.len() && (#[trigger] old(self)@[i]).config == model@;
                &&& h.id_spec() == old(self)@[i].id
                &&& final(self)@ =~= old(self)@.remove(i).push(
                    CacheEntryV {
                        config: old(self)@[i].config,
                        id: old(self)@[i].id,
                        ref_count: (old(self)@[i].ref_count + 1) as u64,
                    },
                )
                &&& final(self).load_count_spec() == old(self).load_count_spec()
            },
            // a miss: one load, a fresh identity, eviction only of the first
            // unreferenced entry and only when the cache is full
            (forall|i: int| 0 <= i < old(self)@.len() ==> (#[trigger] old(self)@[i]).config != model@)
                ==> {
                let retained = if old(self)@.len() < old(self).capacity_spec() || first_unpinned(
                    old(self)@,
                ) == -1 {
                    old(self)@
                } else {
                    old(self)@.remove(first_unpinned(old(self)@))
                };
                &&& h.id_spec() == old(self).load_count_spec()
                &&& final(self).load_count_spec() == old(self).load_count_spec() + 1
                &&& final(self)@ =~= retained.push(
                    CacheEntryV { config: model@, id: h.id_spec(), ref_count: 1 },
                )
            },
            // pinning: every entry some caller still holds survives, with its
            // identity and fingerprint intact
            forall|j: int|
                0 <= j < old(self)@.len() && (#[trigger] old(self)@[j]).ref_count > 0
                    ==> retained_in(old(self)@[j], final(self)@),
    {
        let ghost pre = self@;
        let ghost pre_entries = self.entries@;
        proof {
            self.view_glue();
        }
        match self.find(&model.config) {
            Some(i) => {
                let ghost gi = i as int;
                let mut e = self.entries.remove(i);
                e.ref_count = e.ref_count + 1;
                let h = ModelHandle { id: e.id };
                self.entries.push(e);
                proof {
                    self.view_glue();
                    assert(self@ =~= pre.remove(gi).push(
                        CacheEntryV {
                            config: pre[gi].config,
                            id: pre[gi].id,
                            ref_count: (pre[gi].ref_count + 1) as u64,
                        },
                    ));
                    let ci = choose|i: int|
                        0 <= i < pre.len() && (#[trigger] pre[i]).config == model@;
                    assert(ci == gi);
                    lemma_retention_hit(pre, gi);
                }
                h
            },
            None => {
                if self.entries.len() >= self.capacity {
                    match self.first_unreferenced() {
                        Some(v) => {
                            let ghost vi = v as int;
                            self.entries.remove(v);
                            proof {
                                self.view_glue();
                                pre.remove_ensures(vi);
                                pre_entries.remove_ensures(vi);
                                assert(self.entries@ == pre_entries.remove(vi));
                                assert forall|x: int| 0 <= x < self@.len() implies self@[x]
                                    == pre.remove(vi)[x] by {
                                    if x < vi {
                                        assert(self.entries@[x] == pre_entries[x]);
                                        assert(pre[x] == entry_v(pre_entries[x]));
                                    } else {
                                        assert(self.entries@[x] == pre_entries[x + 1]);
                                        assert(pre[x + 1] == entry_v(pre_entries[x + 1]));
                                    }
                                }
                                assert(self@ =~= pre.remove(vi));
                            }
                        },
                        None => {},
                    }
                }
                let ghost retained = self@;
                let h = ModelHandle { id: self.loads };
                self.entries.push(CacheEntry { model, id: self.loads, ref_count: 1 });
                self.loads = self.loads + 1;
                proof {
                    self.view_glue();
                    assert(self@ =~= retained.push(
                        CacheEntryV { config: model@, id: h.id_spec(), ref_count: 1 },
                    ));
                    lemma_retention_miss(pre, retained, self@, model@, h.id_spec());
                }
                h
            },
        }
    }

    /// The recency position of the first entry with no outstanding
    /// references, the one eviction would take.
    fn first_unreferenced(&self) -> (r: Option<usize>)
        ensures
            match r {
                Some(i) => i < self@.len() && i == first_unpinned(self@),
                None => first_unpinned(self@) == -1,
            },
    {
        proof {
            lemma_first_unpinned(self@);
        }
        let mut k: usize = 0;
        while k < self.entries.len()
            invariant
                k <= self@.len(),
                self@.len() == self.entries@.len(),
                forall|i: int| 0 <= i < k ==> (#[trigger] self@[i]).ref_count > 0,
            decreases self@.len() - k,
        {
            if self.entries[k].ref_count == 0 {
                proof {
                    lemma_first_unpinned_at(self@, k as int);
                }
                return Some(k);
            }
            assert(self@[k as int].ref_count > 0);
            k = k + 1;
        }
        None
    }

    /// Gives back one reference to the model `h` names. When the handle is
    /// current and its count is positive, the count drops by one and nothing
    /// else changes; a stale or over-released handle leaves the cache as it
    /// was.
    pub fn release(&mut self, h: &ModelHandle)
        requires
            old(self).wf(),
        ensures
            final(self).wf(),
            final(self).capacity_spec() == old(self).capacity_spec(),
            final(self).load_count_spec() == old(self).load_count_spec(),
            (exists|i: int|
                0 <= i < old(self)@.len() && (#[trigger] old(self)@[i]).id == h.id_spec() && old(
                    self,
                )@[i].ref_count > 0) ==> {
                let i = choose|i: int|
                    0 <= i < old(self)@.len() && (#[trigger] old(self)@[i]).id == h.id_spec()
                        && old(self)@[i].ref_count > 0;
                final(self)@ =~= old(self)@.update(
                    i,
                    CacheEntryV {
                        config: old(self)@[i].config,
                        id: old(self)@[i].id,
                        ref_count: (old(self)@[i].ref_count - 1) as u64,
                    },
                )
            },
            (forall|i: int|
                0 <= i < old(self)@.len() ==> !((#[trigger] old(self)@[i]).id == h.id_spec()
                    && old(self)@[i].ref_count > 0)) ==> final(self)@ == old(self)@,
    {
        let ghost pre = self@;
        let ghost pre_entries = self.entries@;
        proof {
            self.view_glue();
        }
        match self.find_live(h.id()) {
            Some(k) => {
                let ghost gi = k as int;
                let mut e = self.entries.remove(k);
                e.ref_count = e.ref_count - 1;
                let ghost emod = e;
                self.entries.insert(k, e);
                proof {
                    self.view_glue();
                    let e2 = CacheEntryV {
                        config: pre[gi].config,
                        id: pre[gi].id,
                        ref_count: (pre[gi].ref_count - 1) as u64,
                    };
                    assert(entry_v(emod) == e2);
                    pre_entries.remove_ensures(gi);
                    pre_entries.remove(gi).insert_ensures(gi, emod);
                    assert(self.entries@ == pre_entries.remove(gi).insert(gi, emod));
                    assert forall|x: int| 0 <= x < self@.len() implies self@[x] == pre.update(
                        gi,
                        e2,
                    )[x] by {
                        if x < gi {
                            assert(self.entries@[x] == pre_entries[x]);
                            assert(pre[x] == entry_v(pre_entries[x]));
                        } else if x == gi {
                            assert(self.entries@[x] == emod);
                        } else {
                            assert(self.entries@[x] == pre_entries.remove(gi)[x - 1]);
                            assert(self.entries@[x] == pre_entries[x]);
                            assert(pre[x] == entry_v(pre_entries[x]));
                        }
                    }
                    assert(self@ =~= pre.update(gi, e2));
                    let ci = choose|i: int|
                        0 <= i < pre.len() && (#[trigger] pre[i]).id == h.id_spec()
                            && pre[i].ref_count > 0;
                    assert(ci == gi);
                }
            },
            None => {},
        }
    }

    /// The recency position of the entry `id` names, provided a caller still
    /// holds it.
    fn find_live(&self, id: u64) -> (r: Option<usize>)
        ensures
            match r {
                Some(i) => i < self@.len() && self@[i as int].id == id && self@[i as int].ref_count
                    > 0,
                None => forall|i: int|
                    0 <= i < self@.len() ==> !((#[trigger] self@[i]).id == id
                        && self@[i].ref_count > 0),
            },
    {
        let mut k: usize = 0;
        while k < self.entries.len()
            invariant
                k <= self@.len(),
                self@.len() == self.entries@.len(),
                forall|i: int|
                    0 <= i < k ==> !((#[trigger] self@[i]).id == id && self@[i].ref_count > 0),
            decreases self@.len() - k,
        {
            if self.entries[k].id == id && self.entries[k].ref_count > 0 {
                assert(self@[k as int].id == id && self@[k as int].ref_count > 0);
                return Some(k);
            }
            assert(!(self@[k as int].id == id && self@[k as int].ref_count > 0));
            k = k + 1;
        }
        None
    }
}

/// After a hit at position `i`, every referenced entry of `s` survives in
/// the moved-to-back sequence.
proof fn lemma_retention_hit(s: Seq<CacheEntryV>, i: int)
    requires
        0 <= i < s.len(),
        s[i].ref_count < u64::MAX,
    ensures
        forall|j: int|
            0 <= j < s.len() && (#[trigger] s[j]).ref_count > 0 ==> retained_in(
                s[j],
                s.remove(i).push(
                    CacheEntryV {
                        config: s[i].config,
                        id: s[i].id,
                        ref_count: (s[i].ref_count + 1) as u64,
                    },
                ),
            ),
{
    let t = s.remove(i).push(
        CacheEntryV { config: s[i].config, id: s[i].id, ref_count: (s[i].ref_count + 1) as u64 },
    );
    assert forall|j: int| 0 <= j < s.len() && (#[trigger] s[j]).ref_count > 0 implies retained_in(
        s[j],
        t,
    ) by {
        if j == i {
            assert(t[t.len() - 1].id == s[j].id && t[t.len() - 1].config == s[j].config && t[t.len()
                - 1].ref_count >= s[j].ref_count);
        } else if j < i {
            assert(t[j].id == s[j].id && t[j].config == s[j].config && t[j].ref_count
                >= s[j].ref_count);
        } else {
            assert(t[j - 1].id == s[j].id && t[j - 1].config == s[j].config && t[j - 1].ref_count
                >= s[j].ref_count);
        }
    }
}

/// After a miss, every referenced entry of `s` survives the eviction (which
/// only ever removes an unreferenced entry) and the append of the new one.
proof fn lemma_retention_miss(
    s: Seq<CacheEntryV>,
    retained: Seq<CacheEntryV>,
    t: Seq<CacheEntryV>,
    c: ConfigV,
    id: u64,
)
    requires
        retained == s || (first_unpinned(s) >= 0 && retained == s.remove(first_unpinned(s))),
        t == retained.push(CacheEntryV { config: c, id, ref_count: 1 }),
    ensures
        forall|j: int|
            0 <= j < s.len() && (#[trigger] s[j]).ref_count > 0 ==> retained_in(s[j], t),
{
    lemma_first_unpinned(s);
    assert forall|j: int| 0 <= j < s.len() && (#[trigger] s[j]).ref_count > 0 implies retained_in(
        s[j],
        t,
    ) by {
        if retained == s {
            assert(t[j].id == s[j].id && t[j].config == s[j].config && t[j].ref_count
                >= s[j].ref_count);
        } else {
            let v = first_unpinned(s);
            assert(j != v);
            if j < v {
                assert(t[j].id == s[j].id && t[j].config == s[j].config && t[j].ref_count
                    >= s[j].ref_count);
            } else {
                assert(t[j - 1].id == s[j].id && t[j - 1].config == s[j].config && t[j
                    - 1].ref_count >= s[j].ref_count);
            }
        }
    }
}

} // verus!
