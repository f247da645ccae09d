//! Read-through cache of platform metadata.
//!
//! Keyed by platform identifier, holding one record per platform, kept in
//! ascending identifier order — the order the listing reports. The cache
//! has no expiry: it is replaced wholesale by a bulk refresh or brought up
//! to date one record at a time. Records are handed out as owned copies, so
//! no caller holds the cache across a network call.

use vstd::prelude::*;

use crate::str_order::{
    lemma_seq_lt_connected, lemma_seq_lt_irreflexive, lemma_seq_lt_transitive, seq_lt, str_eq,
    str_lt,
};
use crate::trackdb_client::{PlatformRes, PlatformView};

verus! {

/// The cached platform records, strictly sorted by platform identifier.
pub struct PlatformInfo {
    info: Vec<PlatformRes>,
}

impl View for PlatformInfo {
    type V = Seq<PlatformView>;

    closed spec fn view(&self) -> Seq<PlatformView> {
        Seq::new(self.info@.len(), |i: int| self.info@[i]@)
    }
}

impl Default for PlatformInfo {
    /// An empty cache.
    fn default() -> (res: Self)
        ensures
            res.inv(),
            res@ =~= Seq::<PlatformView>::empty(),
    {
        PlatformInfo { info: Vec::new() }
    }
}

/// Two slots of an identifier-sorted record sequence never carry the same
/// identifier.
proof fn lemma_sorted_ids_distinct(s: Seq<PlatformView>, k: int, l: int)
    requires
        forall|x: int, y: int|
            0 <= x < y < s.len() ==> seq_lt((#[trigger] s[x]).id, (#[trigger] s[y]).id),
        0 <= k < s.len(),
        0 <= l < s.len(),
        k != l,
    ensures
        s[k].id != s[l].id,
{
    if s[k].id == s[l].id {
        lemma_seq_lt_irreflexive(s[k].id);
    }
}

impl PlatformInfo {
    /// The records are strictly sorted by identifier; in particular each
    /// platform occurs at most once, and the listing is ascending.
    pub open spec fn inv(&self) -> bool {
        forall|i: int, j: int|
            0 <= i < j < self@.len() ==> seq_lt((#[trigger] self@[i]).id, (#[trigger] self@[j]).id)
    }

    /// Whether a record for the identifier is cached.
    pub open spec fn has_platform(&self, id: Seq<char>) -> bool {
        exists|i: int| 0 <= i < self@.len() && (#[trigger] self@[i]).id == id
    }

    /// The cached record for the identifier, when one is cached.
    pub open spec fn spec_get(&self, id: Seq<char>) -> PlatformView {
        self@[choose|i: int| 0 <= i < self@.len() && (#[trigger] self@[i]).id == id]
    }

    /// The position of the identifier's record, when one is cached.
    fn find_index(&self, platform_id: &str) -> (idx: Option<usize>)
        ensures
            idx matches Some(i) ==> i < self@.len() && self@[i as int].id == platform_id@,
            idx is None ==> !self.has_platform(platform_id@),
    {
        let mut i: usize = 0;
        while i < self.info.len()
            invariant
                i <= self.info.len(),
                self@.len() == self.info@.len(),
                forall|j: int| 0 <= j < i ==> (#[trigger] self@[j]).id != platform_id@,
            decreases self.info.len() - i,
        {
            if str_eq(self.info[i]._id.as_str(), platform_id) {
                proof {
                    assert(self@[i as int].id == platform_id@);
                }
                return Some(i);
            }
            i += 1;
        }
        None
    }

    /// The index of the first cached identifier not strictly preceding
    /// `platform_id`; the length when every identifier precedes it.
    fn lower_bound(&self, platform_id: &str) -> (pos: usize)
        requires
            self.inv(),
        ensures
            pos <= self@.len(),
            forall|j: int| 0 <= j < pos ==> seq_lt((#[trigger] self@[j]).id, platform_id@),
            pos < self@.len() ==> !seq_lt(self@[pos as int].id, platform_id@),
    {
        let mut i: usize = 0;
        while i < self.info.len()
            invariant
                i <= self.info.len(),
                self@.len() == self.info@.len(),
                forall|j: int| 0 <= j < i ==> seq_lt((#[trigger] self@[j]).id, platform_id@),
            decreases self.info.len() - i,
        {
            if !str_lt(self.info[i]._id.as_str(), platform_id) {
                return i;
            }
            i += 1;
        }
        i
    }

    /// With identifiers pairwise distinct, any index holding `id` is the
    /// one `spec_get` denotes.
    proof fn lemma_get_at(&self, id: Seq<char>, i: int)
        requires
            self.inv(),
            0 <= i < self@.len(),
            self@[i].id == id,
        ensures
            self.has_platform(id),
            self.spec_get(id) == self@[i],
    {
        assert(self.has_platform(id));
        let c = choose|c: int| 0 <= c < self@.len() && (#[trigger] self@[c]).id == id;
        if c != i {
            lemma_sorted_ids_distinct(self@, c, i);
        }
    }

    /// An owned copy of the cached record for the platform, when one is
    /// cached.
    pub fn get_platform(&self, platform_id: &str) -> (res: Option<PlatformRes>)
        requires
            self.inv(),
        ensures
            res is Some <==> self.has_platform(platform_id@),
            res matches Some(p) ==> p@ == self.spec_get(platform_id@) && p@.id == platform_id@,
    {
        match self.find_index(platform_id) {
            Some(i) => {
                let p = self.info[i].clone();
                proof {
                    self.lemma_get_at(platform_id@, i as int);
                }
                Some(p)
            },
            None => None,
        }
    }

    /// Owned copies of all cached records, in ascending identifier order.
    pub fn get_platforms(&self) -> (res: Vec<PlatformRes>)
        requires
            self.inv(),
        ensures
            res@.len() == self@.len(),
            forall|i: int| 0 <= i < self@.len() ==> (#[trigger] res@[i])@ == self@[i],
            forall|i: int, j: int|
                0 <= i < j < res@.len() ==> seq_lt(
                    (#[trigger] res@[i])@.id,
                    (#[trigger] res@[j])@.id,
                ),
    {
        let mut res: Vec<PlatformRes> = Vec::new();
        let mut i: usize = 0;
        while i < self.info.len()
            invariant
                i <= self.info.len(),
                res@.len() == i,
                self@.len() == self.info@.len(),
                forall|j: int| 0 <= j < i ==> (#[trigger] res@[j])@ == self@[j],
            decreases self.info.len() - i,
        {
            res.push(self.info[i].clone());
            i += 1;
        }
        res
    }

    /// Insert or replace the record for one platform; every other record is
    /// untouched and the order stays ascending.
    pub fn update_platform(&mut self, platform_res: &PlatformRes)
        requires
            old(self).inv(),
        ensures
            final(self).inv(),
            final(self).has_platform(platform_res@.id),
            final(self).spec_get(platform_res@.id) == platform_res@,
            forall|id: Seq<char>|
                id != platform_res@.id ==> (final(self).has_platform(id) <==> old(
                    self,
                ).has_platform(id)),
            forall|id: Seq<char>|
                id != platform_res@.id && old(self).has_platform(id) ==> final(self).spec_get(id)
                    == old(self).spec_get(id),
            old(self).has_platform(platform_res@.id) ==> final(self)@.len() == old(self)@.len(),
            !old(self).has_platform(platform_res@.id) ==> final(self)@.len() == old(self)@.len()
                + 1,
    {
        let ghost prev = self@;
        let pos = self.lower_bound(platform_res._id.as_str());
        if pos < self.info.len() && str_eq(
            self.info[pos]._id.as_str(),
            platform_res._id.as_str(),
        ) {
            proof {
                assert(self@[pos as int].id == platform_res@.id);
            }
            self.info.remove(pos);
            self.info.insert(pos, platform_res.clone());
            proof {
                assert forall|k: int| 0 <= k < self@.len() && k != pos implies self@[k]
                    == prev[k] by {
                    assert(self@[k] == self.info@[k]@);
                }
                assert(self@[pos as int] == platform_res@);
                assert(self@.len() == prev.len());
                self.lemma_frame_replace(prev, pos as int, platform_res@);
            }
        } else {
            proof {
                if pos < self.info.len() {
                    assert(self@[pos as int].id == self.info@[pos as int]@.id);
                    if !seq_lt(platform_res@.id, self@[pos as int].id) {
                        lemma_seq_lt_connected(self@[pos as int].id, platform_res@.id);
                    }
                }
            }
            self.info.insert(pos, platform_res.clone());
            proof {
                assert forall|k: int| 0 <= k < pos implies self@[k] == prev[k] by {
                    assert(self@[k] == self.info@[k]@);
                }
                assert forall|k: int| pos < k < self@.len() implies self@[k] == prev[k - 1] by {
                    assert(self@[k] == self.info@[k]@);
                }
                assert(self@[pos as int] == platform_res@);
                assert(self@.len() == prev.len() + 1);
                self.lemma_frame_insert(prev, pos as int, platform_res@);
            }
        }
    }

    /// After replacing the record at index `i` (same identifier, everything
    /// else unchanged) of a sorted cache previously holding `prev`, lookups
    /// behave as an upsert of `p` and the order stays ascending.
    proof fn lemma_frame_replace(&self, prev: Seq<PlatformView>, i: int, p: PlatformView)
        requires
            0 <= i < self@.len(),
            self@.len() == prev.len(),
            forall|k: int| 0 <= k < self@.len() && k != i ==> #[trigger] self@[k] == prev[k],
            self@[i] == p,
            prev[i].id == p.id,
            forall|x: int, y: int|
                0 <= x < y < prev.len() ==> seq_lt((#[trigger] prev[x]).id, (#[trigger] prev[y]).id),
        ensures
            self.inv(),
            self.has_platform(p.id),
            self.spec_get(p.id) == p,
            forall|id: Seq<char>|
                id != p.id ==> (self.has_platform(id) <==> spec_seq_has(prev, id)),
            forall|id: Seq<char>|
                id != p.id && spec_seq_has(prev, id) ==> self.spec_get(id) == spec_seq_get(
                    prev,
                    id,
                ),
    {
        assert forall|x: int, y: int| 0 <= x < y < self@.len() implies seq_lt(
            (#[trigger] self@[x]).id,
            (#[trigger] self@[y]).id,
        ) by {
            assert(self@[x].id == prev[x].id);
            assert(self@[y].id == prev[y].id);
        }
        self.lemma_get_at(p.id, i);
        assert forall|id: Seq<char>| id != p.id implies (self.has_platform(id) <==> spec_seq_has(
            prev,
            id,
        )) by {
            if self.has_platform(id) {
                let k = choose|k: int| 0 <= k < self@.len() && (#[trigger] self@[k]).id == id;
                assert(k != i);
                assert(prev[k].id == id);
            }
            if spec_seq_has(prev, id) {
                let k = choose|k: int| 0 <= k < prev.len() && (#[trigger] prev[k]).id == id;
                assert(k != i);
                assert(self@[k].id == id);
            }
        }
        assert forall|id: Seq<char>| id != p.id && spec_seq_has(prev, id) implies self.spec_get(id)
            == spec_seq_get(prev, id) by {
            let k = choose|k: int| 0 <= k < prev.len() && (#[trigger] prev[k]).id == id;
            assert(k != i);
            assert(self@[k] == prev[k]);
            self.lemma_get_at(id, k);
            let c = choose|c: int| 0 <= c < prev.len() && (#[trigger] prev[c]).id == id;
            if c != k {
                lemma_sorted_ids_distinct(prev, c, k);
            }
        }
    }

    /// After inserting the record `p` at position `pos` of a sorted cache
    /// previously holding `prev` (everything before `pos` preceding `p`'s
    /// identifier, everything from `pos` on following it), `p` is newly
    /// present, every other lookup is untouched, and the order stays
    /// ascending.
    proof fn lemma_frame_insert(&self, prev: Seq<PlatformView>, pos: int, p: PlatformView)
        requires
            0 <= pos <= prev.len(),
            self@.len() == prev.len() + 1,
            forall|k: int| 0 <= k < pos ==> #[trigger] self@[k] == prev[k],
            forall|k: int| pos < k < self@.len() ==> #[trigger] self@[k] == prev[k - 1],
            self@[pos] == p,
            forall|x: int, y: int|
                0 <= x < y < prev.len() ==> seq_lt((#[trigger] prev[x]).id, (#[trigger] prev[y]).id),
            forall|k: int| 0 <= k < pos ==> seq_lt((#[trigger] prev[k]).id, p.id),
            pos < prev.len() ==> seq_lt(p.id, prev[pos].id),
        ensures
            self.inv(),
            self.has_platform(p.id),
            self.spec_get(p.id) == p,
            !spec_seq_has(prev, p.id),
            forall|id: Seq<char>|
                id != p.id ==> (self.has_platform(id) <==> spec_seq_has(prev, id)),
            forall|id: Seq<char>|
                id != p.id && spec_seq_has(prev, id) ==> self.spec_get(id) == spec_seq_get(
                    prev,
                    id,
                ),
    {
        assert forall|k: int| 0 <= k < prev.len() implies (#[trigger] prev[k]).id != p.id by {
            if k < pos {
                if prev[k].id == p.id {
                    lemma_seq_lt_irreflexive(p.id);
                }
            } else {
                if k > pos {
                    lemma_seq_lt_transitive(p.id, prev[pos].id, prev[k].id);
                }
                if prev[k].id == p.id {
                    lemma_seq_lt_irreflexive(p.id);
                }
            }
        }
        assert forall|x: int, y: int| 0 <= x < y < self@.len() implies seq_lt(
            (#[trigger] self@[x]).id,
            (#[trigger] self@[y]).id,
        ) by {
            if x == pos {
                assert(self@[y] == prev[y - 1]);
                if y - 1 > pos {
                    lemma_seq_lt_transitive(p.id, prev[pos].id, prev[y - 1].id);
                }
            } else if y == pos {
                assert(self@[x] == prev[x]);
            } else if x < pos && y > pos {
                assert(self@[x] == prev[x] && self@[y] == prev[y - 1]);
                if x == y - 1 {
                    assert(seq_lt(prev[x].id, p.id) && seq_lt(p.id, prev[pos].id));
                    lemma_seq_lt_transitive(prev[x].id, p.id, prev[pos].id);
                } else {
                    assert(seq_lt(prev[x].id, prev[y - 1].id));
                }
            } else if x > pos {
                assert(self@[x] == prev[x - 1] && self@[y] == prev[y - 1]);
                assert(seq_lt(prev[x - 1].id, prev[y - 1].id));
            } else {
                assert(self@[x] == prev[x] && self@[y] == prev[y]);
                assert(seq_lt(prev[x].id, prev[y].id));
            }
        }
        self.lemma_get_at(p.id, pos);
        assert forall|id: Seq<char>| id != p.id implies (self.has_platform(id) <==> spec_seq_has(
            prev,
            id,
        )) by {
            if self.has_platform(id) {
                let k = choose|k: int| 0 <= k < self@.len() && (#[trigger] self@[k]).id == id;
                assert(k != pos);
                if k < pos {
                    assert(prev[k].id == id);
                } else {
                    assert(prev[k - 1].id == id);
                }
            }
            if spec_seq_has(prev, id) {
                let k = choose|k: int| 0 <= k < prev.len() && (#[trigger] prev[k]).id == id;
                if k < pos {
                    assert(self@[k].id == id);
                } else {
                    assert(self@[k + 1].id == id);
                }
            }
        }
        assert forall|id: Seq<char>| id != p.id && spec_seq_has(prev, id) implies self.spec_get(id)
            == spec_seq_get(prev, id) by {
            let k = choose|k: int| 0 <= k < prev.len() && (#[trigger] prev[k]).id == id;
            let sk: int = if k < pos {
                k
            } else {
                k + 1
            };
            assert(self@[sk] == prev[k]);
            self.lemma_get_at(id, sk);
            let c = choose|c: int| 0 <= c < prev.len() && (#[trigger] prev[c]).id == id;
            if c != k {
                lemma_sorted_ids_distinct(prev, c, k);
            }
        }
    }

    /// Replace the whole cache with the given records. When the input holds
    /// several records for one identifier, the last wins, as in a
    /// keyed bulk load; the result is in ascending identifier order.
    #[verifier::rlimit(50)]
    pub fn set_platforms(&mut self, platforms: Vec<PlatformRes>)
        requires
            old(self).inv(),
        ensures
            final(self).inv(),
            forall|id: Seq<char>|
                final(self).has_platform(id) <==> spec_seq_has(platforms_views(platforms@), id),
            forall|i: int|
                (0 <= i < platforms@.len() && (forall|j: int|
                    i < j < platforms@.len() ==> (#[trigger] platforms@[j])@.id
                        != platforms@[i]@.id)) ==> final(self).spec_get(platforms@[i]@.id)
                    == platforms@[i]@,
    {
        let ghost pv = platforms_views(platforms@);
        self.info.clear();
        proof {
            assert(self@ =~= Seq::<PlatformView>::empty());
        }
        let mut i: usize = 0;
        while i < platforms.len()
            invariant
                i <= platforms.len(),
                pv == platforms_views(platforms@),
                pv.len() == platforms@.len(),
                self.inv(),
                forall|id: Seq<char>|
                    self.has_platform(id) <==> (exists|k: int|
                        0 <= k < i && (#[trigger] pv[k]).id == id),
                forall|k: int|
                    (0 <= k < i && (forall|j: int|
                        k < j < i ==> (#[trigger] pv[j]).id != pv[k].id)) ==> self.spec_get(
                        pv[k].id,
                    ) == pv[k],
            decreases platforms.len() - i,
        {
            let ghost prev_self = *self;
            proof {
                assert(platforms@[i as int]@ == pv[i as int]);
            }
            self.update_platform(&platforms[i]);
            proof {
                assert forall|id: Seq<char>| self.has_platform(id) implies (exists|k: int|
                    0 <= k < i + 1 && (#[trigger] pv[k]).id == id) by {
                    if id == pv[i as int].id {
                        assert(0 <= i < i + 1 && pv[i as int].id == id);
                    } else {
                        assert(prev_self.has_platform(id));
                        let k = choose|k: int| 0 <= k < i && (#[trigger] pv[k]).id == id;
                        assert(0 <= k < i + 1 && pv[k].id == id);
                    }
                }
                assert forall|id: Seq<char>| (exists|k: int|
                    0 <= k < i + 1 && (#[trigger] pv[k]).id == id) implies self.has_platform(
                    id,
                ) by {
                    let k = choose|k: int| 0 <= k < i + 1 && (#[trigger] pv[k]).id == id;
                    if id == pv[i as int].id {
                        assert(self.has_platform(pv[i as int].id));
                    } else {
                        assert(k < i);
                        assert(prev_self.has_platform(id));
                    }
                }
                assert forall|k: int|
                    (0 <= k < i + 1 && (forall|j: int|
                        k < j < i + 1 ==> (#[trigger] pv[j]).id != pv[k].id)) implies self.spec_get(
                    pv[k].id,
                ) == pv[k] by {
                    if k == i {
                        assert(self.spec_get(pv[i as int].id) == pv[i as int]);
                    } else {
                        assert(pv[i as int].id != pv[k].id);
                        assert(forall|j: int| k < j < i ==> (#[trigger] pv[j]).id != pv[k].id);
                        assert(prev_self.spec_get(pv[k].id) == pv[k]);
                        assert(prev_self.has_platform(pv[k].id));
                        assert(self.spec_get(pv[k].id) == prev_self.spec_get(pv[k].id));
                    }
                }
            }
            i += 1;
        }
        proof {
            assert forall|id: Seq<char>| self.has_platform(id) <==> spec_seq_has(pv, id) by {
            }
            assert forall|i2: int|
                (0 <= i2 < platforms@.len() && (forall|j: int|
                    i2 < j < platforms@.len() ==> (#[trigger] platforms@[j])@.id
                        != platforms@[i2]@.id)) implies self.spec_get(platforms@[i2]@.id)
                == platforms@[i2]@ by {
                assert(pv[i2] == platforms@[i2]@);
                assert forall|j: int| i2 < j < platforms@.len() implies (#[trigger] pv[j]).id
                    != pv[i2].id by {
                    assert(pv[j] == platforms@[j]@);
                }
                assert(self.spec_get(pv[i2].id) == pv[i2]);
            }
        }
    }
}

/// The ghost images of a sequence of platform records.
pub open spec fn platforms_views(s: Seq<PlatformRes>) -> Seq<PlatformView> {
    Seq::new(s.len(), |i: int| s[i]@)
}

/// Some record in the sequence carries the identifier.
pub open spec fn spec_seq_has(s: Seq<PlatformView>, id: Seq<char>) -> bool {
    exists|i: int| 0 <= i < s.len() && (#[trigger] s[i]).id == id
}

/// The record carrying the identifier, when one is present.
pub open spec fn spec_seq_get(s: Seq<PlatformView>, id: Seq<char>) -> PlatformView {
    s[choose|i: int| 0 <= i < s.len() && (#[trigger] s[i]).id == id]
}

/// Those identifiers, in order, whose platforms are cached.
pub open spec fn cached_ids(ids: Seq<Seq<char>>, cache: PlatformInfo) -> Seq<Seq<char>> {
    ids.filter(|id: Seq<char>| cache.has_platform(id))
}

} // verus!
