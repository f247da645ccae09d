//! Registry of the platforms selected for relaying.
//!
//! The registry is the durable, unique set of platform identifiers currently
//! being dispatched. It is held as a strictly sorted vector, so identifiers
//! are unique and are reported in sorted order. Every mutating operation is
//! idempotent. Durable persistence (a full rewrite of the backing file after
//! each mutation) is performed by the surrounding program, which serializes
//! the identifier list this type hands out.

use vstd::prelude::*;

use crate::str_order::{
    lemma_seq_lt_connected, lemma_seq_lt_irreflexive, lemma_seq_lt_transitive, seq_lt,
    sorted_strict, str_eq, str_lt,
};

verus! {

/// The identifiers of the dispatched platforms, strictly sorted.
pub struct DispatchedInfo {
    platform_ids: Vec<String>,
}

impl View for DispatchedInfo {
    type V = Seq<Seq<char>>;

    closed spec fn view(&self) -> Seq<Seq<char>> {
        self.platform_ids.deep_view()
    }
}

/// No identifier strictly preceding `id` can be `id` itself, and none that
/// `id` strictly precedes can be either; so a sorted registry that passes
/// `id` without finding it does not contain it.
proof fn lemma_absent(s: Seq<Seq<char>>, id: Seq<char>, pos: int)
    requires
        sorted_strict(s),
        0 <= pos <= s.len(),
        forall|j: int| 0 <= j < pos ==> seq_lt(#[trigger] s[j], id),
        pos < s.len() ==> seq_lt(id, s[pos]),
    ensures
        !s.contains(id),
{
    assert forall|j: int| 0 <= j < s.len() implies s[j] != id by {
        if j < pos {
            if s[j] == id {
                lemma_seq_lt_irreflexive(id);
            }
        } else if j == pos {
            if s[j] == id {
                lemma_seq_lt_irreflexive(id);
            }
        } else {
            lemma_seq_lt_transitive(id, s[pos], s[j]);
            if s[j] == id {
                lemma_seq_lt_irreflexive(id);
            }
        }
    }
}

/// The identifiers that one pass of `add_platform_ids` reports as newly
/// added: those input entries not in the registry set and not seen earlier
/// in the input, in input order.
pub open spec fn newly_added(s: Set<Seq<char>>, input: Seq<Seq<char>>) -> Seq<Seq<char>>
    decreases input.len(),
{
    if input.len() == 0 {
        Seq::empty()
    } else {
        let prefix = newly_added(s, input.drop_last());
        let seen = s.union(input.drop_last().to_set());
        if seen.contains(input.last()) {
            prefix
        } else {
            prefix.push(input.last())
        }
    }
}

/// What `add_platform_ids` reports is exactly the set of input identifiers
/// that were not already registered, whatever the input's order and whatever
/// duplicates it holds; and the registry's final set is the union of the old
/// set and the input.
pub proof fn lemma_add_many_exact(s: Set<Seq<char>>, input: Seq<Seq<char>>)
    ensures
        newly_added(s, input).to_set() =~= input.to_set().difference(s),
    decreases input.len(),
{
    if input.len() == 0 {
        assert(input.to_set() =~= Set::<Seq<char>>::empty());
    } else {
        lemma_add_many_exact(s, input.drop_last());
        assert(input.to_set() =~= input.drop_last().to_set().insert(input.last())) by {
            assert forall|x: Seq<char>| input.to_set().contains(x) implies input.drop_last().to_set().insert(input.last()).contains(x) by {
                let i = choose|i: int| 0 <= i < input.len() && input[i] == x;
                if i < input.len() - 1 {
                    assert(input.drop_last()[i] == x);
                    assert(input.drop_last().contains(x));
                }
            }
            assert forall|x: Seq<char>| input.drop_last().to_set().insert(input.last()).contains(x) implies input.to_set().contains(x) by {
                if input.drop_last().contains(x) {
                    let i = choose|i: int| 0 <= i < input.drop_last().len() && input.drop_last()[i] == x;
                    assert(input[i] == x);
                }
            }
        }
        let prefix = newly_added(s, input.drop_last());
        let seen = s.union(input.drop_last().to_set());
        if seen.contains(input.last()) {
            assert(newly_added(s, input).to_set() =~= input.to_set().difference(s));
        } else {
            assert(prefix.push(input.last()).to_set() =~= prefix.to_set().insert(input.last())) by {
                assert forall|x: Seq<char>| prefix.push(input.last()).contains(x) implies prefix.to_set().insert(input.last()).contains(x) by {
                    let i = choose|i: int| 0 <= i < prefix.push(input.last()).len() && prefix.push(input.last())[i] == x;
                    if i < prefix.len() {
                        assert(prefix[i] == x);
                    }
                }
                assert forall|x: Seq<char>| prefix.to_set().insert(input.last()).contains(x) implies prefix.push(input.last()).contains(x) by {
                    if prefix.contains(x) {
                        let i = choose|i: int| 0 <= i < prefix.len() && prefix[i] == x;
                        assert(prefix.push(input.last())[i] == x);
                    } else {
                        assert(prefix.push(input.last())[prefix.len() as int] == x);
                    }
                }
            }
            assert(newly_added(s, input).to_set() =~= input.to_set().difference(s));
        }
    }
}

/// Two inputs with the same identifier set yield the same reported set and
/// the same final registry set, independent of ordering and duplicates.
pub proof fn lemma_add_many_order_independent(
    s: Set<Seq<char>>,
    input1: Seq<Seq<char>>,
    input2: Seq<Seq<char>>,
)
    requires
        input1.to_set() == input2.to_set(),
    ensures
        newly_added(s, input1).to_set() == newly_added(s, input2).to_set(),
        s.union(input1.to_set()) == s.union(input2.to_set()),
{
    lemma_add_many_exact(s, input1);
    lemma_add_many_exact(s, input2);
    assert(newly_added(s, input1).to_set() =~= newly_added(s, input2).to_set());
}

/// The registry is the canonical form of its identifier set: two strictly
/// sorted sequences holding the same identifiers are the same sequence.
/// With the union that `add_platform_ids` ensures, two bulk additions of
/// set-equal inputs therefore leave identical registries, whatever the
/// inputs' order and whatever duplicates they hold.
pub proof fn lemma_registry_canonical(a: Seq<Seq<char>>, b: Seq<Seq<char>>)
    requires
        sorted_strict(a),
        sorted_strict(b),
        a.to_set() == b.to_set(),
    ensures
        a == b,
    decreases a.len(),
{
    if a.len() == 0 {
        if b.len() > 0 {
            assert(b.to_set().contains(b[0]));
            assert(a.contains(b[0]));
        }
        assert(a =~= b);
    } else {
        assert(a.to_set().contains(a[0]));
        assert(b.to_set().contains(a[0]));
        assert(b.contains(a[0]));
        assert(b.len() > 0);
        // the heads are both the least identifier of the common set
        let j = choose|j: int| 0 <= j < b.len() && b[j] == a[0];
        if j > 0 {
            assert(seq_lt(b[0], a[0]));
            assert(b.to_set().contains(b[0]));
            assert(a.contains(b[0]));
            let i = choose|i: int| 0 <= i < a.len() && a[i] == b[0];
            if i > 0 {
                assert(seq_lt(a[0], b[0]));
                lemma_seq_lt_transitive(a[0], b[0], a[0]);
                lemma_seq_lt_irreflexive(a[0]);
            }
        }
        assert(a[0] == b[0]);
        lemma_sorted_tail_set(a);
        lemma_sorted_tail_set(b);
        assert(a.skip(1).to_set() =~= b.skip(1).to_set());
        assert(sorted_strict(a.skip(1))) by {
            assert forall|x: int, y: int| 0 <= x < y < a.skip(1).len() implies seq_lt(
                #[trigger] a.skip(1)[x],
                #[trigger] a.skip(1)[y],
            ) by {
                assert(a.skip(1)[x] == a[x + 1] && a.skip(1)[y] == a[y + 1]);
            }
        }
        assert(sorted_strict(b.skip(1))) by {
            assert forall|x: int, y: int| 0 <= x < y < b.skip(1).len() implies seq_lt(
                #[trigger] b.skip(1)[x],
                #[trigger] b.skip(1)[y],
            ) by {
                assert(b.skip(1)[x] == b[x + 1] && b.skip(1)[y] == b[y + 1]);
            }
        }
        lemma_registry_canonical(a.skip(1), b.skip(1));
        assert(a =~= b) by {
            assert forall|k: int| 0 <= k < a.len() implies a[k] == b[k] by {
                if k > 0 {
                    assert(a[k] == a.skip(1)[k - 1]);
                    assert(b[k] == b.skip(1)[k - 1]);
                }
            }
        }
    }
}

/// Dropping the head of a strictly sorted sequence removes exactly the head
/// from its set: the head never recurs later.
proof fn lemma_sorted_tail_set(s: Seq<Seq<char>>)
    requires
        sorted_strict(s),
        s.len() > 0,
    ensures
        s.skip(1).to_set() =~= s.to_set().remove(s[0]),
{
    assert forall|x: Seq<char>| s.skip(1).to_set().contains(x) implies s.to_set().remove(
        s[0],
    ).contains(x) by {
        let k = choose|k: int| 0 <= k < s.skip(1).len() && s.skip(1)[k] == x;
        assert(s[k + 1] == x);
        assert(s.contains(x));
        if x == s[0] {
            assert(seq_lt(s[0], s[k + 1]));
            lemma_seq_lt_irreflexive(s[0]);
        }
    }
    assert forall|x: Seq<char>| s.to_set().remove(s[0]).contains(x) implies s.skip(
        1,
    ).to_set().contains(x) by {
        let k = choose|k: int| 0 <= k < s.len() && s[k] == x;
        assert(k != 0);
        assert(s.skip(1)[k - 1] == x);
        assert(s.skip(1).contains(x));
    }
}

/// Adding an identifier twice leaves it present exactly once, and the
/// second addition leaves the registry — its persisted size included —
/// exactly as the first left it: `before` is any registry, `once` any
/// registry after one addition of `id`, and `twice` any registry after a
/// second.
pub proof fn lemma_add_idempotent(
    before: Seq<Seq<char>>,
    once: Seq<Seq<char>>,
    twice: Seq<Seq<char>>,
    id: Seq<char>,
)
    requires
        sorted_strict(before),
        sorted_strict(once),
        sorted_strict(twice),
        once.to_set() == before.to_set().insert(id),
        twice.to_set() == once.to_set().insert(id),
    ensures
        twice == once,
        exists|i: int| 0 <= i < once.len() && once[i] == id,
        forall|i: int, j: int|
            (0 <= i < once.len() && 0 <= j < once.len() && once[i] == id && once[j] == id) ==> i
                == j,
{
    assert(once.to_set().contains(id));
    assert(twice.to_set() =~= once.to_set());
    lemma_registry_canonical(twice, once);
    assert(once.contains(id));
    assert forall|i: int, j: int|
        (0 <= i < once.len() && 0 <= j < once.len() && once[i] == id && once[j] == id) implies i
        == j by {
        if i != j {
            lemma_seq_lt_irreflexive(id);
        }
    }
}

impl DispatchedInfo {
    /// The registry is strictly sorted; its identifiers are pairwise
    /// distinct.
    pub open spec fn inv(&self) -> bool {
        sorted_strict(self@)
    }

    /// An empty registry, used when no durable state exists yet.
    pub fn empty() -> (res: Self)
        ensures
            res.inv(),
            res@ =~= Seq::<Seq<char>>::empty(),
    {
        DispatchedInfo { platform_ids: Vec::new() }
    }

    /// A registry built from identifiers loaded from durable storage; the
    /// identifiers are deduplicated and sorted, so the stored order does not
    /// matter.
    pub fn from_platform_ids(platform_ids: &Vec<String>) -> (res: Self)
        ensures
            res.inv(),
            res@.to_set() =~= platform_ids.deep_view().to_set(),
    {
        let ghost input = platform_ids.deep_view();
        let mut res = DispatchedInfo { platform_ids: Vec::new() };
        let mut i: usize = 0;
        proof {
            assert(res@.to_set() =~= input.take(0).to_set());
        }
        while i < platform_ids.len()
            invariant
                i <= platform_ids.len(),
                input == platform_ids.deep_view(),
                input.len() == platform_ids.len(),
                res.inv(),
                res@.to_set() =~= input.take(i as int).to_set(),
            decreases platform_ids.len() - i,
        {
            proof {
                assert(input[i as int] == platform_ids@[i as int]@);
            }
            res.add_platform_id(&platform_ids[i]);
            proof {
                let taken = input.take(i as int);
                let taken1 = input.take(i as int + 1);
                assert(taken1.to_set() =~= taken.to_set().insert(input[i as int])) by {
                    assert forall|x: Seq<char>| taken1.contains(x) implies taken.to_set().insert(
                        input[i as int],
                    ).contains(x) by {
                        let j = choose|j: int| 0 <= j < taken1.len() && taken1[j] == x;
                        if j < i {
                            assert(taken[j] == x);
                        }
                    }
                    assert forall|x: Seq<char>| taken.to_set().insert(input[i as int]).contains(
                        x,
                    ) implies taken1.contains(x) by {
                        if taken.contains(x) {
                            let j = choose|j: int| 0 <= j < taken.len() && taken[j] == x;
                            assert(taken1[j] == x);
                        } else {
                            assert(taken1[i as int] == x);
                        }
                    }
                }
                assert(res@.to_set() =~= taken1.to_set());
            }
            i += 1;
        }
        proof {
            assert(input.take(platform_ids.len() as int) =~= input);
        }
        res
    }

    /// How many platforms are registered.
    pub fn get_num_platforms(&self) -> (n: usize)
        ensures
            n == self@.len(),
    {
        self.platform_ids.len()
    }

    /// The registered identifiers, in sorted order.
    pub fn get_platform_ids(&self) -> (ids: Vec<String>)
        requires
            self.inv(),
        ensures
            ids.deep_view() =~= self@,
            sorted_strict(ids.deep_view()),
    {
        let mut ids: Vec<String> = Vec::new();
        let mut i: usize = 0;
        while i < self.platform_ids.len()
            invariant
                i <= self.platform_ids.len(),
                ids@.len() == i,
                self@.len() == self.platform_ids@.len(),
                forall|j: int| 0 <= j < i ==> #[trigger] ids@[j]@ == self.platform_ids@[j]@,
            decreases self.platform_ids.len() - i,
        {
            ids.push(self.platform_ids[i].clone());
            i += 1;
        }
        proof {
            assert(ids.deep_view() =~= self@);
        }
        ids
    }

    /// The index of the first registered identifier not strictly preceding
    /// `platform_id`; the length when every identifier precedes it.
    fn lower_bound(&self, platform_id: &str) -> (pos: usize)
        requires
            self.inv(),
        ensures
            pos <= self@.len(),
            forall|j: int| 0 <= j < pos ==> seq_lt(#[trigger] self@[j], platform_id@),
            pos < self@.len() ==> !seq_lt(self@[pos as int], platform_id@),
    {
        let mut i: usize = 0;
        while i < self.platform_ids.len()
            invariant
                i <= self.platform_ids.len(),
                self@.len() == self.platform_ids@.len(),
                forall|j: int| 0 <= j < i ==> seq_lt(#[trigger] self@[j], platform_id@),
            decreases self.platform_ids.len() - i,
        {
            if !str_lt(self.platform_ids[i].as_str(), platform_id) {
                return i;
            }
            i += 1;
        }
        i
    }

    /// Whether the platform is currently registered for dispatch.
    pub fn is_dispatched_platform(&self, platform_id: &str) -> (dispatched: bool)
        requires
            self.inv(),
        ensures
            dispatched == self@.contains(platform_id@),
    {
        let pos = self.lower_bound(platform_id);
        if pos < self.platform_ids.len() && str_eq(self.platform_ids[pos].as_str(), platform_id) {
            proof {
                assert(self@[pos as int] == platform_id@);
            }
            true
        } else {
            proof {
                if pos < self.platform_ids.len() {
                    assert(self@[pos as int] == self.platform_ids@[pos as int]@);
                    if !seq_lt(platform_id@, self@[pos as int]) {
                        lemma_seq_lt_connected(self@[pos as int], platform_id@);
                    }
                }
                lemma_absent(self@, platform_id@, pos as int);
            }
            false
        }
    }

    /// Register a platform. Returns whether it was newly added; re-adding a
    /// registered platform is a no-op. The registry stays sorted and unique.
    pub fn add_platform_id(&mut self, platform_id: &String) -> (added: bool)
        requires
            old(self).inv(),
        ensures
            final(self).inv(),
            added == !old(self)@.contains(platform_id@),
            final(self)@.contains(platform_id@),
            forall|x: Seq<char>|
                #[trigger] final(self)@.contains(x) <==> (old(self)@.contains(x) || x
                    == platform_id@),
            final(self)@.to_set() =~= old(self)@.to_set().insert(platform_id@),
            !added ==> final(self)@ == old(self)@,
            added ==> final(self)@.len() == old(self)@.len() + 1,
    {
        let pos = self.lower_bound(platform_id.as_str());
        if pos < self.platform_ids.len() && str_eq(
            self.platform_ids[pos].as_str(),
            platform_id.as_str(),
        ) {
            proof {
                assert(self@[pos as int] == platform_id@);
                assert(self@.to_set() =~= self@.to_set().insert(platform_id@));
            }
            return false;
        }
        proof {
            if pos < self.platform_ids.len() {
                assert(self@[pos as int] == self.platform_ids@[pos as int]@);
                if !seq_lt(platform_id@, self@[pos as int]) {
                    lemma_seq_lt_connected(self@[pos as int], platform_id@);
                }
            }
            lemma_absent(self@, platform_id@, pos as int);
        }
        let ghost prev = self@;
        self.platform_ids.insert(pos, platform_id.clone());
        proof {
            assert(self@ =~= prev.insert(pos as int, platform_id@)) by {
                assert forall|k: int| 0 <= k < self@.len() implies self@[k] == prev.insert(
                    pos as int,
                    platform_id@,
                )[k] by {
                    assert(self@[k] == self.platform_ids@[k]@);
                }
            }
            assert forall|i: int, j: int| 0 <= i < j < self@.len() implies seq_lt(
                self@[i],
                self@[j],
            ) by {
                if i == pos {
                    // the new identifier precedes everything at and after pos
                    if j > pos {
                        lemma_seq_lt_transitive_at(prev, platform_id@, pos as int, j - 1);
                    }
                } else if j == pos {
                    assert(seq_lt(prev[i], platform_id@));
                } else if i < pos && j > pos {
                    assert(seq_lt(prev[i], prev[j - 1]));
                } else if i > pos {
                    assert(seq_lt(prev[i - 1], prev[j - 1]));
                } else {
                    assert(seq_lt(prev[i], prev[j]));
                }
            }
            assert(self@.contains(platform_id@)) by {
                assert(self@[pos as int] == platform_id@);
            }
            assert forall|x: Seq<char>| #[trigger] self@.contains(x) implies (prev.contains(x) || x
                == platform_id@) by {
                let k = choose|k: int| 0 <= k < self@.len() && self@[k] == x;
                if k < pos {
                    assert(prev[k] == x);
                } else if k > pos {
                    assert(prev[k - 1] == x);
                }
            }
            assert forall|x: Seq<char>| (prev.contains(x) || x == platform_id@) implies #[trigger] self@.contains(
                x,
            ) by {
                if prev.contains(x) {
                    let k = choose|k: int| 0 <= k < prev.len() && prev[k] == x;
                    if k < pos {
                        assert(self@[k] == x);
                    } else {
                        assert(self@[k + 1] == x);
                    }
                } else {
                    assert(self@[pos as int] == x);
                }
            }
            assert(self@.to_set() =~= prev.to_set().insert(platform_id@));
        }
        true
    }

    /// Register several platforms at once. Returns the identifiers that were
    /// newly added, in input order; duplicates within the input and already
    /// registered identifiers are not reported. The registry's final set is
    /// the union of the old set and the input.
    pub fn add_platform_ids(&mut self, platform_ids: Vec<String>) -> (newly: Vec<String>)
        requires
            old(self).inv(),
        ensures
            final(self).inv(),
            newly.deep_view() =~= newly_added(old(self)@.to_set(), platform_ids.deep_view()),
            final(self)@.to_set() =~= old(self)@.to_set().union(
                platform_ids.deep_view().to_set(),
            ),
    {
        let ghost s0 = old(self)@.to_set();
        let ghost input = platform_ids.deep_view();
        let mut newly: Vec<String> = Vec::new();
        let mut i: usize = 0;
        proof {
            assert(input.take(0).to_set() =~= Set::<Seq<char>>::empty());
            assert(newly.deep_view() =~= newly_added(s0, input.take(0)));
        }
        while i < platform_ids.len()
            invariant
                i <= platform_ids.len(),
                input == platform_ids.deep_view(),
                input.len() == platform_ids.len(),
                self.inv(),
                self@.to_set() =~= s0.union(input.take(i as int).to_set()),
                newly.deep_view() =~= newly_added(s0, input.take(i as int)),
            decreases platform_ids.len() - i,
        {
            let ghost pre_set = self@.to_set();
            proof {
                assert(input[i as int] == platform_ids@[i as int]@);
            }
            let added = self.add_platform_id(&platform_ids[i]);
            if added {
                newly.push(platform_ids[i].clone());
            }
            proof {
                let taken = input.take(i as int);
                let taken1 = input.take(i as int + 1);
                assert(taken1.drop_last() =~= taken);
                assert(taken1.last() == input[i as int]);
                assert(pre_set.contains(input[i as int]) <==> s0.union(taken.to_set()).contains(
                    input[i as int],
                ));
                if added {
                    assert(newly.deep_view() =~= newly_added(s0, taken).push(input[i as int]));
                }
                assert(newly.deep_view() =~= newly_added(s0, taken1));
                assert(taken1.to_set() =~= taken.to_set().insert(input[i as int])) by {
                    assert forall|x: Seq<char>| taken1.contains(x) implies taken.to_set().insert(
                        input[i as int],
                    ).contains(x) by {
                        let j = choose|j: int| 0 <= j < taken1.len() && taken1[j] == x;
                        if j < i {
                            assert(taken[j] == x);
                        }
                    }
                    assert forall|x: Seq<char>| taken.to_set().insert(input[i as int]).contains(
                        x,
                    ) implies taken1.contains(x) by {
                        if taken.contains(x) {
                            let j = choose|j: int| 0 <= j < taken.len() && taken[j] == x;
                            assert(taken1[j] == x);
                        } else {
                            assert(taken1[i as int] == x);
                        }
                    }
                }
                assert(self@.to_set() =~= s0.union(taken1.to_set()));
            }
            i += 1;
        }
        proof {
            assert(input.take(platform_ids.len() as int) =~= input);
        }
        newly
    }

    /// Deregister a platform. Returns the identifier when it was registered,
    /// `None` when it was not; removing an absent identifier is a no-op.
    pub fn delete_platform_id(&mut self, platform_id: &str) -> (removed: Option<String>)
        requires
            old(self).inv(),
        ensures
            final(self).inv(),
            removed is Some <==> old(self)@.contains(platform_id@),
            removed matches Some(id) ==> id@ == platform_id@,
            !final(self)@.contains(platform_id@),
            forall|x: Seq<char>|
                #[trigger] final(self)@.contains(x) <==> (old(self)@.contains(x) && x
                    != platform_id@),
            final(self)@.to_set() =~= old(self)@.to_set().remove(platform_id@),
            removed is None ==> final(self)@ == old(self)@,
            removed is Some ==> final(self)@.len() + 1 == old(self)@.len(),
    {
        let pos = self.lower_bound(platform_id);
        if !(pos < self.platform_ids.len() && str_eq(
            self.platform_ids[pos].as_str(),
            platform_id,
        )) {
            proof {
                if pos < self.platform_ids.len() {
                    assert(self@[pos as int] == self.platform_ids@[pos as int]@);
                    if !seq_lt(platform_id@, self@[pos as int]) {
                        lemma_seq_lt_connected(self@[pos as int], platform_id@);
                    }
                }
                lemma_absent(self@, platform_id@, pos as int);
                assert(self@.to_set() =~= self@.to_set().remove(platform_id@));
            }
            return None;
        }
        proof {
            assert(self@[pos as int] == platform_id@);
        }
        let ghost prev = self@;
        self.platform_ids.remove(pos);
        proof {
            assert(self@ =~= prev.remove(pos as int)) by {
                assert forall|k: int| 0 <= k < self@.len() implies self@[k] == prev.remove(
                    pos as int,
                )[k] by {
                    assert(self@[k] == self.platform_ids@[k]@);
                }
            }
            assert forall|i: int, j: int| 0 <= i < j < self@.len() implies seq_lt(
                self@[i],
                self@[j],
            ) by {
                let pi: int = if i < pos { i } else { i + 1 };
                let pj: int = if j < pos { j } else { j + 1 };
                assert(seq_lt(prev[pi], prev[pj]));
            }
            assert forall|x: Seq<char>| #[trigger] self@.contains(x) implies (prev.contains(x) && x
                != platform_id@) by {
                let k = choose|k: int| 0 <= k < self@.len() && self@[k] == x;
                let pk: int = if k < pos { k } else { k + 1 };
                assert(prev[pk] == x);
                if x == platform_id@ {
                    crate::str_order::lemma_sorted_strict_unique(prev, pk, pos as int);
                }
            }
            assert forall|x: Seq<char>| (prev.contains(x) && x != platform_id@) implies #[trigger] self@.contains(
                x,
            ) by {
                let k = choose|k: int| 0 <= k < prev.len() && prev[k] == x;
                if k < pos {
                    assert(self@[k] == x);
                } else if k > pos {
                    assert(self@[k - 1] == x);
                }
            }
            assert(!self@.contains(platform_id@));
            assert(self@.to_set() =~= prev.to_set().remove(platform_id@));
        }
        Some(platform_id.to_owned())
    }
}

/// Inside a sorted prefix, an element inserted at `pos` precedes every
/// element originally at positions `pos..=j`.
proof fn lemma_seq_lt_transitive_at(prev: Seq<Seq<char>>, id: Seq<char>, pos: int, j: int)
    requires
        sorted_strict(prev),
        0 <= pos <= j < prev.len(),
        seq_lt(id, prev[pos]),
    ensures
        seq_lt(id, prev[j]),
{
    if pos < j {
        lemma_seq_lt_transitive(id, prev[pos], prev[j]);
    }
}

} // verus!
