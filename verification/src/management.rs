//! Decision logic of the management interface.
//!
//! The HTTP layer around these operations (routing, extraction, status
//! codes) lives outside the library; each operation here takes the shared
//! state and plain request values and returns plain results. The listing
//! and single-platform reads are self-healing: a registered platform with
//! no cached metadata is deregistered on the way.

use vstd::prelude::*;

use crate::dispatched_info::{newly_added, DispatchedInfo};
use crate::platform_info::{cached_ids, spec_seq_has, PlatformInfo};
use crate::trackdb_client::{PlatformRes, PositionsResponse};

verus! {

/// Platform identifiers requested for dispatching.
pub struct PlatformAdd {
    pub platform_ids: Vec<String>,
}

/// Response to a delete request: the identifier that was deregistered.
pub struct PlatformDeleteRes {
    pub platform_id: String,
}

/// Some identifier among the first `n` equals `id`.
pub open spec fn appears_before(ids: Seq<Seq<char>>, id: Seq<char>, n: int) -> bool {
    exists|k: int| 0 <= k < n && ids[k] == id
}

/// List the dispatched platforms with their metadata, in the registry's
/// sorted order. Self-healing: a registered identifier with no cached
/// record is deregistered by the listing and does not appear in the result;
/// every other registration is untouched.
pub fn get_dispatched_platforms(
    platform_info: &PlatformInfo,
    dispatched_info: &mut DispatchedInfo,
) -> (platforms: Vec<PlatformRes>)
    requires
        platform_info.inv(),
        old(dispatched_info).inv(),
    ensures
        final(dispatched_info).inv(),
        platforms@.len() == cached_ids(old(dispatched_info)@, *platform_info).len(),
        forall|k: int|
            0 <= k < platforms@.len() ==> (#[trigger] platforms@[k])@.id == cached_ids(
                old(dispatched_info)@,
                *platform_info,
            )[k] && platforms@[k]@ == platform_info.spec_get(platforms@[k]@.id),
        forall|id: Seq<char>|
            #[trigger] final(dispatched_info)@.contains(id) <==> (old(
                dispatched_info,
            )@.contains(id) && platform_info.has_platform(id)),
{
    let ghost orig = old(dispatched_info)@;
    let platform_ids = dispatched_info.get_platform_ids();
    let mut platforms: Vec<PlatformRes> = Vec::new();
    let mut i: usize = 0;
    proof {
        reveal(Seq::filter);
        assert(orig.take(0) =~= Seq::<Seq<char>>::empty());
        assert(crate::dispatcher::platforms_ids_view(platforms@) =~= cached_ids(
            orig.take(0),
            *platform_info,
        ));
    }
    while i < platform_ids.len()
        invariant
            i <= platform_ids.len(),
            platform_info.inv(),
            dispatched_info.inv(),
            platform_ids.deep_view() == orig,
            platform_ids@.len() == orig.len(),
            crate::str_order::sorted_strict(orig),
            crate::dispatcher::platforms_ids_view(platforms@) == cached_ids(
                orig.take(i as int),
                *platform_info,
            ),
            forall|k: int|
                0 <= k < platforms@.len() ==> (#[trigger] platforms@[k])@
                    == platform_info.spec_get(platforms@[k]@.id),
            forall|id: Seq<char>|
                #[trigger] dispatched_info@.contains(id) <==> (orig.contains(id) && (
                platform_info.has_platform(id) || !appears_before(orig, id, i as int))),
        decreases platform_ids.len() - i,
    {
        let ghost prev_ids = crate::dispatcher::platforms_ids_view(platforms@);
        let ghost prev_reg = *dispatched_info;
        let ghost cur = orig[i as int];
        proof {
            assert(platform_ids@[i as int]@ == orig[i as int]);
        }
        match platform_info.get_platform(platform_ids[i].as_str()) {
            Some(platform_res) => {
                platforms.push(platform_res);
                proof {
                    assert forall|id: Seq<char>| #[trigger] dispatched_info@.contains(id) implies (
                    orig.contains(id) && (platform_info.has_platform(id) || !appears_before(
                        orig,
                        id,
                        i as int + 1,
                    ))) by {
                        if !platform_info.has_platform(id) {
                            assert(!appears_before(orig, id, i as int));
                            if id == cur {
                                assert(platform_info.has_platform(cur));
                            }
                            assert(!appears_before(orig, id, i as int + 1));
                        }
                    }
                    assert forall|id: Seq<char>| (orig.contains(id) && (
                    platform_info.has_platform(id) || !appears_before(
                        orig,
                        id,
                        i as int + 1,
                    ))) implies #[trigger] dispatched_info@.contains(id) by {
                        if !platform_info.has_platform(id) {
                            assert(!appears_before(orig, id, i as int));
                        }
                    }
                }
            },
            None => {
                // platform unknown to the cache: no longer dispatched
                let _ = dispatched_info.delete_platform_id(platform_ids[i].as_str());
                proof {
                    assert forall|id: Seq<char>| #[trigger] dispatched_info@.contains(id) implies (
                    orig.contains(id) && (platform_info.has_platform(id) || !appears_before(
                        orig,
                        id,
                        i as int + 1,
                    ))) by {
                        assert(prev_reg@.contains(id) && id != cur);
                        if !platform_info.has_platform(id) {
                            assert(!appears_before(orig, id, i as int));
                            assert(!appears_before(orig, id, i as int + 1));
                        }
                    }
                    assert forall|id: Seq<char>| (orig.contains(id) && (
                    platform_info.has_platform(id) || !appears_before(
                        orig,
                        id,
                        i as int + 1,
                    ))) implies #[trigger] dispatched_info@.contains(id) by {
                        if platform_info.has_platform(id) {
                            assert(id != cur);
                            assert(prev_reg@.contains(id));
                        } else {
                            assert(!appears_before(orig, id, i as int + 1));
                            assert(orig[i as int] != id);
                            assert(!appears_before(orig, id, i as int));
                            assert(prev_reg@.contains(id));
                            assert(id != cur);
                        }
                    }
                }
            },
        }
        proof {
            reveal(Seq::filter);
            let taken1 = orig.take(i as int + 1);
            assert(taken1.drop_last() =~= orig.take(i as int));
            assert(taken1.last() == cur);
            if platform_info.has_platform(cur) {
                assert(crate::dispatcher::platforms_ids_view(platforms@) =~= prev_ids.push(cur));
            } else {
                assert(crate::dispatcher::platforms_ids_view(platforms@) =~= prev_ids);
            }
        }
        i += 1;
    }
    proof {
        assert(orig.take(orig.len() as int) =~= orig);
        assert forall|id: Seq<char>| #[trigger] dispatched_info@.contains(id) <==> (orig.contains(
            id,
        ) && platform_info.has_platform(id)) by {
            if orig.contains(id) && !platform_info.has_platform(id) {
                let k = choose|k: int| 0 <= k < orig.len() && orig[k] == id;
                assert(appears_before(orig, id, orig.len() as int));
            }
        }
    }
    platforms
}

/// The metadata of one dispatched platform: its cached record when it is
/// registered and cached. Self-healing: a registered platform with no
/// cached record is deregistered and nothing is returned; an unregistered
/// platform leaves the registry untouched.
pub fn get_dispatched_platform(
    platform_info: &PlatformInfo,
    dispatched_info: &mut DispatchedInfo,
    platform_id: &str,
) -> (res: Option<PlatformRes>)
    requires
        platform_info.inv(),
        old(dispatched_info).inv(),
    ensures
        final(dispatched_info).inv(),
        res is Some <==> (old(dispatched_info)@.contains(platform_id@)
            && platform_info.has_platform(platform_id@)),
        res matches Some(p) ==> p@ == platform_info.spec_get(platform_id@),
        forall|id: Seq<char>|
            #[trigger] final(dispatched_info)@.contains(id) <==> (old(
                dispatched_info,
            )@.contains(id) && !(id == platform_id@ && !platform_info.has_platform(id))),
{
    if dispatched_info.is_dispatched_platform(platform_id) {
        match platform_info.get_platform(platform_id) {
            Some(platform_res) => Some(platform_res),
            None => {
                // platform unknown to the cache: no longer dispatched
                let _ = dispatched_info.delete_platform_id(platform_id);
                None
            },
        }
    } else {
        None
    }
}

/// Register the requested platforms that the cache knows. Returns the
/// identifiers actually newly registered, in request order: the cached
/// requested identifiers not previously dispatched, first occurrence only.
/// An identifier with no cached record is not registered; a repeated or
/// already dispatched identifier is registered at most once and not
/// reported.
pub fn add_dispatched_platforms(
    platform_info: &PlatformInfo,
    dispatched_info: &mut DispatchedInfo,
    platform_add: &PlatformAdd,
) -> (added: Vec<String>)
    requires
        platform_info.inv(),
        old(dispatched_info).inv(),
    ensures
        final(dispatched_info).inv(),
        added.deep_view() =~= newly_added(
            old(dispatched_info)@.to_set(),
            cached_ids(platform_add.platform_ids.deep_view(), *platform_info),
        ),
        final(dispatched_info)@.to_set() =~= old(dispatched_info)@.to_set().union(
            cached_ids(platform_add.platform_ids.deep_view(), *platform_info).to_set(),
        ),
{
    let ghost input = platform_add.platform_ids.deep_view();
    let ghost s0 = old(dispatched_info)@.to_set();
    let mut added: Vec<String> = Vec::new();
    let mut i: usize = 0;
    proof {
        reveal(Seq::filter);
        assert(input.take(0) =~= Seq::<Seq<char>>::empty());
        assert(cached_ids(input.take(0), *platform_info) =~= Seq::<Seq<char>>::empty());
        assert(added.deep_view() =~= newly_added(s0, cached_ids(input.take(0), *platform_info)));
        assert(cached_ids(input.take(0), *platform_info).to_set() =~= Set::<Seq<char>>::empty());
        assert(dispatched_info@.to_set() =~= old(dispatched_info)@.to_set().union(
            cached_ids(input.take(0), *platform_info).to_set(),
        ));
    }
    while i < platform_add.platform_ids.len()
        invariant
            i <= platform_add.platform_ids.len(),
            platform_info.inv(),
            dispatched_info.inv(),
            input == platform_add.platform_ids.deep_view(),
            input.len() == platform_add.platform_ids.len(),
            s0 == old(dispatched_info)@.to_set(),
            added.deep_view() == newly_added(s0, cached_ids(input.take(i as int), *platform_info)),
            dispatched_info@.to_set() =~= s0.union(
                cached_ids(input.take(i as int), *platform_info).to_set(),
            ),
        decreases platform_add.platform_ids.len() - i,
    {
        let ghost prev_added = added.deep_view();
        let ghost prev_reg = dispatched_info@;
        let ghost cur = input[i as int];
        proof {
            assert(platform_add.platform_ids@[i as int]@ == input[i as int]);
        }
        let platform_id = &platform_add.platform_ids[i];
        let mut was_added = false;
        if platform_info.get_platform(platform_id.as_str()).is_some() {
            was_added = dispatched_info.add_platform_id(platform_id);
            if was_added {
                added.push(platform_id.clone());
            }
        }
        proof {
            reveal(Seq::filter);
            let taken1 = input.take(i as int + 1);
            assert(taken1.drop_last() =~= input.take(i as int));
            assert(taken1.last() == input[i as int]);
            let x0 = cached_ids(input.take(i as int), *platform_info);
            let x1 = cached_ids(taken1, *platform_info);
            if platform_info.has_platform(cur) {
                assert(x1 == x0.push(cur));
                assert(x1.drop_last() =~= x0);
                assert(x1.last() == cur);
                // the identifiers seen so far are the old registry set plus
                // the cached prefix, which is exactly the registry before
                // this step
                assert(prev_reg.to_set() =~= s0.union(x0.to_set()));
                assert(was_added == !prev_reg.contains(cur));
                assert(prev_reg.contains(cur) <==> prev_reg.to_set().contains(cur));
                if was_added {
                    assert(!s0.union(x0.to_set()).contains(cur));
                    assert(newly_added(s0, x1) == newly_added(s0, x0).push(cur));
                    assert(added.deep_view() =~= prev_added.push(cur));
                    assert(added.deep_view() == newly_added(s0, x1));
                } else {
                    assert(s0.union(x0.to_set()).contains(cur));
                    assert(newly_added(s0, x1) == newly_added(s0, x0));
                    assert(added.deep_view() == newly_added(s0, x1));
                }
                assert(x1.to_set() =~= x0.to_set().insert(cur)) by {
                    assert forall|x: Seq<char>| x1.contains(x) implies x0.to_set().insert(
                        cur,
                    ).contains(x) by {
                        let k = choose|k: int| 0 <= k < x1.len() && x1[k] == x;
                        if k < x0.len() {
                            assert(x0[k] == x);
                        }
                    }
                    assert forall|x: Seq<char>| x0.to_set().insert(cur).contains(
                        x,
                    ) implies x1.contains(x) by {
                        if x0.contains(x) {
                            let k = choose|k: int| 0 <= k < x0.len() && x0[k] == x;
                            assert(x1[k] == x);
                        } else {
                            assert(x1[x0.len() as int] == x);
                        }
                    }
                }
                assert(dispatched_info@.to_set() =~= s0.union(x1.to_set()));
            } else {
                assert(x1 =~= x0);
                assert(added.deep_view() == newly_added(s0, x1));
                assert(dispatched_info@.to_set() =~= s0.union(x1.to_set()));
            }
        }
        i += 1;
    }
    proof {
        assert(input.take(input.len() as int) =~= input);
    }
    added
}

/// Deregister a platform. Returns the identifier when it was registered;
/// deregistering an absent platform changes nothing and reports nothing.
pub fn delete_dispatched_platform(
    dispatched_info: &mut DispatchedInfo,
    platform_id: &str,
) -> (res: Option<PlatformDeleteRes>)
    requires
        old(dispatched_info).inv(),
    ensures
        final(dispatched_info).inv(),
        res is Some <==> old(dispatched_info)@.contains(platform_id@),
        res matches Some(r) ==> r.platform_id@ == platform_id@,
        final(dispatched_info)@.to_set() =~= old(dispatched_info)@.to_set().remove(platform_id@),
        res is None ==> final(dispatched_info)@ == old(dispatched_info)@,
{
    match dispatched_info.delete_platform_id(platform_id) {
        Some(id) => Some(PlatformDeleteRes { platform_id: id }),
        None => None,
    }
}

/// Absorb a bulk refresh of the platform cache: an empty fetch leaves the
/// cached records serving as they are and reports no refresh; a non-empty
/// fetch replaces the cache wholesale (last record winning per platform).
pub fn apply_platforms_refresh(
    platform_info: &mut PlatformInfo,
    fetched: Vec<PlatformRes>,
) -> (refreshed: bool)
    requires
        old(platform_info).inv(),
    ensures
        final(platform_info).inv(),
        refreshed == (fetched@.len() > 0),
        fetched@.len() == 0 ==> final(platform_info)@ == old(platform_info)@,
        fetched@.len() > 0 ==> forall|id: Seq<char>|
            final(platform_info).has_platform(id) <==> spec_seq_has(
                crate::platform_info::platforms_views(fetched@),
                id,
            ),
        fetched@.len() > 0 ==> forall|i: int|
            (0 <= i < fetched@.len() && (forall|j: int|
                i < j < fetched@.len() ==> (#[trigger] fetched@[j])@.id != fetched@[i]@.id))
                ==> final(platform_info).spec_get(fetched@[i]@.id) == fetched@[i]@,
{
    if fetched.len() == 0 {
        false
    } else {
        platform_info.set_platforms(fetched);
        true
    }
}

/// Absorb the result of a single-platform fetch: a record brings the cache
/// up to date and is returned; no record changes nothing.
pub fn absorb_platform(
    platform_info: &mut PlatformInfo,
    fetched: Option<PlatformRes>,
) -> (res: Option<PlatformRes>)
    requires
        old(platform_info).inv(),
    ensures
        final(platform_info).inv(),
        res is Some <==> fetched is Some,
        fetched matches Some(p) ==> {
            &&& res matches Some(r) && r@ == p@
            &&& final(platform_info).has_platform(p@.id)
            &&& final(platform_info).spec_get(p@.id) == p@
            &&& forall|id: Seq<char>|
                id != p@.id ==> (final(platform_info).has_platform(id) <==> old(
                    platform_info,
                ).has_platform(id))
        },
        fetched is None ==> final(platform_info)@ == old(platform_info)@,
{
    match fetched {
        Some(platform_res) => {
            platform_info.update_platform(&platform_res);
            Some(platform_res)
        },
        None => None,
    }
}

/// Join the cached platform name into a positions response: the response
/// itself is returned unchanged but for the name, which is the cached
/// record's name when the platform is cached and absent otherwise.
pub fn merge_platform_name(
    platform_info: &PlatformInfo,
    pos_res: PositionsResponse,
) -> (res: PositionsResponse)
    requires
        platform_info.inv(),
    ensures
        res@.platform_id == pos_res@.platform_id,
        res@.positions == pos_res@.positions,
        platform_info.has_platform(pos_res@.platform_id) ==> res@.platform_name
            == Option::Some(platform_info.spec_get(pos_res@.platform_id).name),
        !platform_info.has_platform(pos_res@.platform_id) ==> res@.platform_name is None,
{
    let platform_name = match platform_info.get_platform(pos_res.platform_id.as_str()) {
        Some(p) => Some(p.name),
        None => None,
    };
    PositionsResponse {
        platform_id: pos_res.platform_id,
        platform_name,
        positions: pos_res.positions,
    }
}

} // verus!
