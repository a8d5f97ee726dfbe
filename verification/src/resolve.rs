//! The whole resolution, from records to survivors.
//!
//! Records that carry a stable identifier are resolved by it first. The
//! survivors of that pass are known to be different tracks, and seed the title
//! map as they are. The records without an identifier are then resolved against
//! the title map one by one, in the order in which they were found.

use vstd::prelude::*;

use crate::heuristic::TitleMap;
use crate::heuristic::duplicates;
use crate::heuristic::records_of;
use crate::heuristic::reports_of;
use crate::heuristic::reports_on_all;
use crate::heuristic::resolved_with_all;
use crate::identity::IdMap;
use crate::identity::identified;
use crate::identity::lists;
use crate::identity::unidentified;
use crate::identity::update_media_info;
use crate::record::MediaFileInfo;
use crate::record::MediaRecord;
use crate::report::Resolution;
use crate::report::ResolutionValues;

verus! {

/// `survivors` is what the resolution of `records` leaves: the survivors of the
/// resolution by identifier, in some order, and after them what the resolution
/// by title adds of the records without an identifier.
pub open spec fn is_resolution_of(survivors: Seq<MediaRecord>, records: Seq<MediaRecord>) -> bool {
    exists|order: Seq<MediaRecord>|
        lists(order, identified(records)) && survivors == #[trigger] resolved_with_all(
            order,
            unidentified(records),
        )
}

/// Of two records with the same stable identifier the resolution leaves one: the
/// one with the higher bitrate; of two of the same bitrate the one that lasts
/// longer; of two of the same bitrate and duration the first.
pub proof fn lemma_resolution_of_same_id(
    first: MediaRecord,
    second: MediaRecord,
    id: u64,
    survivors: Seq<MediaRecord>,
)
    requires
        first.stable_id == Some(id),
        second.stable_id == Some(id),
        is_resolution_of(survivors, seq![first, second]),
    ensures
        survivors == seq![crate::record::keep_best(first, second)],
{
    let pair = seq![first, second];
    let map = identified(pair);
    crate::identity::lemma_same_id_is_merged(first, second, id);
    assert(pair.drop_last() =~= seq![first]);
    assert(seq![first].drop_last() =~= Seq::<MediaRecord>::empty());
    assert(unidentified(Seq::<MediaRecord>::empty()) == Seq::<MediaRecord>::empty());
    assert(unidentified(seq![first]) == Seq::<MediaRecord>::empty());
    let order = choose|order: Seq<MediaRecord>|
        lists(order, map) && survivors == #[trigger] resolved_with_all(order, unidentified(pair));
    crate::identity::lemma_listing(order, map);
}

/// Where no record carries a stable identifier, the resolution is the
/// resolution by title of the records in their order, starting from nothing.
pub proof fn lemma_resolution_without_ids(records: Seq<MediaRecord>, survivors: Seq<MediaRecord>)
    requires
        forall|i: int| 0 <= i < records.len() ==> (#[trigger] records[i]).stable_id is None,
        is_resolution_of(survivors, records),
    ensures
        survivors == resolved_with_all(Seq::empty(), records),
{
    lemma_nothing_identified(records);
    let order = choose|order: Seq<MediaRecord>|
        lists(order, identified(records)) && survivors == #[trigger] resolved_with_all(
            order,
            unidentified(records),
        );
    crate::identity::lemma_listing(order, identified(records));
    assert(order =~= Seq::<MediaRecord>::empty());
}

/// Records without an identifier leave the identifier map empty and are all put
/// aside, in their order.
pub proof fn lemma_nothing_identified(records: Seq<MediaRecord>)
    requires
        forall|i: int| 0 <= i < records.len() ==> (#[trigger] records[i]).stable_id is None,
    ensures
        identified(records) == Map::<u64, MediaRecord>::empty(),
        unidentified(records) == records,
    decreases records.len(),
{
    if records.len() > 0 {
        let front = records.drop_last();
        lemma_nothing_identified(front);
    }
}

/// The identifier map of two records of which one carries an identifier holds
/// that record, and the other record is put aside.
proof fn lemma_one_identified(first: MediaRecord, second: MediaRecord, id: u64)
    requires
        (first.stable_id == Some(id) && second.stable_id is None) || (first.stable_id is None
            && second.stable_id == Some(id)),
    ensures
        identified(seq![first, second]) == Map::<u64, MediaRecord>::empty().insert(
            id,
            if first.stable_id is Some {
                first
            } else {
                second
            },
        ),
        unidentified(seq![first, second]) == seq![
            if first.stable_id is Some {
                second
            } else {
                first
            },
        ],
{
    let pair = seq![first, second];
    let none = Seq::<MediaRecord>::empty();
    assert(pair.drop_last() =~= seq![first]);
    assert(seq![first].drop_last() =~= none);
    assert(identified(none) == Map::<u64, MediaRecord>::empty());
    assert(unidentified(none) == none);
    if first.stable_id is Some {
        assert(identified(seq![first]) == Map::<u64, MediaRecord>::empty().insert(id, first));
        assert(unidentified(seq![first]) == none);
    } else {
        assert(identified(seq![first]) == Map::<u64, MediaRecord>::empty());
        assert(unidentified(seq![first]) =~= seq![first]);
    }
}

/// Two records that do not both carry a stable identifier are merged exactly if
/// one duplicates the other: if they have the same title and name the same
/// album, or have the same title, do not both name an album, and lie less than
/// the tolerance apart in duration. Merged, one of the two is left, and the
/// other is not better than it. Not merged, both are left.
pub proof fn lemma_resolution_of_pair(
    first: MediaRecord,
    second: MediaRecord,
    survivors: Seq<MediaRecord>,
)
    requires
        first.stable_id is None || second.stable_id is None,
        is_resolution_of(survivors, seq![first, second]),
    ensures
        duplicates(first, second) == duplicates(second, first),
        duplicates(first, second) ==> survivors.len() == 1 && (survivors[0] == first
            || survivors[0] == second) && !crate::record::better(first, survivors[0])
            && !crate::record::better(second, survivors[0]),
        !duplicates(first, second) ==> survivors.len() == 2 && survivors.contains(first)
            && survivors.contains(second),
{
    let pair = seq![first, second];
    let none = Seq::<MediaRecord>::empty();
    if first.stable_id is None && second.stable_id is None {
        assert forall|i: int| 0 <= i < pair.len() implies (#[trigger] pair[i]).stable_id
            is None by {}
        lemma_resolution_without_ids(pair, survivors);
        crate::heuristic::lemma_pair_resolution(first, second);
        if !duplicates(first, second) {
            assert(survivors[0] == first);
            assert(survivors[1] == second);
        }
    } else {
        let id = if first.stable_id is Some {
            first.stable_id->0
        } else {
            second.stable_id->0
        };
        let held = if first.stable_id is Some {
            first
        } else {
            second
        };
        let offered = if first.stable_id is Some {
            second
        } else {
            first
        };
        lemma_one_identified(first, second, id);
        crate::identity::lemma_identified_is_keyed(pair);
        let map = identified(pair);
        let order = choose|order: Seq<MediaRecord>|
            lists(order, map) && survivors == #[trigger] resolved_with_all(
                order,
                unidentified(pair),
            );
        crate::identity::lemma_listing(order, map);
        assert(map.dom() =~= set![id]);
        assert(order =~= seq![held]);
        assert(seq![offered].drop_last() =~= none);
        assert(seq![offered].last() == offered);
        assert(resolved_with_all(order, none) == order);
        assert(survivors == crate::heuristic::resolved_with(order, offered));
        assert(order.drop_last() =~= none);
        assert(crate::heuristic::last_match(none, offered) == -1);
        if duplicates(held, offered) {
            assert(crate::heuristic::last_match(order, offered) == 0);
            if crate::record::better(offered, held) {
                assert(order.remove(0).push(offered) =~= seq![offered]);
            }
        } else {
            assert(crate::heuristic::last_match(order, offered) == -1);
            assert(order.push(offered) =~= seq![held, offered]);
            assert(survivors[0] == held);
            assert(survivors[1] == offered);
        }
    }
}

/// Resolves the records `deferred` by title against the title map that
/// `survivors` seed. Gives the title map, and what is to be reported of each
/// record of `deferred`, in their order.
pub fn resolve_in_order(survivors: &Vec<MediaFileInfo>, deferred: &Vec<MediaFileInfo>) -> (resolved:
    (TitleMap, Vec<Resolution>))
    ensures
        resolved.0@ == resolved_with_all(records_of(survivors@), records_of(deferred@)),
        reports_of(resolved.1@) == reports_on_all(records_of(survivors@), records_of(deferred@)),
{
    let mut map = TitleMap::new();
    let mut s: usize = 0;
    while s < survivors.len()
        invariant
            s <= survivors.len(),
            map@ == records_of(survivors@).subrange(0, s as int),
        decreases survivors.len() - s,
    {
        map.add_media_info(&survivors[s]);
        s += 1;
    }
    let ghost seed = records_of(survivors@);
    let ghost offered = records_of(deferred@);
    let mut reports: Vec<Resolution> = Vec::new();
    let mut i: usize = 0;
    while i < deferred.len()
        invariant
            i <= deferred.len(),
            seed == records_of(survivors@),
            offered == records_of(deferred@),
            map@ == resolved_with_all(seed, offered.subrange(0, i as int)),
            reports_of(reports@) == reports_on_all(seed, offered.subrange(0, i as int)),
        decreases deferred.len() - i,
    {
        let ghost longer = offered.subrange(0, i + 1);
        assert(longer.drop_last() =~= offered.subrange(0, i as int));
        let report = map.replace_media_info(&deferred[i]);
        reports.push(report);
        i += 1;
    }
    assert(offered.subrange(0, i as int) =~= offered);
    (map, reports)
}

/// Resolves the records without an identifier by title against the survivors of
/// the resolution by identifier. The survivors seed the title map in the order
/// in which the identifier map hands them out, which no contract fixes: the
/// result is what [`resolve_in_order`] gives for one listing of them.
pub fn resolve_titles(id_map: &IdMap, without_id_list: &Vec<MediaFileInfo>) -> (resolved: (
    TitleMap,
    Vec<Resolution>,
))
    ensures
        exists|order: Seq<MediaRecord>|
            lists(order, id_map@) && resolved.0@ == #[trigger] resolved_with_all(
                order,
                records_of(without_id_list@),
            ) && reports_of(resolved.1@) == reports_on_all(order, records_of(without_id_list@)),
{
    let survivors = id_map.survivors();
    resolve_in_order(&survivors, without_id_list)
}

/// Resolves a collection of records: by identifier those that carry one, by
/// title the others against the survivors of the first pass. Gives the title
/// map, which holds the survivors.
pub fn resolve(records: Vec<MediaFileInfo>) -> (survivors: TitleMap)
    ensures
        is_resolution_of(survivors@, records_of(records@)),
{
    let ghost all = records_of(records@);
    let mut id_map = IdMap::new();
    let mut without_id_list: Vec<MediaFileInfo> = Vec::new();
    for file_info in it: records
        invariant
            records_of(it.seq()) == all,
            id_map@ == identified(all.subrange(0, it.index() as int)),
            records_of(without_id_list@) == unidentified(all.subrange(0, it.index() as int)),
    {
        let ghost longer = all.subrange(0, it.index() + 1);
        assert(longer.drop_last() =~= all.subrange(0, it.index() as int));
        let _ = update_media_info(&mut id_map, &mut without_id_list, file_info);
    }
    assert(all.subrange(0, all.len() as int) =~= all);
    let (survivors, _) = resolve_titles(&id_map, &without_id_list);
    survivors
}

} // verus!
