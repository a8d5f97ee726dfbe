//! Resolution of records that carry a stable identifier.
//!
//! Two records with the same identifier are the same track, whatever else
//! their tags say. The identifier map holds, for each identifier seen, the best
//! record seen with it; of records of the same quality it holds the one seen
//! first.

use std::collections::HashMap;
use vstd::prelude::*;
use vstd::std_specs::hash::*;
use vstd::std_specs::iter::IteratorSpec;

use crate::heuristic::records_of;
use crate::record::MediaFileInfo;
use crate::record::MediaRecord;
use crate::record::better;
use crate::record::keep_best;
use crate::report::Resolution;
use crate::report::ResolutionValues;
use crate::report::Verdict;

verus! {

broadcast use vstd::std_specs::hash::group_hash_axioms;

/// Every record of the map stands under its own identifier.
pub open spec fn keyed_by_id(map: Map<u64, MediaRecord>) -> bool {
    forall|id: u64| map.contains_key(id) ==> (#[trigger] map[id]).stable_id == Some(id)
}

/// The identifier map once `offered` has been resolved against it. A record
/// with an identifier that the map does not hold is taken in. One whose
/// identifier the map holds takes the place of the record held if it is better.
/// A record without an identifier leaves the map as it is.
pub open spec fn identified_with(map: Map<u64, MediaRecord>, offered: MediaRecord) -> Map<
    u64,
    MediaRecord,
> {
    match offered.stable_id {
        Some(id) => if map.contains_key(id) {
            map.insert(id, keep_best(map[id], offered))
        } else {
            map.insert(id, offered)
        },
        None => map,
    }
}

/// The verdict on `offered` when it is resolved against the identifier map.
pub open spec fn id_verdict(map: Map<u64, MediaRecord>, offered: MediaRecord) -> Verdict {
    match offered.stable_id {
        Some(id) => if !map.contains_key(id) {
            Verdict::Added
        } else if better(offered, map[id]) {
            Verdict::Replaced
        } else {
            Verdict::Discarded
        },
        None => Verdict::Deferred,
    }
}

/// The path of the record that `offered` is held against.
pub open spec fn id_held_against(map: Map<u64, MediaRecord>, offered: MediaRecord) -> Option<
    Seq<char>,
> {
    match offered.stable_id {
        Some(id) => if map.contains_key(id) {
            Some(map[id].source_path)
        } else {
            None
        },
        None => None,
    }
}

/// What is reported of `offered` when it is resolved against the identifier map.
pub open spec fn id_report(map: Map<u64, MediaRecord>, offered: MediaRecord) -> ResolutionValues {
    ResolutionValues {
        verdict: id_verdict(map, offered),
        held_path: id_held_against(map, offered),
    }
}

/// The identifier map once each of `records` has been resolved in turn,
/// starting from an empty map.
pub open spec fn identified(records: Seq<MediaRecord>) -> Map<u64, MediaRecord>
    decreases records.len(),
{
    if records.len() == 0 {
        Map::empty()
    } else {
        identified_with(identified(records.drop_last()), records.last())
    }
}

/// Those of `records` that carry no identifier, in their order.
pub open spec fn unidentified(records: Seq<MediaRecord>) -> Seq<MediaRecord>
    decreases records.len(),
{
    if records.len() == 0 {
        Seq::empty()
    } else if records.last().stable_id is None {
        unidentified(records.drop_last()).push(records.last())
    } else {
        unidentified(records.drop_last())
    }
}

/// `ids` names each identifier of `map` once.
pub open spec fn enumerates(ids: Seq<u64>, map: Map<u64, MediaRecord>) -> bool {
    ids.no_duplicates() && ids.to_set() == map.dom()
}

/// `order` lists the records of `map`, each of them once, in the order in which
/// `ids` names their identifiers.
pub open spec fn lists_by(order: Seq<MediaRecord>, ids: Seq<u64>, map: Map<u64, MediaRecord>) -> bool {
    &&& enumerates(ids, map)
    &&& order.len() == ids.len()
    &&& forall|i: int| 0 <= i < order.len() ==> #[trigger] order[i] == map[ids[i]]
}

/// `order` lists the records of `map`, each of them once, in whatever order.
pub open spec fn lists(order: Seq<MediaRecord>, map: Map<u64, MediaRecord>) -> bool {
    exists|ids: Seq<u64>| lists_by(order, ids, map)
}

/// The position in `records` of the record that survives under `id`, or -1
/// where no record carries `id`: a record takes over from the survivor so far
/// only if it is better.
pub open spec fn survivor_index(records: Seq<MediaRecord>, id: u64) -> int
    decreases records.len(),
{
    if records.len() == 0 {
        -1
    } else {
        let so_far = survivor_index(records.drop_last(), id);
        if records.last().stable_id == Some(id) && (so_far < 0 || better(
            records.last(),
            records[so_far],
        )) {
            records.len() - 1
        } else {
            so_far
        }
    }
}

/// Resolving a record keeps every record of the map under its own identifier.
pub proof fn lemma_identified_with_is_keyed(map: Map<u64, MediaRecord>, offered: MediaRecord)
    requires
        keyed_by_id(map),
    ensures
        keyed_by_id(identified_with(map, offered)),
{
    let after = identified_with(map, offered);
    assert forall|id: u64| after.contains_key(id) implies (#[trigger] after[id]).stable_id == Some(
        id,
    ) by {
        if map.contains_key(id) {
            assert(map[id].stable_id == Some(id));
        }
    }
}

/// Every record of the identifier map stands under its own identifier, and the
/// map holds a finite number of them.
pub proof fn lemma_identified_is_keyed(records: Seq<MediaRecord>)
    ensures
        keyed_by_id(identified(records)),
        identified(records).dom().finite(),
    decreases records.len(),
{
    if records.len() > 0 {
        lemma_identified_is_keyed(records.drop_last());
    }
}

/// The survivor under an identifier is a record that carries it, is better than
/// every record with that identifier seen before it, and no record with that
/// identifier seen after it is better: it has the highest bitrate, among those
/// the longest duration, and among those it was seen first.
pub proof fn lemma_survivor_index(records: Seq<MediaRecord>, id: u64)
    ensures
        -1 <= survivor_index(records, id) < records.len(),
        survivor_index(records, id) >= 0 ==> records[survivor_index(records, id)].stable_id
            == Some(id),
        survivor_index(records, id) < 0 ==> forall|i: int|
            0 <= i < records.len() ==> (#[trigger] records[i]).stable_id != Some(id),
        forall|i: int|
            0 <= i < survivor_index(records, id) && (#[trigger] records[i]).stable_id == Some(id)
                ==> better(records[survivor_index(records, id)], records[i]),
        forall|i: int|
            survivor_index(records, id) < i < records.len() && (#[trigger] records[i]).stable_id
                == Some(id) ==> !better(records[i], records[survivor_index(records, id)]),
    decreases records.len(),
{
    if records.len() > 0 {
        let front = records.drop_last();
        let so_far = survivor_index(front, id);
        let at = survivor_index(records, id);
        lemma_survivor_index(front, id);
        assert forall|i: int| 0 <= i < front.len() implies front[i] == records[i] by {}
        if at < 0 {
            assert forall|i: int| 0 <= i < records.len() implies (#[trigger] records[i]).stable_id
                != Some(id) by {
                if i < front.len() {
                    assert(front[i].stable_id != Some(id));
                }
            }
        }
        assert forall|i: int| 0 <= i < at && (#[trigger] records[i]).stable_id == Some(
            id,
        ) implies better(records[at], records[i]) by {
            assert(front[i].stable_id == Some(id));
            if at == records.len() - 1 && so_far >= 0 && i != so_far {
                if i < so_far {
                    crate::record::lemma_better_is_transitive(
                        records[at],
                        records[so_far],
                        records[i],
                    );
                }
            }
        }
        assert forall|i: int|
            at < i < records.len() && (#[trigger] records[i]).stable_id == Some(
                id,
            ) implies !better(records[i], records[at]) by {
            if i < front.len() {
                assert(front[i].stable_id == Some(id));
            }
        }
    }
}

/// The identifier map holds, under each identifier that some record carries, the
/// survivor among the records that carry it, and holds nothing else.
pub proof fn lemma_identified_holds_survivors(records: Seq<MediaRecord>, id: u64)
    ensures
        identified(records).contains_key(id) <==> survivor_index(records, id) >= 0,
        survivor_index(records, id) >= 0 ==> identified(records)[id] == records[survivor_index(
            records,
            id,
        )],
    decreases records.len(),
{
    if records.len() > 0 {
        let front = records.drop_last();
        lemma_identified_holds_survivors(front, id);
        lemma_survivor_index(front, id);
        let so_far = survivor_index(front, id);
        if so_far >= 0 {
            assert(front[so_far] == records[so_far]);
        }
    }
}

/// Of two records with the same identifier the better one survives, and the
/// first one where neither is better.
pub proof fn lemma_same_id_is_merged(first: MediaRecord, second: MediaRecord, id: u64)
    requires
        first.stable_id == Some(id),
        second.stable_id == Some(id),
    ensures
        identified(seq![first, second]) == Map::<u64, MediaRecord>::empty().insert(
            id,
            keep_best(first, second),
        ),
{
    let pair = seq![first, second];
    let none = Map::<u64, MediaRecord>::empty();
    assert(pair.drop_last() =~= seq![first]);
    assert(identified(seq![first].drop_last()) == none);
    assert(identified(seq![first]) == none.insert(id, first));
}

/// A listing of a map whose records stand under their own identifiers names
/// every record of the map, each under its identifier, and no identifier twice;
/// it is as long as the map is large.
pub proof fn lemma_listing(order: Seq<MediaRecord>, map: Map<u64, MediaRecord>)
    requires
        keyed_by_id(map),
        lists(order, map),
    ensures
        order.len() == map.dom().len(),
        forall|i: int|
            0 <= i < order.len() ==> (#[trigger] order[i]).stable_id is Some && map.contains_key(
                order[i].stable_id->0,
            ) && map[order[i].stable_id->0] == order[i],
        forall|i: int, j: int|
            0 <= i < j < order.len() ==> (#[trigger] order[i]).stable_id != (
            #[trigger] order[j]).stable_id,
        forall|id: u64|
            map.contains_key(id) ==> exists|i: int|
                0 <= i < order.len() && #[trigger] order[i] == map[id],
{
    let ids = choose|ids: Seq<u64>| lists_by(order, ids, map);
    ids.unique_seq_to_set();
    assert forall|id: u64| map.contains_key(id) implies exists|i: int|
        0 <= i < order.len() && #[trigger] order[i] == map[id] by {
        let i = choose|i: int| 0 <= i < ids.len() && ids[i] == id;
        assert(order[i] == map[id]);
    }
}

/// The best record seen so far under each stable identifier.
pub struct IdMap {
    survivors: HashMap<u64, MediaFileInfo>,
}

impl View for IdMap {
    type V = Map<u64, MediaRecord>;

    closed spec fn view(&self) -> Map<u64, MediaRecord> {
        self.survivors@.map_values(|r: MediaFileInfo| r@)
    }
}

impl IdMap {
    /// An identifier map that holds nothing.
    pub fn new() -> (map: IdMap)
        ensures
            map@ == Map::<u64, MediaRecord>::empty(),
    {
        let map = IdMap { survivors: HashMap::new() };
        map
    }

    /// How many identifiers the map holds.
    pub fn len(&self) -> (len: usize)
        ensures
            len == self@.dom().len(),
    {
        proof {
            assert(self@.dom() =~= self.survivors@.dom());
        }
        self.survivors.len()
    }

    /// The record held under `id`.
    pub fn get(&self, id: u64) -> (held: Option<&MediaFileInfo>)
        ensures
            held is Some <==> self@.contains_key(id),
            held matches Some(r) ==> r@ == self@[id],
    {
        self.survivors.get(&id)
    }

    /// The records held, each of them once. The order is that in which the hash
    /// map hands out its keys, which no contract fixes.
    pub fn survivors(&self) -> (order: Vec<MediaFileInfo>)
        ensures
            lists(records_of(order@), self@),
    {
        let mut order: Vec<MediaFileInfo> = Vec::new();
        let ghost all = spec_keys_iter(&self.survivors).remaining().unref();
        proof {
            assert(self@.dom() =~= self.survivors@.dom());
        }
        for id in it: self.survivors.keys()
            invariant
                it.seq().unref() == all,
                all.no_duplicates(),
                all.to_set() == self@.dom(),
                order.len() == it.index(),
                forall|i: int| 0 <= i < order.len() ==> (#[trigger] order@[i])@ == self@[all[i]],
        {
            assert(all.to_set().contains(*id)) by {
                assert(all[it.index() as int] == *id);
            }
            match self.survivors.get(id) {
                Some(held) => {
                    order.push(held.clone());
                },
                None => {
                    assert(false);
                },
            }
        }
        proof {
            assert(lists_by(records_of(order@), all, self@));
        }
        order
    }
}

/// Resolves one record by its identifier. A record without one is put at the end
/// of `without_id_list` for the resolution by title. A record whose identifier
/// the map does not hold is taken in; one whose identifier it holds takes the
/// place of the record held if it is better, and is dropped if it is not. The
/// resolution says which, and names the record it was held against.
pub fn update_media_info(
    id_map: &mut IdMap,
    without_id_list: &mut Vec<MediaFileInfo>,
    file_info: MediaFileInfo,
) -> (resolution: Resolution)
    ensures
        final(id_map)@ == identified_with(old(id_map)@, file_info@),
        records_of(final(without_id_list)@) == (if file_info@.stable_id is None {
            records_of(old(without_id_list)@).push(file_info@)
        } else {
            records_of(old(without_id_list)@)
        }),
        resolution@ == id_report(old(id_map)@, file_info@),
{
    match file_info.music_id() {
        None => {
            without_id_list.push(file_info);
            Resolution { verdict: Verdict::Deferred, held_path: None }
        },
        Some(id) => {
            let held = match id_map.survivors.get(&id) {
                Some(held) => Some((held.file_path().to_owned(), file_info.better_than(held))),
                None => None,
            };
            match held {
                None => {
                    id_map.survivors.insert(id, file_info);
                    Resolution { verdict: Verdict::Added, held_path: None }
                },
                Some((held_path, is_better)) => {
                    if is_better {
                        id_map.survivors.insert(id, file_info);
                        Resolution { verdict: Verdict::Replaced, held_path: Some(held_path) }
                    } else {
                        Resolution { verdict: Verdict::Discarded, held_path: Some(held_path) }
                    }
                },
            }
        },
    }
}

} // verus!
