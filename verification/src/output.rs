//! Collision-free naming of the copies to make.
//!
//! Every survivor is written to the output directory under the canonical name
//! of its source. Where the directory already holds that name, counts 1, 2, 3
//! and so on are tried until a name is free, and the first free name is taken.
//! Nothing that the directory holds is ever written over.
//!
//! Looking into the directory and copying files is the caller's work. The
//! caller says which names the directory holds, gets the plan of copies, and
//! carries it out.

use vstd::prelude::*;
use vstd::string::*;

use crate::extract::texts_of;
use crate::filename::candidate;
use crate::filename::file_name_of;
use crate::filename::get_file_name_without_count;
use crate::filename::lemma_candidate_is_injective;
use crate::filename::lemma_without_count_is_bare;
use crate::filename::set_file_name_count;
use crate::filename::without_count;
use crate::heuristic::records_of;
use crate::record::MediaFileInfo;
use crate::record::MediaRecord;

verus! {

/// `count` is the first count under which `canonical` is free: the name with
/// that count is not among `occupied`, and with every smaller count it is.
/// The count 0 stands for the name as it is.
pub open spec fn is_first_free(occupied: Seq<Seq<char>>, canonical: Seq<char>, count: nat) -> bool {
    &&& !occupied.contains(candidate(canonical, count))
    &&& forall|k: nat| k < count ==> occupied.contains(#[trigger] candidate(canonical, k))
}

/// The first count under which `canonical` is free.
pub open spec fn first_free(occupied: Seq<Seq<char>>, canonical: Seq<char>) -> nat {
    choose|count: nat| is_first_free(occupied, canonical, count)
}

/// The name under which the file at `file_path` is written where `occupied`
/// are the names that are taken.
pub open spec fn destination(occupied: Seq<Seq<char>>, file_path: Seq<char>) -> Seq<char> {
    candidate(without_count(file_path), first_free(occupied, without_count(file_path)))
}

/// The mathematical value of a planned copy.
pub struct CopyValues {
    /// The path of the file to copy.
    pub source: Seq<char>,
    /// The name of the copy in the output directory.
    pub file_name: Seq<char>,
    /// The count that the name carries; 0 where it carries none.
    pub count: nat,
}

/// The names that are taken once the files at `sources` have been written in
/// turn. Where nothing is written (`reserve` is false) these are the names that
/// were taken before.
pub open spec fn taken_after(sources: Seq<Seq<char>>, occupied: Seq<Seq<char>>, reserve: bool) -> Seq<
    Seq<char>,
>
    decreases sources.len(),
{
    if sources.len() == 0 || !reserve {
        occupied
    } else {
        let before = taken_after(sources.drop_last(), occupied, reserve);
        before.push(destination(before, sources.last()))
    }
}

/// The copies to make of the files at `sources`, in turn.
pub open spec fn planned(sources: Seq<Seq<char>>, occupied: Seq<Seq<char>>, reserve: bool) -> Seq<
    CopyValues,
>
    decreases sources.len(),
{
    if sources.len() == 0 {
        Seq::empty()
    } else {
        let before = taken_after(sources.drop_last(), occupied, reserve);
        planned(sources.drop_last(), occupied, reserve).push(
            CopyValues {
                source: sources.last(),
                file_name: destination(before, sources.last()),
                count: first_free(before, without_count(sources.last())),
            },
        )
    }
}

/// The paths of a list of records.
pub open spec fn paths_of(records: Seq<MediaRecord>) -> Seq<Seq<char>> {
    records.map_values(|r: MediaRecord| r.source_path)
}

/// One copy to make.
pub struct PlannedCopy {
    /// The path of the file to copy.
    pub source: String,
    /// The name of the copy in the output directory.
    pub file_name: String,
    /// The count that the name carries; 0 where it carries none.
    pub count: u64,
}

impl View for PlannedCopy {
    type V = CopyValues;

    open spec fn view(&self) -> CopyValues {
        CopyValues { source: self.source@, file_name: self.file_name@, count: self.count as nat }
    }
}

/// The values of a plan.
pub open spec fn copies_of(plan: Seq<PlannedCopy>) -> Seq<CopyValues> {
    plan.map_values(|c: PlannedCopy| c@)
}

/// Distinct places below `bound` are at most `bound` many.
proof fn lemma_distinct_places(places: Seq<int>, bound: nat)
    requires
        places.no_duplicates(),
        forall|i: int| 0 <= i < places.len() ==> 0 <= #[trigger] places[i] < bound,
    ensures
        places.len() <= bound,
{
    places.unique_seq_to_set();
    vstd::set_lib::lemma_int_range(0, bound as int);
    vstd::set_lib::lemma_len_subset(
        places.to_set(),
        vstd::set_lib::set_int_range(0, bound as int),
    );
}

/// Only one count is the first free one.
pub proof fn lemma_first_free_is_unique(
    occupied: Seq<Seq<char>>,
    canonical: Seq<char>,
    count: nat,
)
    requires
        is_first_free(occupied, canonical, count),
    ensures
        first_free(occupied, canonical) == count,
{
    let other = first_free(occupied, canonical);
    assert(is_first_free(occupied, canonical, other));
    if other < count {
        assert(occupied.contains(candidate(canonical, other)));
    } else if count < other {
        assert(occupied.contains(candidate(canonical, count)));
    }
}

/// Below a count that is free there is a first free count.
proof fn lemma_least_free(occupied: Seq<Seq<char>>, canonical: Seq<char>, free: nat)
    requires
        !occupied.contains(candidate(canonical, free)),
    ensures
        exists|count: nat| count <= free && is_first_free(occupied, canonical, count),
    decreases free,
{
    if forall|k: nat| k < free ==> occupied.contains(#[trigger] candidate(canonical, k)) {
        assert(is_first_free(occupied, canonical, free));
    } else {
        let k = choose|k: nat| k < free && !occupied.contains(#[trigger] candidate(canonical, k));
        lemma_least_free(occupied, canonical, k);
    }
}

/// Under some count every file name is free: among the names with the counts
/// from 0 up to the number of names taken, one is not taken. So there is a
/// first free count, and it is no larger than the number of names taken.
pub proof fn lemma_first_free_exists(occupied: Seq<Seq<char>>, canonical: Seq<char>)
    requires
        file_name_of(canonical) == canonical,
    ensures
        is_first_free(occupied, canonical, first_free(occupied, canonical)),
        first_free(occupied, canonical) <= occupied.len(),
{
    let bound = occupied.len();
    if forall|k: nat| k <= bound ==> occupied.contains(#[trigger] candidate(canonical, k)) {
        let places = Seq::new(
            bound + 1,
            |k: int| choose|at: int| 0 <= at < occupied.len() && occupied[at] == candidate(canonical, k as nat),
        );
        assert forall|i: int, j: int|
            0 <= i < places.len() && 0 <= j < places.len() && i != j implies places[i]
            != places[j] by {
            if places[i] == places[j] {
                lemma_candidate_is_injective(canonical, i as nat, j as nat);
            }
        }
        lemma_distinct_places(places, bound);
    }
    let free = choose|k: nat| k <= bound && !occupied.contains(#[trigger] candidate(canonical, k));
    lemma_least_free(occupied, canonical, free);
    let count = choose|count: nat| count <= free && is_first_free(occupied, canonical, count);
}

/// The name chosen for a file is not among the names taken.
pub proof fn lemma_destination_is_free(occupied: Seq<Seq<char>>, file_path: Seq<char>)
    ensures
        !occupied.contains(destination(occupied, file_path)),
        file_name_of(destination(occupied, file_path)) == destination(occupied, file_path),
{
    lemma_without_count_is_bare(file_path);
    lemma_first_free_exists(occupied, without_count(file_path));
    let count = first_free(occupied, without_count(file_path));
    if count > 0 {
        crate::filename::lemma_with_count_parts(without_count(file_path), count);
    }
}

/// Where each name chosen is taken for the files that follow, the names taken
/// after a run are those taken before it and the names of the copies.
pub proof fn lemma_taken_after(sources: Seq<Seq<char>>, occupied: Seq<Seq<char>>)
    ensures
        planned(sources, occupied, true).len() == sources.len(),
        taken_after(sources, occupied, true) == occupied + planned(
            sources,
            occupied,
            true,
        ).map_values(|c: CopyValues| c.file_name),
    decreases sources.len(),
{
    let names = planned(sources, occupied, true).map_values(|c: CopyValues| c.file_name);
    if sources.len() == 0 {
        assert(occupied + names =~= occupied);
    } else {
        lemma_taken_after(sources.drop_last(), occupied);
        assert(taken_after(sources, occupied, true) =~= occupied + names);
    }
}

/// A plan has one copy for each source, in the order of the sources.
pub proof fn lemma_plan_follows_sources(
    sources: Seq<Seq<char>>,
    occupied: Seq<Seq<char>>,
    reserve: bool,
)
    ensures
        planned(sources, occupied, reserve).len() == sources.len(),
        forall|i: int|
            0 <= i < sources.len() ==> (#[trigger] planned(sources, occupied, reserve)[i]).source
                == sources[i],
    decreases sources.len(),
{
    if sources.len() > 0 {
        lemma_plan_follows_sources(sources.drop_last(), occupied, reserve);
    }
}

/// No copy is written over a file that the directory holds: no name of a plan is
/// among the names that were taken. And where each name chosen is taken for the
/// files that follow, no copy is written over another: the names of a plan are
/// all different.
pub proof fn lemma_plan_never_overwrites(
    sources: Seq<Seq<char>>,
    occupied: Seq<Seq<char>>,
    reserve: bool,
)
    ensures
        forall|i: int|
            0 <= i < sources.len() ==> !occupied.contains(
                (#[trigger] planned(sources, occupied, reserve)[i]).file_name,
            ),
        reserve ==> forall|i: int, j: int|
            0 <= i < j < sources.len() ==> (#[trigger] planned(
                sources,
                occupied,
                reserve,
            )[i]).file_name != (#[trigger] planned(sources, occupied, reserve)[j]).file_name,
    decreases sources.len(),
{
    if sources.len() > 0 {
        let front = sources.drop_last();
        let plan = planned(sources, occupied, reserve);
        let before = taken_after(front, occupied, reserve);
        lemma_plan_never_overwrites(front, occupied, reserve);
        lemma_plan_follows_sources(front, occupied, reserve);
        lemma_destination_is_free(before, sources.last());
        let last = plan[sources.len() - 1];
        assert forall|i: int| 0 <= i < front.len() implies plan[i] == planned(
            front,
            occupied,
            reserve,
        )[i] by {}
        if reserve {
            lemma_taken_after(front, occupied);
            let names = planned(front, occupied, true).map_values(|c: CopyValues| c.file_name);
            assert forall|i: int| 0 <= i < front.len() implies plan[i].file_name
                != last.file_name by {
                assert(before[occupied.len() + i] == names[i]);
            }
            assert(!occupied.contains(last.file_name)) by {
                if occupied.contains(last.file_name) {
                    let at = choose|at: int| 0 <= at < occupied.len() && occupied[at] == last.file_name;
                    assert(before[at] == last.file_name);
                }
            }
        }
    }
}

/// Files of one canonical name, written in turn into a directory that holds none
/// of the names tried, get the name as it is and then the counts 1, 2, 3 and so
/// on, in their order.
pub proof fn lemma_collisions_count_up(
    sources: Seq<Seq<char>>,
    occupied: Seq<Seq<char>>,
    canonical: Seq<char>,
)
    requires
        forall|i: int| 0 <= i < sources.len() ==> without_count(#[trigger] sources[i]) == canonical,
        forall|k: nat| k < sources.len() ==> !occupied.contains(#[trigger] candidate(canonical, k)),
    ensures
        forall|i: int|
            0 <= i < sources.len() ==> (#[trigger] planned(sources, occupied, true)[i]).file_name
                == candidate(canonical, i as nat) && planned(sources, occupied, true)[i].count
                == i,
    decreases sources.len(),
{
    lemma_plan_follows_sources(sources, occupied, true);
    if sources.len() > 0 {
        let front = sources.drop_last();
        let plan = planned(sources, occupied, true);
        let before = taken_after(front, occupied, true);
        let n = front.len();
        assert forall|i: int| 0 <= i < front.len() implies without_count(#[trigger] front[i])
            == canonical by {
            assert(front[i] == sources[i]);
        }
        lemma_collisions_count_up(front, occupied, canonical);
        lemma_plan_follows_sources(front, occupied, true);
        lemma_taken_after(front, occupied);
        lemma_without_count_is_bare(sources.last());
        let names = planned(front, occupied, true).map_values(|c: CopyValues| c.file_name);
        assert(!before.contains(candidate(canonical, n))) by {
            if before.contains(candidate(canonical, n)) {
                let at = choose|at: int| 0 <= at < before.len() && before[at] == candidate(canonical, n);
                if at < occupied.len() {
                    assert(occupied[at] == candidate(canonical, n));
                    assert(occupied.contains(candidate(canonical, n)));
                } else {
                    assert(before[at] == names[at - occupied.len()]);
                    lemma_candidate_is_injective(canonical, (at - occupied.len()) as nat, n);
                }
            }
        }
        assert forall|k: nat| k < n implies before.contains(#[trigger] candidate(canonical, k)) by {
            assert(before[occupied.len() + k as int] == names[k as int]);
        }
        lemma_first_free_is_unique(before, canonical, n);
        assert(plan[n as int].file_name == destination(before, sources.last()));
        assert forall|i: int| 0 <= i < front.len() implies plan[i] == planned(
            front,
            occupied,
            true,
        )[i] by {}
    }
}

/// Where `name` stands among `occupied`.
fn find_name(occupied: &Vec<String>, name: &String) -> (found: Option<usize>)
    ensures
        match found {
            Some(at) => at < occupied.len() && occupied@[at as int]@ == name@,
            None => !texts_of(occupied@).contains(name@),
        },
{
    let mut i: usize = 0;
    while i < occupied.len()
        invariant
            i <= occupied.len(),
            forall|j: int| 0 <= j < i ==> occupied@[j]@ != name@,
        decreases occupied.len() - i,
    {
        if occupied[i] == *name {
            return Some(i);
        }
        i += 1;
    }
    None
}

/// Chooses the name under which the file at `file_path` is written: its
/// canonical name where that is free, or else the canonical name with the first
/// count, from 1 up, under which it is free. Gives the name and the count, 0
/// for none.
pub fn choose_file_name(occupied: &Vec<String>, file_path: &str) -> (chosen: (String, u64))
    ensures
        is_first_free(texts_of(occupied@), without_count(file_path@), chosen.1 as nat),
        chosen.1 == first_free(texts_of(occupied@), without_count(file_path@)),
        chosen.0@ == destination(texts_of(occupied@), file_path@),
        chosen.1 <= occupied.len(),
{
    let canonical = get_file_name_without_count(file_path);
    let ghost taken = texts_of(occupied@);
    let mut name = canonical.clone();
    let mut count: u64 = 0;
    let ghost mut places: Seq<int> = Seq::empty();
    proof {
        lemma_without_count_is_bare(file_path@);
    }
    loop
        invariant
            taken == texts_of(occupied@),
            canonical@ == without_count(file_path@),
            file_name_of(canonical@) == canonical@,
            name@ == candidate(canonical@, count as nat),
            places.len() == count,
            count <= occupied.len(),
            forall|k: int|
                0 <= k < count ==> 0 <= #[trigger] places[k] < occupied.len() && taken[places[k]]
                    == candidate(canonical@, k as nat),
        decreases occupied.len() - count,
    {
        match find_name(occupied, &name) {
            None => {
                proof {
                    assert forall|k: nat| k < count implies taken.contains(
                        #[trigger] candidate(canonical@, k),
                    ) by {
                        assert(taken[places[k as int]] == candidate(canonical@, k));
                    }
                    lemma_first_free_is_unique(taken, canonical@, count as nat);
                }
                return (name, count);
            },
            Some(at) => {
                proof {
                    let longer = places.push(at as int);
                    assert forall|i: int, j: int|
                        0 <= i < longer.len() && 0 <= j < longer.len() && i != j implies longer[i]
                        != longer[j] by {
                        if longer[i] == longer[j] {
                            lemma_candidate_is_injective(canonical@, i as nat, j as nat);
                        }
                    }
                    lemma_distinct_places(longer, occupied.len() as nat);
                    places = longer;
                }
                count += 1;
                name = set_file_name_count(canonical.as_str(), count);
            },
        }
    }
}

/// Plans the copies of `records` into a directory that holds the names
/// `existing`. Each record gets the name that [`choose_file_name`] gives it.
/// Outside a dry run each name chosen is taken for the records that follow, as
/// the file will be there by then; in a dry run nothing is written, and the
/// names taken stay those of `existing`.
pub fn plan_output(records: &Vec<MediaFileInfo>, existing: &Vec<String>, dry_run: bool) -> (plan:
    Vec<PlannedCopy>)
    ensures
        copies_of(plan@) == planned(
            paths_of(records_of(records@)),
            texts_of(existing@),
            !dry_run,
        ),
{
    let ghost sources = paths_of(records_of(records@));
    let mut occupied: Vec<String> = Vec::new();
    let mut e: usize = 0;
    while e < existing.len()
        invariant
            e <= existing.len(),
            occupied.len() == e,
            texts_of(occupied@) == texts_of(existing@).subrange(0, e as int),
        decreases existing.len() - e,
    {
        occupied.push(existing[e].clone());
        e += 1;
    }
    let mut plan: Vec<PlannedCopy> = Vec::new();
    let mut i: usize = 0;
    while i < records.len()
        invariant
            i <= records.len(),
            sources == paths_of(records_of(records@)),
            texts_of(occupied@) == taken_after(
                sources.subrange(0, i as int),
                texts_of(existing@),
                !dry_run,
            ),
            copies_of(plan@) == planned(
                sources.subrange(0, i as int),
                texts_of(existing@),
                !dry_run,
            ),
        decreases records.len() - i,
    {
        let ghost longer = sources.subrange(0, i + 1);
        assert(longer.drop_last() =~= sources.subrange(0, i as int));
        let source = records[i].file_path();
        let (file_name, count) = choose_file_name(&occupied, source);
        if !dry_run {
            occupied.push(file_name.clone());
        }
        plan.push(PlannedCopy { source: source.to_owned(), file_name, count });
        i += 1;
    }
    assert(sources.subrange(0, i as int) =~= sources);
    plan
}

} // verus!
