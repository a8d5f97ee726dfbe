//! Resolution by title, album and duration.
//!
//! Records that carry no stable identifier are told apart by what their tags
//! say. Two records of one title are the same track when both name the same
//! album; when both name an album and the albums differ they are different
//! tracks, whatever else they share; and when at least one names no album they
//! are the same track only if their durations differ by less than
//! [`DURATION_TOLERANCE_MS`].
//!
//! The title map holds the records kept so far, in the order in which they were
//! taken in. The records of one title, in that order, are its bucket.

use vstd::prelude::*;

use crate::record::MediaFileInfo;
use crate::record::MediaRecord;
use crate::record::better;
use crate::report::Resolution;
use crate::report::ResolutionValues;
use crate::report::Verdict;

verus! {

/// The width of the band, in milliseconds, inside which two durations count as
/// one. A difference of exactly this much is outside the band.
pub const DURATION_TOLERANCE_MS: u128 = 1500;

/// How far two durations lie apart.
pub open spec fn duration_gap(a: u128, b: u128) -> int {
    if a >= b {
        a - b
    } else {
        b - a
    }
}

/// Two records of one title are the same track.
pub open spec fn same_track(held: MediaRecord, offered: MediaRecord) -> bool {
    if held.album is Some && offered.album is Some {
        held.album == offered.album
    } else {
        duration_gap(held.duration_ms, offered.duration_ms) < DURATION_TOLERANCE_MS
    }
}

/// `held` is a copy of the track that `offered` is a copy of: they have the same
/// title and are the same track.
pub open spec fn duplicates(held: MediaRecord, offered: MediaRecord) -> bool {
    held.track_name == offered.track_name && same_track(held, offered)
}

/// The position of the last record in `list` that `offered` duplicates, or -1
/// where there is none.
pub open spec fn last_match(list: Seq<MediaRecord>, offered: MediaRecord) -> int
    decreases list.len(),
{
    if list.len() == 0 {
        -1
    } else if duplicates(list.last(), offered) {
        list.len() - 1
    } else {
        last_match(list.drop_last(), offered)
    }
}

/// The records kept once `offered` has been resolved against `list`. Without a
/// match it is added at the end. With a match it takes the place of the last
/// record that it duplicates if it is better, at the end of the list, and is
/// dropped if it is not.
pub open spec fn resolved_with(list: Seq<MediaRecord>, offered: MediaRecord) -> Seq<MediaRecord> {
    let at = last_match(list, offered);
    if at < 0 {
        list.push(offered)
    } else if better(offered, list[at]) {
        list.remove(at).push(offered)
    } else {
        list
    }
}

/// The verdict on `offered` when it is resolved against `list`.
pub open spec fn verdict_on(list: Seq<MediaRecord>, offered: MediaRecord) -> Verdict {
    let at = last_match(list, offered);
    if at < 0 {
        Verdict::Added
    } else if better(offered, list[at]) {
        Verdict::Replaced
    } else {
        Verdict::Discarded
    }
}

/// The path of the record that `offered` is held against.
pub open spec fn held_against(list: Seq<MediaRecord>, offered: MediaRecord) -> Option<Seq<char>> {
    let at = last_match(list, offered);
    if at < 0 {
        None
    } else {
        Some(list[at].source_path)
    }
}

/// What is reported of `offered` when it is resolved against `list`.
pub open spec fn report_on(list: Seq<MediaRecord>, offered: MediaRecord) -> ResolutionValues {
    ResolutionValues { verdict: verdict_on(list, offered), held_path: held_against(list, offered) }
}

/// What is reported of each of `offered` when they are resolved in turn.
pub open spec fn reports_on_all(list: Seq<MediaRecord>, offered: Seq<MediaRecord>) -> Seq<
    ResolutionValues,
>
    decreases offered.len(),
{
    if offered.len() == 0 {
        Seq::empty()
    } else {
        reports_on_all(list, offered.drop_last()).push(
            report_on(resolved_with_all(list, offered.drop_last()), offered.last()),
        )
    }
}

/// The values of a list of resolutions.
pub open spec fn reports_of(reports: Seq<Resolution>) -> Seq<ResolutionValues> {
    reports.map_values(|r: Resolution| r@)
}

/// The records of `list` with the title `title`, in their order: the bucket of
/// that title.
pub open spec fn bucket_of(list: Seq<MediaRecord>, title: Seq<char>) -> Seq<MediaRecord>
    decreases list.len(),
{
    if list.len() == 0 {
        Seq::empty()
    } else if list.last().track_name == title {
        bucket_of(list.drop_last(), title).push(list.last())
    } else {
        bucket_of(list.drop_last(), title)
    }
}

/// The records kept once each of `offered` has been resolved in turn.
pub open spec fn resolved_with_all(list: Seq<MediaRecord>, offered: Seq<MediaRecord>) -> Seq<
    MediaRecord,
>
    decreases offered.len(),
{
    if offered.len() == 0 {
        list
    } else {
        resolved_with(resolved_with_all(list, offered.drop_last()), offered.last())
    }
}

/// The values of a list of records.
pub open spec fn records_of(list: Seq<MediaFileInfo>) -> Seq<MediaRecord> {
    list.map_values(|r: MediaFileInfo| r@)
}

/// `last_match` finds a record that `offered` duplicates, and `offered`
/// duplicates none behind it.
pub proof fn lemma_last_match(list: Seq<MediaRecord>, offered: MediaRecord)
    ensures
        -1 <= last_match(list, offered) < list.len(),
        last_match(list, offered) >= 0 ==> duplicates(list[last_match(list, offered)], offered),
        forall|j: int|
            last_match(list, offered) < j < list.len() ==> !duplicates(#[trigger] list[j], offered),
    decreases list.len(),
{
    if list.len() > 0 && !duplicates(list.last(), offered) {
        let front = list.drop_last();
        lemma_last_match(front, offered);
        assert forall|j: int| last_match(list, offered) < j < list.len() implies !duplicates(
            #[trigger] list[j],
            offered,
        ) by {
            if j < front.len() {
                assert(front[j] == list[j]);
            }
        }
    }
}

/// What resolving two records in turn, from nothing, leaves: the better one
/// where the second duplicates the first (the first where neither is better),
/// and both where it does not.
pub proof fn lemma_pair_resolution(first: MediaRecord, second: MediaRecord)
    ensures
        resolved_with_all(Seq::empty(), seq![first, second]) == (if duplicates(first, second) {
            seq![crate::record::keep_best(first, second)]
        } else {
            seq![first, second]
        }),
{
    let none = Seq::<MediaRecord>::empty();
    let pair = seq![first, second];
    assert(pair.drop_last() =~= seq![first]);
    assert(resolved_with_all(none, seq![first].drop_last()) == none);
    assert(resolved_with_all(none, seq![first]) == resolved_with(none, first));
    let one = seq![first];
    assert(one.drop_last() =~= none);
    assert(last_match(none, second) == -1);
}

/// Two records of one title that name the same album are one track, however far
/// their durations lie apart: resolved in turn, one of them is left, the better
/// one, or the first where neither is better.
pub proof fn lemma_same_album_is_merged(first: MediaRecord, second: MediaRecord)
    requires
        first.track_name == second.track_name,
        first.album is Some,
        first.album == second.album,
    ensures
        duplicates(first, second),
        resolved_with_all(Seq::empty(), seq![first, second]) == seq![
            crate::record::keep_best(first, second),
        ],
{
    lemma_pair_resolution(first, second);
}

/// Two records of one title that name different albums are two tracks, however
/// close their durations: resolved in turn, both are left.
pub proof fn lemma_different_albums_stay_apart(first: MediaRecord, second: MediaRecord)
    requires
        first.track_name == second.track_name,
        first.album is Some,
        second.album is Some,
        first.album != second.album,
    ensures
        !duplicates(first, second),
        resolved_with_all(Seq::empty(), seq![first, second]) == seq![first, second],
{
    lemma_pair_resolution(first, second);
}

/// Two records of one title of which at least one names no album are one track
/// exactly if their durations lie less than the tolerance apart. Resolved in
/// turn, inside the tolerance one of them is left, the better one, or the first
/// where neither is better; at the tolerance or beyond it both are left.
pub proof fn lemma_missing_album_goes_by_duration(first: MediaRecord, second: MediaRecord)
    requires
        first.track_name == second.track_name,
        first.album is None || second.album is None,
    ensures
        duplicates(first, second) <==> duration_gap(first.duration_ms, second.duration_ms)
            < DURATION_TOLERANCE_MS,
        duration_gap(first.duration_ms, second.duration_ms) < DURATION_TOLERANCE_MS
            ==> resolved_with_all(Seq::empty(), seq![first, second]) == seq![
            crate::record::keep_best(first, second),
        ],
        duration_gap(first.duration_ms, second.duration_ms) >= DURATION_TOLERANCE_MS
            ==> resolved_with_all(Seq::empty(), seq![first, second]) == seq![first, second],
{
    lemma_pair_resolution(first, second);
}

/// Records of different titles are never taken for one track.
pub proof fn lemma_different_titles_stay_apart(first: MediaRecord, second: MediaRecord)
    requires
        first.track_name != second.track_name,
    ensures
        !duplicates(first, second),
        resolved_with_all(Seq::empty(), seq![first, second]) == seq![first, second],
{
    lemma_pair_resolution(first, second);
}

/// A record that duplicates one of the records held is merged with a record
/// held: the list does not grow, and the record that it was held against is the
/// last one that it duplicates. A record that duplicates none is added at the
/// end. Either way every record kept is the offered one or was held before.
pub proof fn lemma_resolution_merges_or_adds(list: Seq<MediaRecord>, offered: MediaRecord)
    ensures
        (exists|i: int| 0 <= i < list.len() && duplicates(#[trigger] list[i], offered))
            <==> last_match(list, offered) >= 0,
        last_match(list, offered) >= 0 ==> resolved_with(list, offered).len() == list.len(),
        last_match(list, offered) < 0 ==> resolved_with(list, offered) == list.push(offered),
        forall|i: int|
            0 <= i < resolved_with(list, offered).len() ==> (#[trigger] resolved_with(
                list,
                offered,
            )[i]) == offered || list.contains(resolved_with(list, offered)[i]),
{
    lemma_last_match(list, offered);
    let at = last_match(list, offered);
    let kept = resolved_with(list, offered);
    assert forall|i: int| 0 <= i < kept.len() implies (#[trigger] kept[i]) == offered
        || list.contains(kept[i]) by {
        if at < 0 {
            if i < list.len() {
                assert(kept[i] == list[i]);
            }
        } else if better(offered, list[at]) {
            if i < at {
                assert(kept[i] == list[i]);
            } else if i < kept.len() - 1 {
                assert(kept[i] == list[i + 1]);
            }
        } else {
            assert(kept[i] == list[i]);
        }
    }
}

/// A position whose record `offered` duplicates, behind which it duplicates
/// none, is the position of the last match.
pub proof fn lemma_last_match_is(list: Seq<MediaRecord>, offered: MediaRecord, at: int)
    requires
        -1 <= at < list.len(),
        at >= 0 ==> duplicates(list[at], offered),
        forall|j: int| at < j < list.len() ==> !duplicates(#[trigger] list[j], offered),
    ensures
        last_match(list, offered) == at,
{
    lemma_last_match(list, offered);
}

/// The bucket of a list made of two parts is made of the buckets of the parts.
pub proof fn lemma_bucket_of_parts(a: Seq<MediaRecord>, b: Seq<MediaRecord>, title: Seq<char>)
    ensures
        bucket_of(a + b, title) == bucket_of(a, title) + bucket_of(b, title),
    decreases b.len(),
{
    if b.len() == 0 {
        assert(a + b =~= a);
        assert(bucket_of(a, title) + bucket_of(b, title) =~= bucket_of(a, title));
    } else {
        assert((a + b).last() == b.last());
        assert((a + b).drop_last() =~= a + b.drop_last());
        lemma_bucket_of_parts(a, b.drop_last(), title);
        assert(bucket_of(a + b, title) =~= bucket_of(a, title) + bucket_of(b, title));
    }
}

/// Every record of a bucket has the title of the bucket and is a record of the
/// list.
pub proof fn lemma_bucket_members(list: Seq<MediaRecord>, title: Seq<char>)
    ensures
        forall|i: int|
            0 <= i < bucket_of(list, title).len() ==> (#[trigger] bucket_of(
                list,
                title,
            )[i]).track_name == title && list.contains(bucket_of(list, title)[i]),
    decreases list.len(),
{
    if list.len() > 0 {
        let front = list.drop_last();
        lemma_bucket_members(front, title);
        let bucket = bucket_of(list, title);
        assert forall|i: int| 0 <= i < bucket.len() implies (#[trigger] bucket[i]).track_name
            == title && list.contains(bucket[i]) by {
            if i < bucket_of(front, title).len() {
                let r = bucket_of(front, title)[i];
                assert(front.contains(r));
                let j = choose|j: int| 0 <= j < front.len() && front[j] == r;
                assert(list[j] == r);
            } else {
                assert(list[list.len() - 1] == bucket[i]);
            }
        }
    }
}

/// The resolution of a record keeps to the bucket of its title. That bucket is
/// afterwards what resolving the record against the bucket alone gives, and the
/// bucket of every other title is what it was.
pub proof fn lemma_resolution_stays_in_bucket(list: Seq<MediaRecord>, offered: MediaRecord)
    ensures
        bucket_of(resolved_with(list, offered), offered.track_name) == resolved_with(
            bucket_of(list, offered.track_name),
            offered,
        ),
        forall|title: Seq<char>|
            title != offered.track_name ==> #[trigger] bucket_of(
                resolved_with(list, offered),
                title,
            ) == bucket_of(list, title),
{
    let own = offered.track_name;
    let at = last_match(list, offered);
    let bucket = bucket_of(list, own);
    lemma_last_match(list, offered);
    lemma_bucket_members(list, own);
    let added = list.push(offered);
    assert(added.drop_last() =~= list);
    assert(added.last() == offered);
    if at < 0 {
        assert forall|j: int| 0 <= j < bucket.len() implies !duplicates(
            #[trigger] bucket[j],
            offered,
        ) by {
            assert(list.contains(bucket[j]));
            let i = choose|i: int| 0 <= i < list.len() && list[i] == bucket[j];
            assert(!duplicates(list[i], offered));
        }
        lemma_last_match_is(bucket, offered, -1);
    } else {
        let held = list[at];
        let pre = list.subrange(0, at);
        let post = list.subrange(at + 1, list.len() as int);
        let one = seq![held];
        assert(list =~= pre + one + post);
        assert(list.remove(at) =~= pre + post);
        assert(one.drop_last() =~= Seq::<MediaRecord>::empty());
        assert(one.last() == held);
        assert(bucket_of(Seq::<MediaRecord>::empty(), own) =~= Seq::<MediaRecord>::empty());
        assert(bucket_of(one, own) =~= one);
        lemma_bucket_of_parts(pre, one, own);
        lemma_bucket_of_parts(pre + one, post, own);
        lemma_bucket_of_parts(pre, post, own);
        lemma_bucket_members(post, own);
        let before = bucket_of(pre, own);
        let after = bucket_of(post, own);
        assert(bucket =~= before + one + after);
        assert forall|j: int| before.len() < j < bucket.len() implies !duplicates(
            #[trigger] bucket[j],
            offered,
        ) by {
            let r = after[j - before.len() - 1];
            assert(bucket[j] == r);
            assert(post.contains(r));
            let i = choose|i: int| 0 <= i < post.len() && post[i] == r;
            assert(list[at + 1 + i] == r);
        }
        assert(bucket[before.len() as int] == held);
        lemma_last_match_is(bucket, offered, before.len() as int);
        assert(bucket.remove(before.len() as int) =~= before + after);
        if better(offered, held) {
            let kept = list.remove(at).push(offered);
            assert(kept.drop_last() =~= list.remove(at));
            assert(kept.last() == offered);
        }
    }
    assert forall|title: Seq<char>| title != own implies #[trigger] bucket_of(
        resolved_with(list, offered),
        title,
    ) == bucket_of(list, title) by {
        if at >= 0 {
            let held = list[at];
            let pre = list.subrange(0, at);
            let post = list.subrange(at + 1, list.len() as int);
            let one = seq![held];
            assert(list =~= pre + one + post);
            assert(list.remove(at) =~= pre + post);
            assert(one.drop_last() =~= Seq::<MediaRecord>::empty());
            assert(one.last() == held);
            assert(bucket_of(Seq::<MediaRecord>::empty(), title) =~= Seq::<MediaRecord>::empty());
            assert(bucket_of(one, title) =~= Seq::<MediaRecord>::empty());
            lemma_bucket_of_parts(pre, one, title);
            lemma_bucket_of_parts(pre + one, post, title);
            lemma_bucket_of_parts(pre, post, title);
            assert(bucket_of(list, title) =~= bucket_of(list.remove(at), title));
            if better(offered, held) {
                let kept = list.remove(at).push(offered);
                assert(kept.drop_last() =~= list.remove(at));
                assert(kept.last() == offered);
            }
        }
    }
}

/// How far two durations lie apart.
pub fn abs_gap(a: u128, b: u128) -> (gap: u128)
    ensures
        gap == duration_gap(a, b),
{
    if a >= b {
        a - b
    } else {
        b - a
    }
}

/// Whether `held` is a copy of the track that `offered` is a copy of.
pub fn is_duplicate(held: &MediaFileInfo, offered: &MediaFileInfo) -> (same: bool)
    ensures
        same == duplicates(held@, offered@),
{
    if !held.same_title(offered) {
        false
    } else if held.both_name_album(offered) {
        held.same_album(offered)
    } else {
        abs_gap(held.duration(), offered.duration()) < DURATION_TOLERANCE_MS
    }
}

/// The records kept so far, in the order in which they were taken in.
pub struct TitleMap {
    entries: Vec<MediaFileInfo>,
}

impl View for TitleMap {
    type V = Seq<MediaRecord>;

    closed spec fn view(&self) -> Seq<MediaRecord> {
        records_of(self.entries@)
    }
}

impl TitleMap {
    /// A title map that holds nothing.
    pub fn new() -> (map: TitleMap)
        ensures
            map@ == Seq::<MediaRecord>::empty(),
    {
        let map = TitleMap { entries: Vec::new() };
        map
    }

    /// How many records are held.
    pub fn len(&self) -> (len: usize)
        ensures
            len == self@.len(),
    {
        self.entries.len()
    }

    /// The records held, in the order in which they were taken in.
    pub fn records(&self) -> (records: &Vec<MediaFileInfo>)
        ensures
            records_of(records@) == self@,
    {
        &self.entries
    }

    /// Gives up the records held, in the order in which they were taken in.
    pub fn into_records(self) -> (records: Vec<MediaFileInfo>)
        ensures
            records_of(records@) == self@,
    {
        self.entries
    }

    /// The bucket of a title: the records held with that title, in the order in
    /// which they were taken in.
    pub fn bucket(&self, track_name: &String) -> (bucket: Vec<MediaFileInfo>)
        ensures
            records_of(bucket@) == bucket_of(self@, track_name@),
    {
        let mut bucket: Vec<MediaFileInfo> = Vec::new();
        let mut i: usize = 0;
        assert(self@.subrange(0, 0) =~= Seq::<MediaRecord>::empty());
        assert(records_of(bucket@) =~= Seq::<MediaRecord>::empty());
        while i < self.entries.len()
            invariant
                i <= self.entries.len(),
                records_of(bucket@) == bucket_of(self@.subrange(0, i as int), track_name@),
            decreases self.entries.len() - i,
        {
            let ghost longer = self@.subrange(0, i + 1);
            assert(longer.last() == self@[i as int]);
            assert(longer.drop_last() =~= self@.subrange(0, i as int));
            if self.entries[i].has_title(track_name) {
                bucket.push(self.entries[i].clone());
                assert(records_of(bucket@) =~= bucket_of(longer, track_name@));
            }
            i += 1;
        }
        assert(self@.subrange(0, i as int) =~= self@);
        bucket
    }

    /// Takes a record in without looking for a record of the same track. This is
    /// for records that are already known to be of different tracks: the
    /// survivors of the resolution by identifier.
    pub fn add_media_info(&mut self, media_info: &MediaFileInfo)
        ensures
            final(self)@ == old(self)@.push(media_info@),
    {
        self.entries.push(media_info.clone());
    }

    /// Whether a record with the title `track_name` that names the album `album`
    /// is held.
    pub fn is_exists(&self, track_name: &String, album: &String) -> (found: bool)
        ensures
            found == exists|i: int|
                0 <= i < self@.len() && (#[trigger] self@[i]).track_name == track_name@
                    && self@[i].album == Some(album@),
    {
        let mut i: usize = 0;
        while i < self.entries.len()
            invariant
                i <= self.entries.len(),
                forall|j: int|
                    0 <= j < i ==> !((#[trigger] self@[j]).track_name == track_name@
                        && self@[j].album == Some(album@)),
            decreases self.entries.len() - i,
        {
            if self.entries[i].has_title(track_name) && self.entries[i].has_album(album) {
                assert(self@[i as int].track_name == track_name@);
                return true;
            }
            i += 1;
        }
        false
    }

    /// The position of the last record held that `media_info` duplicates.
    fn find_last_match(&self, media_info: &MediaFileInfo) -> (found: Option<usize>)
        ensures
            match found {
                Some(at) => at == last_match(self@, media_info@),
                None => last_match(self@, media_info@) == -1,
            },
    {
        let mut found: Option<usize> = None;
        let mut i: usize = 0;
        while i < self.entries.len()
            invariant
                i <= self.entries.len(),
                match found {
                    Some(at) => at == last_match(self@.subrange(0, i as int), media_info@),
                    None => last_match(self@.subrange(0, i as int), media_info@) == -1,
                },
            decreases self.entries.len() - i,
        {
            let ghost longer = self@.subrange(0, i + 1);
            assert(longer.drop_last() =~= self@.subrange(0, i as int));
            if is_duplicate(&self.entries[i], media_info) {
                found = Some(i);
            }
            i += 1;
        }
        assert(self@.subrange(0, i as int) =~= self@);
        found
    }

    /// Resolves a record against the records held. Where it duplicates none, it
    /// is taken in. Where it duplicates some, it is held against the last of
    /// them: it takes that record's place if it is better, and is dropped if it
    /// is not. The resolution says which, and names the record it was held
    /// against.
    pub fn replace_media_info(&mut self, media_info: &MediaFileInfo) -> (resolution: Resolution)
        ensures
            final(self)@ == resolved_with(old(self)@, media_info@),
            resolution@ == report_on(old(self)@, media_info@),
    {
        proof {
            lemma_last_match(self@, media_info@);
        }
        match self.find_last_match(media_info) {
            None => {
                self.entries.push(media_info.clone());
                Resolution { verdict: Verdict::Added, held_path: None }
            },
            Some(at) => {
                let held_path = self.entries[at].file_path().to_owned();
                if media_info.better_than(&self.entries[at]) {
                    self.entries.remove(at);
                    self.entries.push(media_info.clone());
                    Resolution { verdict: Verdict::Replaced, held_path: Some(held_path) }
                } else {
                    Resolution { verdict: Verdict::Discarded, held_path: Some(held_path) }
                }
            },
        }
    }
}

} // verus!
