//! The media record: what is known of one audio file, and the order by which
//! two copies of one track are ranked.

use vstd::prelude::*;

verus! {

/// The mathematical value of a media record.
pub struct MediaRecord {
    /// Where the file lies.
    pub source_path: Seq<char>,
    /// The identifier shared by every quality variant of one track, where known.
    pub stable_id: Option<u64>,
    /// The album title, where the file carries one.
    pub album: Option<Seq<char>>,
    /// The track title.
    pub track_name: Seq<char>,
    /// Encoded bits per second; 0 where unknown.
    pub bitrate: u32,
    /// Length of the track in milliseconds.
    pub duration_ms: u128,
}

/// `a` is strictly better than `b`: a higher bitrate, or the same bitrate and a
/// longer duration.
pub open spec fn better(a: MediaRecord, b: MediaRecord) -> bool {
    a.bitrate > b.bitrate || (a.bitrate == b.bitrate && a.duration_ms > b.duration_ms)
}

/// Neither record is better than the other: they agree in bitrate and duration.
pub open spec fn same_quality(a: MediaRecord, b: MediaRecord) -> bool {
    a.bitrate == b.bitrate && a.duration_ms == b.duration_ms
}

/// The record kept when `incoming` meets the `incumbent` copy of the same track:
/// the better one, and the incumbent where neither is better.
pub open spec fn keep_best(incumbent: MediaRecord, incoming: MediaRecord) -> MediaRecord {
    if better(incoming, incumbent) {
        incoming
    } else {
        incumbent
    }
}

/// No record is better than itself, and no two records are each better than the
/// other.
pub proof fn lemma_better_is_strict(a: MediaRecord, b: MediaRecord)
    ensures
        !better(a, a),
        better(a, b) ==> !better(b, a),
{
}

/// Of two records exactly one of three things holds: the first is better, the
/// second is better, or they are of the same quality.
pub proof fn lemma_better_is_total(a: MediaRecord, b: MediaRecord)
    ensures
        better(a, b) || better(b, a) || same_quality(a, b),
        same_quality(a, b) ==> !better(a, b) && !better(b, a),
{
}

/// Being better carries over: better than a record that is better than a third
/// is better than the third.
pub proof fn lemma_better_is_transitive(a: MediaRecord, b: MediaRecord, c: MediaRecord)
    requires
        better(a, b),
        better(b, c),
    ensures
        better(a, c),
{
}

/// The record kept is never worse than either candidate, and where the two are
/// of the same quality it is the incumbent.
pub proof fn lemma_keep_best_is_maximal(incumbent: MediaRecord, incoming: MediaRecord)
    ensures
        !better(incumbent, keep_best(incumbent, incoming)),
        !better(incoming, keep_best(incumbent, incoming)),
        same_quality(incumbent, incoming) ==> keep_best(incumbent, incoming) == incumbent,
{
}

/// The metadata of one audio file. A record never changes once made; resolution
/// only decides which of several records is kept.
pub struct MediaFileInfo {
    file_path: String,
    music_id: Option<u64>,
    album: Option<String>,
    track_name: String,
    bitrate: u32,
    duration: u128,
}

/// The view of an optional string.
pub open spec fn text_view(text: Option<String>) -> Option<Seq<char>> {
    match text {
        Some(s) => Some(s@),
        None => None,
    }
}

impl View for MediaFileInfo {
    type V = MediaRecord;

    closed spec fn view(&self) -> MediaRecord {
        MediaRecord {
            source_path: self.file_path@,
            stable_id: self.music_id,
            album: text_view(self.album),
            track_name: self.track_name@,
            bitrate: self.bitrate,
            duration_ms: self.duration,
        }
    }
}

impl MediaFileInfo {
    #[verifier::type_invariant]
    spec fn is_titled(self) -> bool {
        self.track_name@.len() > 0
    }

    /// Makes a record. A record has a title: with an empty `track_name` there is
    /// none to make.
    pub fn new(
        file_path: String,
        music_id: Option<u64>,
        album: Option<String>,
        track_name: String,
        bitrate: u32,
        duration: u128,
    ) -> (made: Option<MediaFileInfo>)
        ensures
            made is Some <==> track_name@.len() > 0,
            made matches Some(m) ==> m@ == (MediaRecord {
                source_path: file_path@,
                stable_id: music_id,
                album: text_view(album),
                track_name: track_name@,
                bitrate,
                duration_ms: duration,
            }),
    {
        if track_name.as_str().is_empty() {
            None
        } else {
            Some(MediaFileInfo { file_path, music_id, album, track_name, bitrate, duration })
        }
    }

    /// Where the file lies.
    pub fn file_path(&self) -> (path: &str)
        ensures
            path@ == self@.source_path,
    {
        self.file_path.as_str()
    }

    /// The stable identifier of the track, where the file gave one.
    pub fn music_id(&self) -> (id: Option<u64>)
        ensures
            id == self@.stable_id,
    {
        self.music_id
    }

    /// The album title, where the file carries one.
    pub fn album(&self) -> (album: Option<&str>)
        ensures
            album is Some <==> self@.album is Some,
            album matches Some(a) ==> a@ == self@.album->0,
    {
        match &self.album {
            Some(a) => Some(a.as_str()),
            None => None,
        }
    }

    /// The track title, which is never empty.
    pub fn track_name(&self) -> (title: &str)
        ensures
            title@ == self@.track_name,
            title@.len() > 0,
    {
        proof {
            use_type_invariant(self);
        }
        self.track_name.as_str()
    }

    /// Encoded bits per second; 0 where unknown.
    pub fn bitrate(&self) -> (bitrate: u32)
        ensures
            bitrate == self@.bitrate,
    {
        self.bitrate
    }

    /// Length of the track in milliseconds.
    pub fn duration(&self) -> (duration: u128)
        ensures
            duration == self@.duration_ms,
    {
        self.duration
    }

    /// Whether the record has the title `title`.
    pub fn has_title(&self, title: &String) -> (same: bool)
        ensures
            same == (self@.track_name == title@),
    {
        self.track_name == *title
    }

    /// Whether the record names the album `album`.
    pub fn has_album(&self, album: &String) -> (same: bool)
        ensures
            same == (self@.album == Some(album@)),
    {
        match &self.album {
            Some(a) => *a == *album,
            None => false,
        }
    }

    /// Whether the two records have the same title.
    pub fn same_title(&self, other: &MediaFileInfo) -> (same: bool)
        ensures
            same == (self@.track_name == other@.track_name),
    {
        self.track_name == other.track_name
    }

    /// Whether both records name an album.
    pub fn both_name_album(&self, other: &MediaFileInfo) -> (both: bool)
        ensures
            both == (self@.album is Some && other@.album is Some),
    {
        self.album.is_some() && other.album.is_some()
    }

    /// Whether the two records name the same album, or both name none.
    pub fn same_album(&self, other: &MediaFileInfo) -> (same: bool)
        ensures
            same == (self@.album == other@.album),
    {
        match (&self.album, &other.album) {
            (Some(a), Some(b)) => *a == *b,
            (None, None) => true,
            _ => false,
        }
    }

    /// Whether this record is strictly better than `other`: it has the higher
    /// bitrate, or the same bitrate and the longer duration. Two records of the
    /// same bitrate and duration are neither better than the other.
    pub fn better_than(&self, other: &MediaFileInfo) -> (is_better: bool)
        ensures
            is_better == better(self@, other@),
    {
        other.bitrate < self.bitrate || (other.bitrate == self.bitrate && other.duration
            < self.duration)
    }
}

impl Clone for MediaFileInfo {
    fn clone(&self) -> (copy: MediaFileInfo)
        ensures
            copy@ == self@,
    {
        proof {
            use_type_invariant(self);
        }
        let album = match &self.album {
            Some(a) => Some(a.clone()),
            None => None,
        };
        MediaFileInfo {
            file_path: self.file_path.clone(),
            music_id: self.music_id,
            album,
            track_name: self.track_name.clone(),
            bitrate: self.bitrate,
            duration: self.duration,
        }
    }
}

} // verus!
