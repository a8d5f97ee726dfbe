//! Assembly of a media record from what was read out of a file.
//!
//! Reading a file and parsing its container and tags is the caller's work. What
//! the caller found it hands over as plain values, a [`ProbedFile`]; what these
//! values mean for the record is decided here: which tag counts, where the
//! stable identifier comes from, and what the title is when no tag gives one.

use vstd::prelude::*;
use vstd::string::*;

use crate::filename::chars_of;
use crate::filename::extension;
use crate::filename::extension_of;
use crate::filename::file_name_of;
use crate::filename::stem_of;
use crate::filename::stem_without_count;
use crate::filename::strip_count;
use crate::netease_key::decrypt_163_key;
use crate::netease_key::id_of_key;
use crate::netease_key::is_163_key;
use crate::netease_key::key_prefix;
use crate::record::MediaFileInfo;
use crate::record::MediaRecord;
use crate::record::text_view;

verus! {

/// Why no record could be made of a file.
#[derive(Clone, Copy, Debug, PartialEq, Eq, Structural)]
pub enum ExtractError {
    /// The file carries no tag at all.
    TagsNotFound,
    /// Neither a tag nor the file name gives a title.
    MissingTitle,
}

impl ExtractError {
    /// The words for each failure.
    pub open spec fn message_text(&self) -> Seq<char> {
        match self {
            ExtractError::TagsNotFound => "tags not found"@,
            ExtractError::MissingTitle => "title not found"@,
        }
    }

    /// What went wrong, in words.
    pub fn message(&self) -> (text: &'static str)
        ensures
            text@ == self.message_text(),
    {
        match self {
            ExtractError::TagsNotFound => "tags not found",
            ExtractError::MissingTitle => "title not found",
        }
    }
}

/// What the resolution reads of one tag.
pub struct TagFields {
    /// The text of every item of the tag that holds text, in the order of the
    /// items.
    pub texts: Vec<String>,
    /// The first album title of the tag.
    pub album: Option<String>,
    /// The first track title of the tag.
    pub title: Option<String>,
}

/// The mathematical value of a [`TagFields`].
pub struct TagValues {
    pub texts: Seq<Seq<char>>,
    pub album: Option<Seq<char>>,
    pub title: Option<Seq<char>>,
}

/// The values of a list of texts.
pub open spec fn texts_of(texts: Seq<String>) -> Seq<Seq<char>> {
    texts.map_values(|t: String| t@)
}

impl View for TagFields {
    type V = TagValues;

    open spec fn view(&self) -> TagValues {
        TagValues {
            texts: texts_of(self.texts@),
            album: text_view(self.album),
            title: text_view(self.title),
        }
    }
}

/// What was read out of one audio file.
pub struct ProbedFile {
    /// Where the file lies.
    pub file_path: String,
    /// The identifier that the container of the file holds outside its tags.
    pub container_id: Option<u64>,
    /// The tag of the kind that is usual for the format of the file.
    pub primary_tag: Option<TagFields>,
    /// The first tag of the file, of whatever kind.
    pub first_tag: Option<TagFields>,
    /// Encoded bits per second, where the file tells.
    pub bitrate: Option<u32>,
    /// Length of the track in milliseconds.
    pub duration_ms: u128,
}

/// The mathematical value of a [`ProbedFile`].
pub struct ProbedValues {
    pub file_path: Seq<char>,
    pub container_id: Option<u64>,
    pub primary_tag: Option<TagValues>,
    pub first_tag: Option<TagValues>,
    pub bitrate: Option<u32>,
    pub duration_ms: u128,
}

/// The view of an optional tag.
pub open spec fn tag_view(tag: Option<TagFields>) -> Option<TagValues> {
    match tag {
        Some(t) => Some(t@),
        None => None,
    }
}

impl View for ProbedFile {
    type V = ProbedValues;

    open spec fn view(&self) -> ProbedValues {
        ProbedValues {
            file_path: self.file_path@,
            container_id: self.container_id,
            primary_tag: tag_view(self.primary_tag),
            first_tag: tag_view(self.first_tag),
            bitrate: self.bitrate,
            duration_ms: self.duration_ms,
        }
    }
}

/// The position of the first key among `texts`, or -1 where none of them is a
/// key.
pub open spec fn first_key(texts: Seq<Seq<char>>) -> int
    decreases texts.len(),
{
    if texts.len() == 0 {
        -1
    } else if first_key(texts.drop_last()) >= 0 {
        first_key(texts.drop_last())
    } else if key_prefix().is_prefix_of(texts.last()) {
        texts.len() - 1
    } else {
        -1
    }
}

/// The identifier that the tag gives: the one that its first key holds, where
/// it has a key and the key can be read.
pub open spec fn tag_id(texts: Seq<Seq<char>>) -> Option<u64> {
    if first_key(texts) >= 0 {
        match id_of_key(texts[first_key(texts)]) {
            Ok(id) => Some(id),
            Err(_) => None,
        }
    } else {
        None
    }
}

/// The tag that counts: the primary one, or else the first.
pub open spec fn chosen_tag(probe: ProbedValues) -> Option<TagValues> {
    match probe.primary_tag {
        Some(tag) => Some(tag),
        None => probe.first_tag,
    }
}

/// The title of the record: the one that the tag gives, or else the stem of the
/// file name without its count.
pub open spec fn title_of(file_path: Seq<char>, tag: TagValues) -> Seq<char> {
    match tag.title {
        Some(title) => title,
        None => strip_count(stem_of(file_name_of(file_path))),
    }
}

/// The record that is made of a file, its tag and its stable identifier, or the
/// reason why none is made.
pub open spec fn assembled(
    file_path: Seq<char>,
    stable_id: Option<u64>,
    tag: TagValues,
    bitrate: Option<u32>,
    duration_ms: u128,
) -> Result<MediaRecord, ExtractError> {
    if title_of(file_path, tag).len() == 0 {
        Err(ExtractError::MissingTitle)
    } else {
        Ok(
            MediaRecord {
                source_path: file_path,
                stable_id,
                album: tag.album,
                track_name: title_of(file_path, tag),
                bitrate: match bitrate {
                    Some(b) => b,
                    None => 0,
                },
                duration_ms,
            },
        )
    }
}

/// The stable identifier of a file: the one of its container where it holds
/// one, or else the one that the tag gives.
pub open spec fn stable_id_of(container_id: Option<u64>, tag: TagValues) -> Option<u64> {
    match container_id {
        Some(id) => Some(id),
        None => tag_id(tag.texts),
    }
}

/// The record that is made of what was read out of a file, or the reason why
/// none is made.
pub open spec fn extracted(probe: ProbedValues) -> Result<MediaRecord, ExtractError> {
    match chosen_tag(probe) {
        None => Err(ExtractError::TagsNotFound),
        Some(tag) => assembled(
            probe.file_path,
            stable_id_of(probe.container_id, tag),
            tag,
            probe.bitrate,
            probe.duration_ms,
        ),
    }
}

/// The view of a record or a failure.
pub open spec fn record_or_error(outcome: Result<MediaFileInfo, ExtractError>) -> Result<
    MediaRecord,
    ExtractError,
> {
    match outcome {
        Ok(record) => Ok(record@),
        Err(e) => Err(e),
    }
}

/// `first_key` finds a key, and no text before it is one.
pub proof fn lemma_first_key(texts: Seq<Seq<char>>)
    ensures
        -1 <= first_key(texts) < texts.len(),
        first_key(texts) >= 0 ==> key_prefix().is_prefix_of(texts[first_key(texts)]),
        forall|i: int|
            0 <= i < texts.len() && (first_key(texts) < 0 || i < first_key(texts))
                ==> !key_prefix().is_prefix_of(#[trigger] texts[i]),
    decreases texts.len(),
{
    if texts.len() > 0 {
        let front = texts.drop_last();
        lemma_first_key(front);
        assert forall|i: int|
            0 <= i < texts.len() && (first_key(texts) < 0 || i < first_key(
                texts,
            )) implies !key_prefix().is_prefix_of(#[trigger] texts[i]) by {
            if i < front.len() {
                assert(front[i] == texts[i]);
            }
        }
    }
}

/// Finds the first key among the texts of a tag.
pub fn find_163_key(texts: &Vec<String>) -> (found: Option<usize>)
    ensures
        match found {
            Some(at) => at == first_key(texts_of(texts@)),
            None => first_key(texts_of(texts@)) == -1,
        },
{
    let ghost all = texts_of(texts@);
    let mut i: usize = 0;
    assert(all.subrange(0, 0) =~= Seq::<Seq<char>>::empty());
    while i < texts.len()
        invariant
            i <= texts.len(),
            all == texts_of(texts@),
            first_key(all.subrange(0, i as int)) == -1,
        decreases texts.len() - i,
    {
        let ghost longer = all.subrange(0, i + 1);
        assert(longer.last() == texts@[i as int]@);
        assert(longer.drop_last() =~= all.subrange(0, i as int));
        if is_163_key(texts[i].as_str()) {
            proof {
                lemma_first_key(all);
                lemma_first_key(longer);
                if first_key(all) != i {
                    if first_key(all) < i {
                        assert(longer[first_key(all)] == all[first_key(all)]);
                    } else {
                        assert(all[i as int] == longer[i as int]);
                    }
                }
            }
            return Some(i);
        }
        i += 1;
    }
    assert(all.subrange(0, i as int) =~= all);
    None
}

/// Makes the record of a file from its tag and its stable identifier. The title
/// is the one of the tag, or else the stem of the file name without its count;
/// where that is empty, no record is made. A bitrate that is not known is 0.
pub fn assemble_media_info(
    file_path: String,
    stable_id: Option<u64>,
    tag: TagFields,
    bitrate: Option<u32>,
    duration_ms: u128,
) -> (outcome: Result<MediaFileInfo, ExtractError>)
    ensures
        record_or_error(outcome) == assembled(file_path@, stable_id, tag@, bitrate, duration_ms),
{
    let TagFields { texts: _, album, title } = tag;
    let title = match title {
        Some(title) => title,
        None => stem_without_count(file_path.as_str()),
    };
    let bitrate = match bitrate {
        Some(b) => b,
        None => 0,
    };
    match MediaFileInfo::new(file_path, stable_id, album, title, bitrate, duration_ms) {
        Some(record) => Ok(record),
        None => Err(ExtractError::MissingTitle),
    }
}

/// The stable identifier that a tag gives: the one that the first key among its
/// texts holds. A key that cannot be read gives none, and is no failure.
pub fn read_tag_id(texts: &Vec<String>) -> (id: Option<u64>)
    ensures
        id == tag_id(texts_of(texts@)),
{
    proof {
        lemma_first_key(texts_of(texts@));
    }
    match find_163_key(texts) {
        Some(at) => match decrypt_163_key(texts[at].as_str()) {
            Ok(id) => Some(id),
            Err(_) => None,
        },
        None => None,
    }
}

/// Makes the record of a file from what was read out of it. The primary tag
/// counts, or else the first tag; a file without any tag gives no record. The
/// stable identifier is the one of the container, or else the one that the tag
/// gives.
pub fn get_media_file_info(probe: ProbedFile) -> (outcome: Result<MediaFileInfo, ExtractError>)
    ensures
        record_or_error(outcome) == extracted(probe@),
{
    let ProbedFile { file_path, container_id, primary_tag, first_tag, bitrate, duration_ms } =
        probe;
    let tag = match primary_tag {
        Some(tag) => tag,
        None => match first_tag {
            Some(tag) => tag,
            None => {
                return Err(ExtractError::TagsNotFound);
            },
        },
    };
    let stable_id = match container_id {
        Some(id) => Some(id),
        None => read_tag_id(&tag.texts),
    };
    assemble_media_info(file_path, stable_id, tag, bitrate, duration_ms)
}

/// `text` is `lower` up to the case of its letters: at each place it holds the
/// character of `lower` or that of `upper`, which is `lower` in capitals.
pub open spec fn reads_as(text: Seq<char>, lower: Seq<char>, upper: Seq<char>) -> bool {
    &&& text.len() == lower.len()
    &&& text.len() == upper.len()
    &&& forall|i: int| 0 <= i < text.len() ==> #[trigger] text[i] == lower[i] || text[i] == upper[i]
}

/// The extension is one of those that are taken in: `wav`, `mp3`, `flac` or
/// `ncm`, in small letters or capitals.
pub open spec fn is_audio_extension(ext: Seq<char>) -> bool {
    ||| reads_as(ext, "wav"@, "WAV"@)
    ||| reads_as(ext, "mp3"@, "MP3"@)
    ||| reads_as(ext, "flac"@, "FLAC"@)
    ||| reads_as(ext, "ncm"@, "NCM"@)
}

/// The file is taken in: its name has an extension, and that is one of those
/// taken in.
pub open spec fn is_audio_path(file_path: Seq<char>) -> bool {
    match extension_of(file_name_of(file_path)) {
        Some(ext) => is_audio_extension(ext),
        None => false,
    }
}

/// The file is in the container of the music client: its extension is `ncm`, in
/// small letters.
pub open spec fn is_container_path(file_path: Seq<char>) -> bool {
    extension_of(file_name_of(file_path)) == Some("ncm"@)
}

/// Whether `text` is `lower` up to the case of its letters.
fn reads_as_either(text: &Vec<char>, lower: &str, upper: &str) -> (same: bool)
    ensures
        same == reads_as(text@, lower@, upper@),
{
    let lower_chars = chars_of(lower);
    let upper_chars = chars_of(upper);
    if text.len() != lower_chars.len() || text.len() != upper_chars.len() {
        return false;
    }
    let mut i: usize = 0;
    while i < text.len()
        invariant
            i <= text.len(),
            text.len() == lower_chars.len(),
            text.len() == upper_chars.len(),
            lower_chars@ == lower@,
            upper_chars@ == upper@,
            forall|j: int| 0 <= j < i ==> #[trigger] text@[j] == lower@[j] || text@[j] == upper@[j],
        decreases text.len() - i,
    {
        if text[i] != lower_chars[i] && text[i] != upper_chars[i] {
            return false;
        }
        i += 1;
    }
    true
}

/// Whether a file is taken in, by the extension of its name.
pub fn is_audio_file(file_path: &str) -> (taken: bool)
    ensures
        taken == is_audio_path(file_path@),
{
    match extension(file_path) {
        Some(ext) => {
            let chars = chars_of(ext.as_str());
            reads_as_either(&chars, "wav", "WAV") || reads_as_either(&chars, "mp3", "MP3")
                || reads_as_either(&chars, "flac", "FLAC") || reads_as_either(
                &chars,
                "ncm",
                "NCM",
            )
        },
        None => false,
    }
}

/// Whether a file is in the container of the music client, by the extension of
/// its name.
pub fn is_container_file(file_path: &str) -> (is_container: bool)
    ensures
        is_container == is_container_path(file_path@),
{
    match extension(file_path) {
        Some(ext) => {
            let chars = chars_of(ext.as_str());
            let same = reads_as_either(&chars, "ncm", "ncm");
            proof {
                if same {
                    assert(ext@ =~= "ncm"@);
                }
            }
            same
        },
        None => false,
    }
}

} // verus!
