use crypto::aes::ecb_encryptor;
use crypto::aes::KeySize;
use crypto::blockmodes::PkcsPadding;
use crypto::buffer::ReadBuffer;
use crypto::buffer::RefReadBuffer;
use crypto::buffer::RefWriteBuffer;
use crypto::buffer::WriteBuffer;
use music_dedup::extract::assemble_media_info;
use music_dedup::extract::find_163_key;
use music_dedup::extract::get_media_file_info;
use music_dedup::extract::is_audio_file;
use music_dedup::extract::is_container_file;
use music_dedup::extract::read_tag_id;
use music_dedup::extract::ExtractError;
use music_dedup::extract::ProbedFile;
use music_dedup::extract::TagFields;
use music_dedup::netease_key::METADATA_KEY;

fn key_for(plain: &str) -> String {
    let mut out = vec![0u8; plain.len() + 16];
    let mut encryptor = ecb_encryptor(KeySize::KeySize128, &METADATA_KEY[..], PkcsPadding);
    let mut input = RefReadBuffer::new(plain.as_bytes());
    let mut output = RefWriteBuffer::new(&mut out[..]);
    encryptor.encrypt(&mut input, &mut output, true).ok().unwrap();
    let cipher = output.take_read_buffer().take_remaining().to_vec();
    format!("163 key(Don't modify):{}", base64::encode(cipher))
}

fn tag(texts: &[&str], album: Option<&str>, title: Option<&str>) -> TagFields {
    TagFields {
        texts: texts.iter().map(|t| t.to_string()).collect(),
        album: album.map(|a| a.to_string()),
        title: title.map(|t| t.to_string()),
    }
}

fn probe(path: &str, primary: Option<TagFields>, first: Option<TagFields>) -> ProbedFile {
    ProbedFile {
        file_path: path.to_string(),
        container_id: None,
        primary_tag: primary,
        first_tag: first,
        bitrate: Some(320),
        duration_ms: 200000,
    }
}

#[test]
fn a_record_is_made_of_the_primary_tag() {
    let primary = tag(&["Title", "Album"], Some("Album"), Some("Title"));
    let first = tag(&[], Some("Other"), Some("Other title"));
    let record = get_media_file_info(probe("in/a.mp3", Some(primary), Some(first))).unwrap();
    assert_eq!(record.file_path(), "in/a.mp3");
    assert_eq!(record.track_name(), "Title");
    assert_eq!(record.album(), Some("Album"));
    assert_eq!(record.music_id(), None);
    assert_eq!(record.bitrate(), 320);
    assert_eq!(record.duration(), 200000);
}

#[test]
fn the_first_tag_counts_where_there_is_no_primary_one() {
    let first = tag(&[], None, Some("From first"));
    let record = get_media_file_info(probe("a.mp3", None, Some(first))).unwrap();
    assert_eq!(record.track_name(), "From first");
    assert_eq!(record.album(), None);
}

#[test]
fn a_file_without_tags_gives_no_record() {
    let outcome = get_media_file_info(probe("a.mp3", None, None));
    assert_eq!(outcome.err(), Some(ExtractError::TagsNotFound));
}

#[test]
fn the_title_falls_back_on_the_file_name_without_count() {
    let record =
        get_media_file_info(probe("in/My Song(2).mp3", Some(tag(&[], None, None)), None)).unwrap();
    assert_eq!(record.track_name(), "My Song");
    let record =
        get_media_file_info(probe("in/My Song.flac", Some(tag(&[], None, None)), None)).unwrap();
    assert_eq!(record.track_name(), "My Song");
}

#[test]
fn a_title_of_the_tag_is_taken_as_it_is() {
    let record =
        get_media_file_info(probe("in/File(2).mp3", Some(tag(&[], None, Some("Song(2)"))), None))
            .unwrap();
    assert_eq!(record.track_name(), "Song(2)");
}

#[test]
fn a_file_without_any_title_gives_no_record() {
    let outcome = get_media_file_info(probe("in/(1).mp3", Some(tag(&[], None, None)), None));
    assert_eq!(outcome.err(), Some(ExtractError::MissingTitle));
    let outcome = get_media_file_info(probe("a.mp3", Some(tag(&[], None, Some(""))), None));
    assert_eq!(outcome.err(), Some(ExtractError::MissingTitle));
}

#[test]
fn an_unknown_bitrate_is_zero() {
    let mut file = probe("a.mp3", Some(tag(&[], None, Some("T"))), None);
    file.bitrate = None;
    file.duration_ms = 0;
    let record = get_media_file_info(file).unwrap();
    assert_eq!(record.bitrate(), 0);
    assert_eq!(record.duration(), 0);
}

#[test]
fn the_key_among_the_tag_texts_gives_the_id() {
    let key = key_for("music:{\"musicId\":4242}");
    let texts = ["Title", key.as_str(), "Album"];
    let record =
        get_media_file_info(probe("a.mp3", Some(tag(&texts, None, Some("Title"))), None)).unwrap();
    assert_eq!(record.music_id(), Some(4242));
}

#[test]
fn the_id_of_the_container_is_preferred() {
    let key = key_for("music:{\"musicId\":4242}");
    let mut file = probe("a.ncm", Some(tag(&[key.as_str()], None, Some("Title"))), None);
    file.container_id = Some(7);
    let record = get_media_file_info(file).unwrap();
    assert_eq!(record.music_id(), Some(7));
}

#[test]
fn a_key_that_cannot_be_read_gives_no_id_and_no_failure() {
    let broken = "163 key(Don't modify):not base64!";
    let record =
        get_media_file_info(probe("a.mp3", Some(tag(&[broken], None, Some("Title"))), None))
            .unwrap();
    assert_eq!(record.music_id(), None);
    assert_eq!(record.track_name(), "Title");
}

#[test]
fn only_the_first_key_is_read() {
    let good = key_for("music:{\"musicId\":1}");
    let other = key_for("music:{\"musicId\":2}");
    let broken = "163 key(Don't modify):***";
    assert_eq!(read_tag_id(&vec![good.clone(), other.clone()]), Some(1));
    assert_eq!(read_tag_id(&vec![other, good.clone()]), Some(2));
    assert_eq!(read_tag_id(&vec![broken.to_string(), good]), None);
    assert_eq!(read_tag_id(&vec!["x".to_string()]), None);
    assert_eq!(read_tag_id(&Vec::new()), None);
}

#[test]
fn the_key_of_the_tag_that_counts_is_read() {
    let key = key_for("music:{\"musicId\":11}");
    let primary = tag(&[], None, Some("Title"));
    let first = tag(&[key.as_str()], None, Some("Title"));
    let record = get_media_file_info(probe("a.mp3", Some(primary), Some(first))).unwrap();
    assert_eq!(record.music_id(), None);
}

#[test]
fn the_first_key_is_found_by_its_prefix() {
    let texts: Vec<String> = ["a", "163 key", "163 key(Don't modify):x", "163 key(Don't modify):y"]
        .iter()
        .map(|t| t.to_string())
        .collect();
    assert_eq!(find_163_key(&texts), Some(2));
    assert_eq!(find_163_key(&texts[..2].to_vec()), None);
    assert_eq!(find_163_key(&Vec::new()), None);
}

#[test]
fn a_record_is_assembled_from_plain_values() {
    let record = assemble_media_info(
        "dir/Song(3).mp3".to_string(),
        Some(9),
        tag(&[], Some("Album"), None),
        None,
        123456,
    )
    .unwrap();
    assert_eq!(record.file_path(), "dir/Song(3).mp3");
    assert_eq!(record.music_id(), Some(9));
    assert_eq!(record.album(), Some("Album"));
    assert_eq!(record.track_name(), "Song");
    assert_eq!(record.bitrate(), 0);
    assert_eq!(record.duration(), 123456);
    let outcome =
        assemble_media_info("dir/.mp3(1)".to_string(), None, tag(&[], None, Some("")), None, 1);
    assert_eq!(outcome.err(), Some(ExtractError::MissingTitle));
}

#[test]
fn audio_files_are_known_by_their_extension() {
    assert!(is_audio_file("a.mp3"));
    assert!(is_audio_file("dir/a.wav"));
    assert!(is_audio_file("a.flac"));
    assert!(is_audio_file("a.ncm"));
    assert!(is_audio_file("a.MP3"));
    assert!(is_audio_file("a.Flac"));
    assert!(is_audio_file("a.b.NcM"));
    assert!(!is_audio_file("a.ogg"));
    assert!(!is_audio_file("a.mp"));
    assert!(!is_audio_file("a.mp33"));
    assert!(!is_audio_file("mp3"));
    assert!(!is_audio_file(".mp3"));
    assert!(!is_audio_file("a.mp3/b"));
    assert!(!is_audio_file("a."));
    assert!(!is_audio_file(""));
}

#[test]
fn container_files_are_known_by_their_extension_in_small_letters() {
    assert!(is_container_file("a.ncm"));
    assert!(is_container_file("dir/a.b.ncm"));
    assert!(!is_container_file("a.NCM"));
    assert!(!is_container_file("a.mp3"));
    assert!(!is_container_file("ncm"));
    assert!(!is_container_file(".ncm"));
}

#[test]
fn every_extraction_failure_has_words() {
    assert_eq!(ExtractError::TagsNotFound.message(), "tags not found");
    assert!(!ExtractError::MissingTitle.message().is_empty());
    assert_ne!(ExtractError::MissingTitle.message(), ExtractError::TagsNotFound.message());
}
