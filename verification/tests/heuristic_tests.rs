use music_dedup::heuristic::abs_gap;
use music_dedup::heuristic::is_duplicate;
use music_dedup::heuristic::TitleMap;
use music_dedup::report::Verdict;
use music_dedup::heuristic::DURATION_TOLERANCE_MS;
use music_dedup::record::MediaFileInfo;

fn track(path: &str, title: &str, album: Option<&str>, bitrate: u32, duration: u128) -> MediaFileInfo {
    MediaFileInfo::new(
        path.to_string(),
        None,
        album.map(|a| a.to_string()),
        title.to_string(),
        bitrate,
        duration,
    )
    .unwrap()
}

fn paths(map: &TitleMap) -> Vec<String> {
    map.records().iter().map(|r| r.file_path().to_string()).collect()
}

#[test]
fn the_tolerance_is_one_and_a_half_seconds() {
    assert_eq!(DURATION_TOLERANCE_MS, 1500);
}

#[test]
fn the_gap_of_two_durations_has_no_sign() {
    assert_eq!(abs_gap(200000, 200900), 900);
    assert_eq!(abs_gap(200900, 200000), 900);
    assert_eq!(abs_gap(5, 5), 0);
    assert_eq!(abs_gap(0, u128::MAX), u128::MAX);
}

#[test]
fn close_durations_without_album_are_merged() {
    let mut map = TitleMap::new();
    map.replace_media_info(&track("a.mp3", "Song", None, 128, 200000));
    let second = map.replace_media_info(&track("b.mp3", "Song", None, 128, 200900));
    assert_eq!(map.len(), 1);
    assert_eq!(paths(&map), vec!["b.mp3"]);
    assert_eq!(second.verdict, Verdict::Replaced);
    assert_eq!(second.held_path, Some("a.mp3".to_string()));
}

#[test]
fn close_durations_keep_the_first_when_it_is_better() {
    let mut map = TitleMap::new();
    map.replace_media_info(&track("a.mp3", "Song", None, 320, 200000));
    let second = map.replace_media_info(&track("b.mp3", "Song", None, 128, 200900));
    assert_eq!(paths(&map), vec!["a.mp3"]);
    assert_eq!(second.verdict, Verdict::Discarded);
    assert_eq!(second.held_path, Some("a.mp3".to_string()));
}

#[test]
fn far_durations_without_album_stay_apart() {
    let mut map = TitleMap::new();
    map.replace_media_info(&track("a.mp3", "Song", None, 128, 200000));
    let second = map.replace_media_info(&track("b.mp3", "Song", None, 128, 206000));
    assert_eq!(map.len(), 2);
    assert_eq!(paths(&map), vec!["a.mp3", "b.mp3"]);
    assert_eq!(second.verdict, Verdict::Added);
    assert_eq!(second.held_path, None);
}

#[test]
fn a_gap_of_exactly_the_tolerance_is_no_match() {
    let a = track("a.mp3", "Song", None, 128, 200000);
    assert!(!is_duplicate(&a, &track("b.mp3", "Song", None, 128, 201500)));
    assert!(!is_duplicate(&a, &track("b.mp3", "Song", None, 128, 198500)));
    assert!(is_duplicate(&a, &track("b.mp3", "Song", None, 128, 201499)));
    assert!(is_duplicate(&a, &track("b.mp3", "Song", None, 128, 198501)));
    assert!(is_duplicate(&a, &track("b.mp3", "Song", None, 128, 200000)));
}

#[test]
fn one_missing_album_is_enough_to_go_by_duration() {
    let tagged = track("a.mp3", "Song", Some("Album"), 128, 200000);
    let near = track("b.mp3", "Song", None, 128, 200100);
    let far = track("c.mp3", "Song", None, 128, 300000);
    assert!(is_duplicate(&tagged, &near));
    assert!(is_duplicate(&near, &tagged));
    assert!(!is_duplicate(&tagged, &far));
    assert!(!is_duplicate(&far, &tagged));
}

#[test]
fn the_same_album_merges_whatever_the_durations() {
    let mut map = TitleMap::new();
    map.replace_media_info(&track("a.mp3", "Song", Some("Album"), 128, 1000));
    map.replace_media_info(&track("b.mp3", "Song", Some("Album"), 128, 900000));
    assert_eq!(paths(&map), vec!["b.mp3"]);
    map.replace_media_info(&track("c.mp3", "Song", Some("Album"), 64, 5000000));
    assert_eq!(paths(&map), vec!["b.mp3"]);
}

#[test]
fn different_albums_stay_apart_whatever_the_durations() {
    let mut map = TitleMap::new();
    map.replace_media_info(&track("a.mp3", "Song", Some("One"), 128, 200000));
    map.replace_media_info(&track("b.mp3", "Song", Some("Two"), 320, 200000));
    assert_eq!(paths(&map), vec!["a.mp3", "b.mp3"]);
    assert!(!is_duplicate(
        &track("a.mp3", "Song", Some("One"), 128, 200000),
        &track("b.mp3", "Song", Some("one"), 128, 200000)
    ));
}

#[test]
fn different_titles_are_never_merged() {
    let mut map = TitleMap::new();
    map.replace_media_info(&track("a.mp3", "Song", Some("Album"), 128, 200000));
    map.replace_media_info(&track("b.mp3", "song", Some("Album"), 128, 200000));
    map.replace_media_info(&track("c.mp3", "Song ", None, 128, 200000));
    assert_eq!(map.len(), 3);
}

#[test]
fn equal_quality_keeps_the_record_held() {
    let mut map = TitleMap::new();
    map.replace_media_info(&track("a.mp3", "Song", None, 128, 200000));
    let second = map.replace_media_info(&track("b.mp3", "Song", None, 128, 200000));
    assert_eq!(paths(&map), vec!["a.mp3"]);
    assert_eq!(second.verdict, Verdict::Discarded);
}

#[test]
fn the_last_of_several_matches_is_the_one_held_against() {
    let mut map = TitleMap::new();
    map.replace_media_info(&track("a.mp3", "Song", None, 100, 200000));
    map.replace_media_info(&track("b.mp3", "Song", None, 300, 202000));
    assert_eq!(map.len(), 2);
    let third = map.replace_media_info(&track("c.mp3", "Song", None, 200, 201000));
    assert_eq!(third.held_path, Some("b.mp3".to_string()));
    assert_eq!(third.verdict, Verdict::Discarded);
    assert_eq!(paths(&map), vec!["a.mp3", "b.mp3"]);
}

#[test]
fn a_replacement_goes_to_the_end_of_its_bucket() {
    let mut map = TitleMap::new();
    map.replace_media_info(&track("a.mp3", "Song", Some("One"), 100, 200000));
    map.replace_media_info(&track("b.mp3", "Song", Some("Two"), 100, 200000));
    map.replace_media_info(&track("x.mp3", "Other", None, 100, 200000));
    let better = map.replace_media_info(&track("c.mp3", "Song", Some("One"), 320, 200000));
    assert_eq!(better.verdict, Verdict::Replaced);
    assert_eq!(better.held_path, Some("a.mp3".to_string()));
    assert_eq!(paths(&map), vec!["b.mp3", "x.mp3", "c.mp3"]);
}

#[test]
fn records_added_as_they_are_are_not_compared() {
    let mut map = TitleMap::new();
    map.add_media_info(&track("a.mp3", "Song", Some("Album"), 128, 200000));
    map.add_media_info(&track("b.mp3", "Song", Some("Album"), 320, 200000));
    assert_eq!(paths(&map), vec!["a.mp3", "b.mp3"]);
    let records = map.into_records();
    assert_eq!(records.len(), 2);
}

#[test]
fn a_title_and_album_that_are_held_are_found() {
    let mut map = TitleMap::new();
    assert!(!map.is_exists(&"Song".to_string(), &"Album".to_string()));
    map.add_media_info(&track("a.mp3", "Song", Some("Album"), 128, 200000));
    map.add_media_info(&track("b.mp3", "Bare", None, 128, 200000));
    assert!(map.is_exists(&"Song".to_string(), &"Album".to_string()));
    assert!(!map.is_exists(&"Song".to_string(), &"Other".to_string()));
    assert!(!map.is_exists(&"Other".to_string(), &"Album".to_string()));
    assert!(!map.is_exists(&"Bare".to_string(), &"".to_string()));
}

#[test]
fn the_bucket_of_a_title_holds_its_records_in_order() {
    let mut map = TitleMap::new();
    map.replace_media_info(&track("a.mp3", "Song", Some("One"), 100, 200000));
    map.replace_media_info(&track("x.mp3", "Other", None, 100, 200000));
    map.replace_media_info(&track("b.mp3", "Song", Some("Two"), 100, 200000));
    map.replace_media_info(&track("c.mp3", "Song", Some("One"), 320, 200000));
    let bucket: Vec<String> =
        map.bucket(&"Song".to_string()).iter().map(|r| r.file_path().to_string()).collect();
    assert_eq!(bucket, vec!["b.mp3", "c.mp3"]);
    let other: Vec<String> =
        map.bucket(&"Other".to_string()).iter().map(|r| r.file_path().to_string()).collect();
    assert_eq!(other, vec!["x.mp3"]);
    assert!(map.bucket(&"None".to_string()).is_empty());
}
