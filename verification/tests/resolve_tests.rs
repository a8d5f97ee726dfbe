use music_dedup::report::Verdict;
use music_dedup::identity::update_media_info;
use music_dedup::identity::IdMap;
use music_dedup::output::plan_output;
use music_dedup::record::MediaFileInfo;
use music_dedup::resolve::resolve;
use music_dedup::resolve::resolve_in_order;
use music_dedup::resolve::resolve_titles;

fn rec(
    path: &str,
    id: Option<u64>,
    title: &str,
    album: Option<&str>,
    bitrate: u32,
    duration: u128,
) -> MediaFileInfo {
    MediaFileInfo::new(
        path.to_string(),
        id,
        album.map(|a| a.to_string()),
        title.to_string(),
        bitrate,
        duration,
    )
    .unwrap()
}

fn sorted_paths(records: &[MediaFileInfo]) -> Vec<String> {
    let mut paths: Vec<String> = records.iter().map(|r| r.file_path().to_string()).collect();
    paths.sort();
    paths
}

#[test]
fn two_qualities_of_one_id_leave_the_better_one() {
    let survivors = resolve(vec![
        rec("low.mp3", Some(42), "Song", None, 128, 200000),
        rec("high.mp3", Some(42), "Song", None, 320, 200000),
    ]);
    assert_eq!(sorted_paths(survivors.records()), vec!["high.mp3"]);
}

#[test]
fn records_without_id_are_resolved_by_title_in_their_order() {
    let survivors = resolve(vec![
        rec("a.mp3", None, "Song", None, 128, 200000),
        rec("b.mp3", None, "Song", None, 128, 200900),
        rec("c.mp3", None, "Song", None, 128, 206000),
        rec("d.mp3", None, "Tune", Some("X"), 128, 1000),
        rec("e.mp3", None, "Tune", Some("X"), 64, 999000),
    ]);
    let paths: Vec<&str> = survivors.records().iter().map(|r| r.file_path()).collect();
    assert_eq!(paths, vec!["b.mp3", "c.mp3", "d.mp3"]);
}

#[test]
fn a_record_without_id_is_held_against_a_survivor_by_id() {
    let survivors = resolve(vec![
        rec("untagged.mp3", None, "Song", None, 320, 200100),
        rec("low.mp3", Some(1), "Song", Some("Album"), 128, 200000),
        rec("high.mp3", Some(1), "Song", Some("Album"), 192, 200000),
    ]);
    assert_eq!(sorted_paths(survivors.records()), vec!["untagged.mp3"]);
    let survivors = resolve(vec![
        rec("untagged.mp3", None, "Song", None, 128, 200100),
        rec("high.mp3", Some(1), "Song", Some("Album"), 192, 200000),
    ]);
    assert_eq!(sorted_paths(survivors.records()), vec!["high.mp3"]);
}

#[test]
fn survivors_by_id_are_not_merged_with_each_other() {
    let survivors = resolve(vec![
        rec("a.mp3", Some(1), "Song", Some("Album"), 128, 200000),
        rec("b.mp3", Some(2), "Song", Some("Album"), 320, 200000),
    ]);
    assert_eq!(sorted_paths(survivors.records()), vec!["a.mp3", "b.mp3"]);
}

#[test]
fn nothing_in_gives_nothing_out() {
    let survivors = resolve(Vec::new());
    assert_eq!(survivors.len(), 0);
}

#[test]
fn a_given_order_of_survivors_gives_one_result() {
    let seed = vec![
        rec("one.mp3", Some(1), "Song", None, 100, 200000),
        rec("two.mp3", Some(2), "Song", None, 300, 202000),
    ];
    let deferred = vec![
        rec("x.mp3", None, "Song", None, 200, 201000),
        rec("y.mp3", None, "Song", None, 400, 203000),
        rec("z.mp3", None, "Else", None, 1, 1),
    ];
    let (map, reports) = resolve_in_order(&seed, &deferred);
    let paths: Vec<&str> = map.records().iter().map(|r| r.file_path()).collect();
    assert_eq!(paths, vec!["one.mp3", "y.mp3", "z.mp3"]);
    assert_eq!(reports.len(), 3);
    assert_eq!(reports[0].verdict, Verdict::Discarded);
    assert_eq!(reports[0].held_path, Some("two.mp3".to_string()));
    assert_eq!(reports[1].verdict, Verdict::Replaced);
    assert_eq!(reports[1].held_path, Some("two.mp3".to_string()));
    assert_eq!(reports[2].verdict, Verdict::Added);
    assert_eq!(reports[2].held_path, None);
}

#[test]
fn the_title_pass_starts_from_the_survivors_of_the_id_pass() {
    let mut id_map = IdMap::new();
    let mut deferred = Vec::new();
    let found = vec![
        rec("a.mp3", Some(1), "Song", None, 128, 200000),
        rec("b.mp3", None, "Song", None, 320, 200500),
        rec("c.mp3", Some(1), "Song", None, 192, 200000),
        rec("d.mp3", None, "Other", None, 128, 1),
    ];
    for record in found {
        update_media_info(&mut id_map, &mut deferred, record);
    }
    let (map, reports) = resolve_titles(&id_map, &deferred);
    assert_eq!(sorted_paths(map.records()), vec!["b.mp3", "d.mp3"]);
    assert_eq!(reports.len(), 2);
    assert_eq!(reports[0].verdict, Verdict::Replaced);
    assert_eq!(reports[0].held_path, Some("c.mp3".to_string()));
    assert_eq!(reports[1].verdict, Verdict::Added);
}

#[test]
fn survivors_are_planned_without_overwriting() {
    let survivors = resolve(vec![
        rec("one/Song.mp3", None, "Song", Some("A"), 128, 200000),
        rec("two/Song(1).mp3", None, "Song", Some("B"), 128, 200000),
        rec("three/Song(1).mp3", None, "Song", Some("A"), 64, 200000),
    ]);
    let plan = plan_output(survivors.records(), &vec!["Song(1).mp3".to_string()], false);
    let chosen: Vec<(&str, &str)> =
        plan.iter().map(|c| (c.source.as_str(), c.file_name.as_str())).collect();
    assert_eq!(
        chosen,
        vec![("one/Song.mp3", "Song.mp3"), ("two/Song(1).mp3", "Song(2).mp3")]
    );
}
