use music_dedup::output::choose_file_name;
use music_dedup::output::plan_output;
use music_dedup::record::MediaFileInfo;

fn at(path: &str) -> MediaFileInfo {
    MediaFileInfo::new(path.to_string(), None, None, "Song".to_string(), 128, 1000).unwrap()
}

fn names(list: &[&str]) -> Vec<String> {
    list.iter().map(|n| n.to_string()).collect()
}

#[test]
fn a_preview_plans_the_first_free_count() {
    let existing = names(&["Song.mp3"]);
    let plan = plan_output(&vec![at("in/Song.mp3")], &existing, true);
    assert_eq!(plan.len(), 1);
    assert_eq!(plan[0].source, "in/Song.mp3");
    assert_eq!(plan[0].file_name, "Song(1).mp3");
    assert_eq!(plan[0].count, 1);
    assert_eq!(existing, names(&["Song.mp3"]));
}

#[test]
fn colliding_survivors_get_the_name_and_then_counts() {
    let records = vec![at("a/Song.mp3"), at("b/Song.mp3"), at("c/Song(5).mp3")];
    let plan = plan_output(&records, &Vec::new(), false);
    let chosen: Vec<&str> = plan.iter().map(|c| c.file_name.as_str()).collect();
    assert_eq!(chosen, vec!["Song.mp3", "Song(1).mp3", "Song(2).mp3"]);
    let counts: Vec<u64> = plan.iter().map(|c| c.count).collect();
    assert_eq!(counts, vec![0, 1, 2]);
    let sources: Vec<&str> = plan.iter().map(|c| c.source.as_str()).collect();
    assert_eq!(sources, vec!["a/Song.mp3", "b/Song.mp3", "c/Song(5).mp3"]);
}

#[test]
fn a_free_name_is_taken_as_it_is() {
    let (name, count) = choose_file_name(&names(&["Other.mp3"]), "in/Song(3).mp3");
    assert_eq!(name, "Song.mp3");
    assert_eq!(count, 0);
}

#[test]
fn counts_that_are_taken_are_passed_over() {
    let occupied = names(&["Song.mp3", "Song(1).mp3", "Song(2).mp3", "Song(4).mp3"]);
    let (name, count) = choose_file_name(&occupied, "Song.mp3");
    assert_eq!(name, "Song(3).mp3");
    assert_eq!(count, 3);
}

#[test]
fn a_count_is_free_where_only_later_counts_are_taken() {
    let occupied = names(&["Song.mp3", "Song(2).mp3"]);
    let (name, count) = choose_file_name(&occupied, "Song(2).mp3");
    assert_eq!(name, "Song(1).mp3");
    assert_eq!(count, 1);
}

#[test]
fn a_name_without_extension_gets_its_count_at_the_end() {
    let (name, count) = choose_file_name(&names(&["Song"]), "Song");
    assert_eq!(name, "Song(1)");
    assert_eq!(count, 1);
}

#[test]
fn counts_go_past_nine() {
    let mut occupied = names(&["Song.mp3"]);
    for n in 1..=10 {
        occupied.push(format!("Song({}).mp3", n));
    }
    let (name, count) = choose_file_name(&occupied, "Song.mp3");
    assert_eq!(name, "Song(11).mp3");
    assert_eq!(count, 11);
}

#[test]
fn a_plan_names_nothing_that_exists_and_nothing_twice() {
    let existing = names(&["Song.mp3", "Song(2).mp3", "Tune.flac"]);
    let records = vec![
        at("a/Song.mp3"),
        at("b/Song(9).mp3"),
        at("c/Tune.flac"),
        at("d/Song.mp3"),
        at("e/Tune(1).flac"),
        at("f/New.wav"),
    ];
    let plan = plan_output(&records, &existing, false);
    let chosen: Vec<&str> = plan.iter().map(|c| c.file_name.as_str()).collect();
    assert_eq!(
        chosen,
        vec!["Song(1).mp3", "Song(3).mp3", "Tune(1).flac", "Song(4).mp3", "Tune(2).flac", "New.wav"]
    );
    for (i, copy) in plan.iter().enumerate() {
        assert!(!existing.contains(&copy.file_name));
        for other in &plan[..i] {
            assert_ne!(other.file_name, copy.file_name);
        }
    }
}

#[test]
fn a_dry_run_takes_no_name() {
    let records = vec![at("a/Song.mp3"), at("b/Song.mp3")];
    let plan = plan_output(&records, &names(&["Song.mp3"]), true);
    let chosen: Vec<&str> = plan.iter().map(|c| c.file_name.as_str()).collect();
    assert_eq!(chosen, vec!["Song(1).mp3", "Song(1).mp3"]);
}

#[test]
fn nothing_to_copy_gives_an_empty_plan() {
    let plan = plan_output(&Vec::new(), &names(&["Song.mp3"]), false);
    assert!(plan.is_empty());
}
