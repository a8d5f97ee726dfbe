use music_dedup::filename::decimal_string;
use music_dedup::filename::extension;
use music_dedup::filename::file_name;
use music_dedup::filename::get_file_name_without_count;
use music_dedup::filename::set_file_name_count;
use music_dedup::filename::stem_without_count;
use regex::Regex;

#[test]
fn a_count_before_the_extension_is_taken_off() {
    assert_eq!(get_file_name_without_count("Song(2).mp3"), "Song.mp3");
    assert_eq!(get_file_name_without_count("Song(10).flac"), "Song.flac");
    assert_eq!(get_file_name_without_count("Song(0).mp3"), "Song.mp3");
    assert_eq!(get_file_name_without_count("Song(007).mp3"), "Song.mp3");
}

#[test]
fn a_name_without_a_count_is_unchanged() {
    assert_eq!(get_file_name_without_count("Song.mp3"), "Song.mp3");
    assert_eq!(get_file_name_without_count("Song"), "Song");
    assert_eq!(get_file_name_without_count("Song ().mp3"), "Song ().mp3");
    assert_eq!(get_file_name_without_count("Song(a).mp3"), "Song(a).mp3");
    assert_eq!(get_file_name_without_count("Song(1a).mp3"), "Song(1a).mp3");
    assert_eq!(get_file_name_without_count("Song(1) .mp3"), "Song(1) .mp3");
    assert_eq!(get_file_name_without_count("Song1).mp3"), "Song1).mp3");
    assert_eq!(get_file_name_without_count("Song(1.mp3"), "Song(1.mp3");
    assert_eq!(get_file_name_without_count(" Song .mp3"), " Song .mp3");
    assert_eq!(get_file_name_without_count(""), "");
}

#[test]
fn only_a_count_at_the_end_of_the_stem_is_taken_off() {
    assert_eq!(get_file_name_without_count("(1)Song.mp3"), "(1)Song.mp3");
    assert_eq!(get_file_name_without_count("So(1)ng.mp3"), "So(1)ng.mp3");
    assert_eq!(get_file_name_without_count("Song.mp3(1)"), "Song.mp3(1)");
    assert_eq!(get_file_name_without_count("Song (2).mp3"), "Song .mp3");
}

#[test]
fn a_count_is_taken_off_a_name_without_extension() {
    assert_eq!(get_file_name_without_count("Song(3)"), "Song");
    assert_eq!(get_file_name_without_count(".hidden(3)"), ".hidden");
}

#[test]
fn the_directory_is_left_out_of_the_canonical_name() {
    assert_eq!(get_file_name_without_count("music/old/Song(2).mp3"), "Song.mp3");
    assert_eq!(get_file_name_without_count("/Song.mp3"), "Song.mp3");
    assert_eq!(get_file_name_without_count("a.b/Song(1)"), "Song");
    assert_eq!(get_file_name_without_count("dir(1)/Song.mp3"), "Song.mp3");
}

#[test]
fn counts_behind_one_another_lose_one_with_each_pass() {
    assert_eq!(get_file_name_without_count("Song(1)(2).mp3"), "Song(1).mp3");
    assert_eq!(get_file_name_without_count("Song(1).mp3"), "Song.mp3");
}

#[test]
fn the_extension_follows_the_last_dot() {
    assert_eq!(get_file_name_without_count("a.b(1).c"), "a.b.c");
    assert_eq!(get_file_name_without_count("a(1).b.c"), "a(1).b.c");
    assert_eq!(get_file_name_without_count("Song(1)."), "Song.");
    assert_eq!(get_file_name_without_count(".Song(1)"), ".Song");
}

#[test]
fn other_digits_than_zero_to_nine_are_no_count() {
    assert_eq!(get_file_name_without_count("Song(\u{0663}).mp3"), "Song(\u{0663}).mp3");
    assert_eq!(get_file_name_without_count("Song(\u{ff11}).mp3"), "Song(\u{ff11}).mp3");
}

#[test]
fn names_beyond_ascii_keep_their_characters() {
    assert_eq!(get_file_name_without_count("\u{6b4c}\u{66f2}(2).mp3"), "\u{6b4c}\u{66f2}.mp3");
    assert_eq!(set_file_name_count("\u{6b4c}\u{66f2}.mp3", 3), "\u{6b4c}\u{66f2}(3).mp3");
}

#[test]
fn a_count_goes_on_the_end_of_the_stem() {
    assert_eq!(set_file_name_count("Song.mp3", 1), "Song(1).mp3");
    assert_eq!(set_file_name_count("Song.mp3", 2), "Song(2).mp3");
    assert_eq!(set_file_name_count("Song", 12), "Song(12)");
    assert_eq!(set_file_name_count("a.b.c", 5), "a.b(5).c");
    assert_eq!(set_file_name_count(".hidden", 1), ".hidden(1)");
    assert_eq!(set_file_name_count("Song.", 1), "Song(1).");
    assert_eq!(set_file_name_count("dir/Song.mp3", 4), "Song(4).mp3");
    assert_eq!(set_file_name_count("Song.mp3", 0), "Song(0).mp3");
}

#[test]
fn large_counts_are_written_in_full() {
    assert_eq!(set_file_name_count("Song.mp3", 1234567890), "Song(1234567890).mp3");
    assert_eq!(
        set_file_name_count("Song.mp3", u64::MAX),
        "Song(18446744073709551615).mp3"
    );
}

#[test]
fn decimal_text_has_no_leading_zeros() {
    assert_eq!(decimal_string(0), "0");
    assert_eq!(decimal_string(9), "9");
    assert_eq!(decimal_string(10), "10");
    assert_eq!(decimal_string(101), "101");
    assert_eq!(decimal_string(u64::MAX), "18446744073709551615");
}

#[test]
fn putting_a_count_on_and_taking_it_off_gives_the_name_back() {
    let names = ["Song.mp3", "Song", ".hidden", "a.b.c", "Song(1).mp3", "x.", "(1).mp3", ""];
    let counts = [0u64, 1, 2, 9, 10, 99, 100, 12345];
    for name in names {
        for n in counts {
            let counted = set_file_name_count(name, n);
            assert_eq!(get_file_name_without_count(&counted), name);
            let bare = get_file_name_without_count(&counted);
            assert_eq!(set_file_name_count(&bare, n), counted);
        }
    }
}

#[test]
fn taking_the_count_off_twice_changes_nothing_more() {
    let names = ["Song(2).mp3", "Song.mp3", "Song", "a.b(7).c", "dir/Song(1).flac", ".x(1)"];
    for name in names {
        let once = get_file_name_without_count(name);
        let twice = get_file_name_without_count(&once);
        assert_eq!(twice, once);
    }
}

#[test]
fn a_stem_that_is_only_a_count_leaves_the_extension() {
    assert_eq!(get_file_name_without_count("(1).mp3"), ".mp3");
    assert_eq!(stem_without_count("(1).mp3"), "");
}

#[test]
fn the_title_of_an_untagged_file_is_its_stem_without_count() {
    assert_eq!(stem_without_count("music/Song(2).mp3"), "Song");
    assert_eq!(stem_without_count("Song.mp3"), "Song");
    assert_eq!(stem_without_count("Song (2).mp3"), "Song ");
    assert_eq!(stem_without_count("a.b(3).flac"), "a.b");
    assert_eq!(stem_without_count(".hidden"), ".hidden");
}

#[test]
fn the_file_name_follows_the_last_separator() {
    assert_eq!(file_name("a/b/c.mp3"), "c.mp3");
    assert_eq!(file_name("c.mp3"), "c.mp3");
    assert_eq!(file_name("a/"), "");
    assert_eq!(file_name("/a"), "a");
}

#[test]
fn the_extension_is_what_follows_the_stem() {
    assert_eq!(extension("a/b/c.mp3"), Some("mp3".to_string()));
    assert_eq!(extension("c.tar.gz"), Some("gz".to_string()));
    assert_eq!(extension("c."), Some(String::new()));
    assert_eq!(extension("c"), None);
    assert_eq!(extension(".hidden"), None);
    assert_eq!(extension("dir.d/c"), None);
}

#[test]
fn the_stem_is_stripped_as_the_pattern_of_a_count_says() {
    let pattern = Regex::new(r"\([0-9]+\)$").unwrap();
    let stems = [
        "Song", "Song(1)", "Song(12)", "Song()", "Song(1", "Song1)", "(1)", "((1))", "Song(1)(2)",
        "Song(1) ", "Song (1)", "S(o)ng(3)", "Song(x1)", "Song(1x)", ")(", "(0)", "12", "(12",
    ];
    for stem in stems {
        let expected = pattern.replace_all(stem, "").to_string();
        assert_eq!(stem_without_count(stem), expected);
        let name = format!("{}.mp3", stem);
        assert_eq!(stem_without_count(&name), expected);
        assert_eq!(get_file_name_without_count(&name), format!("{}.mp3", expected));
    }
}
