use knam::rename::{plan_rename, target_name, Entry, Plan};
use knam::resolve::{candidate_name, get_name_iter};
use knam::search::{Search, Step, FIRST_TOP, REACH, STRIDE};
use regex::Regex;
use std::cell::{Cell, RefCell};
use std::collections::HashSet;

/// A directory that holds the candidates of `x` and `.txt` with the given indices.
fn directory(indices: impl IntoIterator<Item = u64>) -> HashSet<String> {
    indices.into_iter().map(|i| format!("x ({i}).txt")).collect()
}

fn resolve_in(dir: &HashSet<String>) -> Option<String> {
    get_name_iter("x", ".txt", |name: &str| dir.contains(name))
}

/// Runs the machine against a set of taken indices and lists what it asked for.
fn run(taken: &HashSet<u64>) -> (Vec<u64>, Step) {
    let mut search = Search::new();
    let mut asked = Vec::new();
    loop {
        let index = search.probe();
        asked.push(index);
        match search.step(taken.contains(&index)) {
            Step::Ask(after) => search = after,
            done => return (asked, done),
        }
    }
}

#[test]
fn gap_in_the_first_window_is_found() {
    let dir = directory([1, 2, 3, 5]);
    assert_eq!(resolve_in(&dir), Some("x (4).txt".to_string()));
}

#[test]
fn empty_directory_gives_index_one() {
    let dir = directory([]);
    assert_eq!(resolve_in(&dir), Some("x (1).txt".to_string()));
}

#[test]
fn forty_taken_indices_give_forty_one() {
    let dir = directory(1..=40);
    assert_eq!(resolve_in(&dir), Some("x (41).txt".to_string()));
}

#[test]
fn a_run_of_taken_indices_gives_the_next() {
    for count in [0u64, 1, 14, 15, 16, 17, 31, 32, 33, 47, 48, 49, 63, 64, 79, 80, 81, 200, 1000] {
        let dir = directory(1..=count);
        assert_eq!(resolve_in(&dir), Some(format!("x ({}).txt", count + 1)), "count {count}");
    }
}

#[test]
fn the_result_need_not_be_the_lowest_free_index() {
    assert_eq!(resolve_in(&directory([16])), Some("x (17).txt".to_string()));
    assert_eq!(resolve_in(&directory([16, 48])), Some("x (49).txt".to_string()));
    assert_eq!(resolve_in(&directory([16, 32])), Some("x (33).txt".to_string()));
    assert_eq!(resolve_in(&directory([16, 17, 18])), Some("x (19).txt".to_string()));
}

#[test]
fn other_names_do_not_count() {
    let mut dir = directory([]);
    dir.insert("x.txt".to_string());
    dir.insert("x (1).csv".to_string());
    dir.insert("y (1).txt".to_string());
    dir.insert("x(1).txt".to_string());
    dir.insert("x (01).txt".to_string());
    assert_eq!(resolve_in(&dir), Some("x (1).txt".to_string()));
}

#[test]
fn the_name_returned_was_reported_free() {
    for count in [0u64, 3, 16, 40, 100] {
        let dir = directory(1..=count);
        let name = resolve_in(&dir).unwrap();
        assert!(!dir.contains(&name));
    }
}

#[test]
fn questions_follow_the_window() {
    let asked = RefCell::new(Vec::new());
    let dir = directory(1..=40);
    let out = get_name_iter("x", ".txt", |name: &str| {
        asked.borrow_mut().push(name.to_string());
        dir.contains(name)
    });
    assert_eq!(out, Some("x (41).txt".to_string()));
    let mut expected = vec![16u64, 48, 32];
    expected.extend(33..=41);
    let expected: Vec<String> = expected.iter().map(|i| format!("x ({i}).txt")).collect();
    assert_eq!(*asked.borrow(), expected);
}

#[test]
fn nothing_is_returned_when_every_scanned_name_is_reported_taken() {
    let calls = Cell::new(0u32);
    let out = get_name_iter("x", ".txt", |_: &str| {
        calls.set(calls.get() + 1);
        calls.get() > 1
    });
    assert_eq!(out, None);
    assert_eq!(calls.get(), 17);
}

#[test]
fn candidate_name_puts_the_index_in_brackets() {
    assert_eq!(candidate_name("x", 4, ".txt"), "x (4).txt");
    assert_eq!(candidate_name("report", 41, ".csv"), "report (41).csv");
    assert_eq!(candidate_name("dir", 1, ""), "dir (1)");
    assert_eq!(candidate_name("", 0, ""), " (0)");
    assert_eq!(candidate_name("é", u64::MAX, ".✓"), "é (18446744073709551615).✓");
}

#[test]
fn search_starts_at_the_first_window() {
    assert_eq!((FIRST_TOP, STRIDE, REACH), (16, 32, 16));
    let search = Search::new();
    assert_eq!(search, Search::Widen { top: 16 });
    assert_eq!(search.probe(), 16);
}

#[test]
fn search_widens_by_thirty_two() {
    let search = Search::Widen { top: 16 };
    assert_eq!(search.step(true), Step::Ask(Search::Widen { top: 48 }));
    let search = Search::Widen { top: 48 };
    assert_eq!(search.step(true), Step::Ask(Search::Widen { top: 80 }));
    assert_eq!(search.step(false), Step::Ask(Search::Halve { top: 48 }));
    let search = Search::Widen { top: 16 };
    assert_eq!(search.step(false), Step::Ask(Search::Scan { next: 1, last: 16 }));
}

#[test]
fn search_halves_the_last_stride() {
    let search = Search::Halve { top: 48 };
    assert_eq!(search.probe(), 32);
    assert_eq!(search.step(true), Step::Ask(Search::Scan { next: 33, last: 48 }));
    assert_eq!(search.step(false), Step::Ask(Search::Scan { next: 17, last: 32 }));
}

#[test]
fn search_scans_upwards() {
    let search = Search::Scan { next: 33, last: 48 };
    assert_eq!(search.probe(), 33);
    assert_eq!(search.step(false), Step::Found(33));
    assert_eq!(search.step(true), Step::Ask(Search::Scan { next: 34, last: 48 }));
    let search = Search::Scan { next: 48, last: 48 };
    assert_eq!(search.step(false), Step::Found(48));
    assert_eq!(search.step(true), Step::GiveUp);
}

#[test]
fn search_gives_up_where_the_window_cannot_move() {
    let last_top = u64::MAX - 15;
    assert_eq!(last_top % 32, 16);
    let search = Search::Widen { top: last_top };
    assert_eq!(search.probe(), last_top);
    assert_eq!(search.step(true), Step::GiveUp);
    assert_eq!(search.step(false), Step::Ask(Search::Halve { top: last_top }));
    let search = Search::Widen { top: last_top - 32 };
    assert_eq!(search.step(true), Step::Ask(Search::Widen { top: last_top }));
}

#[test]
fn machine_asks_few_questions() {
    let taken: HashSet<u64> = [1, 2, 3, 5].into_iter().collect();
    assert_eq!(run(&taken), (vec![16, 1, 2, 3, 4], Step::Found(4)));
    let taken: HashSet<u64> = (1..=40).collect();
    let (asked, done) = run(&taken);
    assert_eq!(asked, vec![16, 48, 32, 33, 34, 35, 36, 37, 38, 39, 40, 41]);
    assert_eq!(done, Step::Found(41));
    let taken: HashSet<u64> = (1..=10_000).collect();
    let (asked, done) = run(&taken);
    assert_eq!(done, Step::Found(10_001));
    assert_eq!(asked.len(), 314 + 1 + 1);
    assert!(asked.len() <= 10_000 / 32 + 19);
}

#[test]
fn target_name_keeps_a_free_name() {
    let dir: HashSet<String> = ["other.txt".to_string()].into_iter().collect();
    let out = target_name("x", ".txt", |name: &str| dir.contains(name));
    assert_eq!(out, Some("x.txt".to_string()));
}

#[test]
fn target_name_resolves_a_collision() {
    let mut dir = directory([1, 2]);
    dir.insert("x.txt".to_string());
    let out = target_name("x", ".txt", |name: &str| dir.contains(name));
    assert_eq!(out, Some("x (3).txt".to_string()));
    let dir: HashSet<String> = ["x".to_string()].into_iter().collect();
    let out = target_name("x", "", |name: &str| dir.contains(name));
    assert_eq!(out, Some("x (1)".to_string()));
}

#[test]
fn suffix_keeps_the_extension_of_files_only() {
    let file = Entry { is_directory: false, extension: Some("csv".to_string()) };
    assert_eq!(file.suffix_text(), ".csv");
    let bare = Entry { is_directory: false, extension: None };
    assert_eq!(bare.suffix_text(), "");
    let dotted = Entry { is_directory: false, extension: Some(String::new()) };
    assert_eq!(dotted.suffix_text(), ".");
    let dir = Entry { is_directory: true, extension: Some("d".to_string()) };
    assert_eq!(dir.suffix_text(), "");
    let dir = Entry { is_directory: true, extension: None };
    assert_eq!(dir.suffix_text(), "");
}

#[test]
fn a_file_is_renamed_after_the_template() {
    let mut dir: HashSet<String> = ["report.csv".to_string()].into_iter().collect();
    let entry = Entry { is_directory: false, extension: Some("csv".to_string()) };
    let plan = plan_rename(&entry, false, "${rand:8}", |name: &str| dir.contains(name));
    let new_name = match plan {
        Plan::Rename(name) => name,
        other => panic!("no rename: {other:?}"),
    };
    assert!(dir.remove("report.csv"));
    assert!(dir.insert(new_name));
    assert!(!dir.contains("report.csv"));
    let shape = Regex::new(r"^[A-Za-z0-9]{8}\.csv$").unwrap();
    assert_eq!(dir.iter().filter(|name| shape.is_match(name)).count(), 1);
    assert_eq!(dir.len(), 1);
}

#[test]
fn an_ignored_directory_is_left_alone() {
    let dir: HashSet<String> = ["photos".to_string()].into_iter().collect();
    let entry = Entry { is_directory: true, extension: None };
    let plan = plan_rename(&entry, true, "${rand:8}", |name: &str| dir.contains(name));
    assert_eq!(plan, Plan::Leave);
    assert!(dir.contains("photos"));
    assert_eq!(dir.len(), 1);
}

#[test]
fn a_directory_is_renamed_without_suffix() {
    let dir: HashSet<String> = ["photos.d".to_string()].into_iter().collect();
    let entry = Entry { is_directory: true, extension: Some("d".to_string()) };
    let plan = plan_rename(&entry, false, "album", |name: &str| dir.contains(name));
    assert_eq!(plan, Plan::Rename("album".to_string()));
}

#[test]
fn ignoring_directories_does_not_touch_files() {
    let dir: HashSet<String> = HashSet::new();
    let entry = Entry { is_directory: false, extension: Some("txt".to_string()) };
    let plan = plan_rename(&entry, true, "note", |name: &str| dir.contains(name));
    assert_eq!(plan, Plan::Rename("note.txt".to_string()));
}

#[test]
fn a_taken_name_gets_an_index() {
    let dir: HashSet<String> =
        ["note.txt", "note (1).txt", "note (2).txt"].iter().map(|s| s.to_string()).collect();
    let entry = Entry { is_directory: false, extension: Some("txt".to_string()) };
    let plan = plan_rename(&entry, false, "note", |name: &str| dir.contains(name));
    assert_eq!(plan, Plan::Rename("note (3).txt".to_string()));
}

#[test]
fn an_entry_without_free_name_is_blocked() {
    let calls = Cell::new(0u32);
    let entry = Entry { is_directory: false, extension: None };
    let plan = plan_rename(&entry, false, "note", |_: &str| {
        calls.set(calls.get() + 1);
        calls.get() != 2
    });
    assert_eq!(plan, Plan::Blocked);
}

#[test]
fn candidates_with_different_indices_differ() {
    let mut seen = HashSet::new();
    for i in (0..300u64).chain([u64::MAX - 1, u64::MAX]) {
        assert!(seen.insert(candidate_name("x", i, ".txt")));
    }
    assert_ne!(candidate_name("x", 1, "0)"), candidate_name("x", 10, ")"));
}

#[test]
fn target_name_result_is_free() {
    for count in [0u64, 1, 16, 33, 100] {
        let mut dir = directory(1..=count);
        dir.insert("x.txt".to_string());
        let name = target_name("x", ".txt", |name: &str| dir.contains(name)).unwrap();
        assert!(!dir.contains(&name));
        assert!(name.ends_with(".txt"));
    }
}
