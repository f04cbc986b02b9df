use site_server::catalog::{projects, sort_names, Directory, Entry};

fn named(names: &[&str]) -> Directory {
    Directory::Entries(names.iter().map(|name| Entry::Name(name.to_string())).collect())
}

fn strings(names: &[&str]) -> Vec<String> {
    names.iter().map(|name| name.to_string()).collect()
}

#[test]
fn two_pages_are_listed_in_order() {
    assert_eq!(projects(named(&["b.html", "a.html"])), strings(&["a.html", "b.html"]));
}

#[test]
fn unreadable_directory_lists_nothing() {
    assert_eq!(projects(Directory::Unreadable), Vec::<String>::new());
}

#[test]
fn empty_directory_lists_nothing() {
    assert_eq!(projects(Directory::Entries(Vec::new())), Vec::<String>::new());
}

#[test]
fn entries_without_a_name_are_passed_over() {
    let dir = Directory::Entries(vec![
        Entry::Invalid,
        Entry::Name("gamma".to_string()),
        Entry::Invalid,
        Entry::Name("alpha".to_string()),
        Entry::Name("beta".to_string()),
        Entry::Invalid,
    ]);
    assert_eq!(projects(dir), strings(&["alpha", "beta", "gamma"]));
}

#[test]
fn only_invalid_entries_list_nothing() {
    let dir = Directory::Entries(vec![Entry::Invalid, Entry::Invalid]);
    assert_eq!(projects(dir), Vec::<String>::new());
}

#[test]
fn a_name_that_comes_twice_is_listed_twice() {
    assert_eq!(
        projects(named(&["b", "a", "b", "a", "c"])),
        strings(&["a", "a", "b", "b", "c"])
    );
}

#[test]
fn files_and_folders_are_listed_alike() {
    assert_eq!(
        projects(named(&["notes", "index.html", "img", "about.html"])),
        strings(&["about.html", "img", "index.html", "notes"])
    );
}

#[test]
fn a_single_entry_is_listed_alone() {
    assert_eq!(projects(named(&["only.html"])), strings(&["only.html"]));
}

#[test]
fn capitals_come_before_small_letters() {
    assert_eq!(
        projects(named(&["apple", "Zebra", "_draft", "10.html", "9.html"])),
        strings(&["10.html", "9.html", "Zebra", "_draft", "apple"])
    );
}

#[test]
fn a_name_comes_before_its_extensions() {
    assert_eq!(
        projects(named(&["ab", "a.html", "a", "", "aa"])),
        strings(&["", "a", "a.html", "aa", "ab"])
    );
}

#[test]
fn names_beyond_ascii_are_ordered_by_code_point() {
    // U+00E9, U+FF5E and U+1F600 ascend as code points; "z" stands before all three.
    assert_eq!(
        projects(named(&["\u{1F600}.html", "\u{FF5E}.html", "z.html", "\u{E9}.html"])),
        strings(&["z.html", "\u{E9}.html", "\u{FF5E}.html", "\u{1F600}.html"])
    );
}

#[test]
fn listing_agrees_with_the_standard_sort() {
    let raw = [
        "snake.html", "Pong.html", "life.html", "2048.html", "tetris", "maze.html", "boids.html",
        "snake", "ray.html", "\u{E9}tude.html", "life.htm", "maze.html",
    ];
    let mut expected = strings(&raw);
    expected.sort();
    assert_eq!(projects(named(&raw)), expected);
}

#[test]
fn sort_puts_names_in_ascending_order() {
    let mut names = strings(&["delta", "alpha", "charlie", "bravo"]);
    sort_names(&mut names);
    assert_eq!(names, strings(&["alpha", "bravo", "charlie", "delta"]));
}

#[test]
fn sort_leaves_an_ordered_list_alone() {
    let mut names = strings(&["a", "b", "c"]);
    sort_names(&mut names);
    assert_eq!(names, strings(&["a", "b", "c"]));
}

#[test]
fn sort_turns_a_descending_list_round() {
    let mut names = strings(&["e", "d", "c", "b", "a"]);
    sort_names(&mut names);
    assert_eq!(names, strings(&["a", "b", "c", "d", "e"]));
}

#[test]
fn sort_of_nothing_is_nothing() {
    let mut names: Vec<String> = Vec::new();
    sort_names(&mut names);
    assert!(names.is_empty());
}

#[test]
fn sort_keeps_every_copy() {
    let mut names = strings(&["x", "y", "x", "x", "y"]);
    sort_names(&mut names);
    assert_eq!(names, strings(&["x", "x", "x", "y", "y"]));
}

#[test]
fn sort_has_one_outcome_whatever_the_order_given() {
    let mut first = strings(&["m", "a", "z", "k", "a"]);
    let mut second = strings(&["a", "z", "a", "k", "m"]);
    sort_names(&mut first);
    sort_names(&mut second);
    assert_eq!(first, second);
    assert_eq!(first, strings(&["a", "a", "k", "m", "z"]));
}
