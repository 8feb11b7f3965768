use dir_usage::entry::{shown_name, Marker, PathData};
use dir_usage::report::{
    checked_data_from_directory, checked_total, get_data_from_directory, sort_by_size, Child,
};
use dir_usage::walk::{checked_size_of_directory, get_size_of_directory, FileKind, Metadata};

fn file(len: u64) -> Option<Metadata> {
    Some(Metadata { kind: FileKind::File, len })
}

fn dir() -> Option<Metadata> {
    Some(Metadata { kind: FileKind::Directory, len: 4096 })
}

fn other(len: u64) -> Option<Metadata> {
    Some(Metadata { kind: FileKind::Other, len })
}

fn child(name: &str, metadata: Option<Metadata>, walk: Vec<Option<Metadata>>) -> Child {
    Child { name: name.to_string(), metadata, walk }
}

fn brief(data: &[PathData]) -> Vec<(String, u64, Marker)> {
    data.iter().map(|d| (d.name.clone(), d.size, d.marker)).collect()
}

fn row(name: &str, size: u64, marker: Marker) -> (String, u64, Marker) {
    (name.to_string(), size, marker)
}

#[test]
fn a_walk_sums_the_regular_files_only() {
    let walk = vec![dir(), file(10), dir(), file(32), other(7), None, file(0), file(100)];
    assert_eq!(get_size_of_directory(&walk), 142);
    assert_eq!(checked_size_of_directory(&walk), Some(142));
}

#[test]
fn a_walk_without_files_sums_to_nothing() {
    assert_eq!(get_size_of_directory(&vec![]), 0);
    assert_eq!(get_size_of_directory(&vec![dir(), dir(), None, other(9)]), 0);
    assert_eq!(get_size_of_directory(&vec![other(55)]), 0);
}

#[test]
fn a_walk_may_reach_the_largest_size() {
    let walk = vec![file(u64::MAX - 5), dir(), file(5)];
    assert_eq!(get_size_of_directory(&walk), u64::MAX);
    assert_eq!(checked_size_of_directory(&walk), Some(u64::MAX));
}

#[test]
fn a_walk_beyond_the_largest_size_has_no_sum() {
    let walk = vec![file(u64::MAX - 5), dir(), file(6)];
    assert_eq!(checked_size_of_directory(&walk), None);
    let walk = vec![file(u64::MAX), other(1), file(1), file(3)];
    assert_eq!(checked_size_of_directory(&walk), None);
}

#[test]
fn two_files_and_an_empty_directory() {
    let children = vec![
        child("a", file(500), vec![]),
        child("b", file(2000), vec![]),
        child("c", dir(), vec![dir()]),
    ];
    let report = get_data_from_directory(&children);
    assert_eq!(
        brief(&report),
        vec![
            row("c", 0, Marker::Directory),
            row("a", 500, Marker::File),
            row("b", 2000, Marker::File),
            row("Total", 2500, Marker::Total),
        ]
    );
    let shown: Vec<String> = report.iter().map(|d| d.get_human_readable_size()).collect();
    assert_eq!(shown, vec!["0.000 B", "500.000 B", "1.953 KiB", "2.441 KiB"]);
}

#[test]
fn an_empty_directory_has_the_total_alone() {
    let report = get_data_from_directory(&vec![]);
    assert_eq!(brief(&report), vec![row("Total", 0, Marker::Total)]);
    assert_eq!(report[0].get_human_readable_size(), "0.000 B");
    assert_eq!(report[0].marker.glyph(), "");
}

#[test]
fn a_directory_counts_with_the_files_below_it() {
    let children = vec![
        child("src", dir(), vec![dir(), file(100), dir(), file(250), None, other(3)]),
        child("notes", file(40), vec![]),
    ];
    let report = get_data_from_directory(&children);
    assert_eq!(
        brief(&report),
        vec![
            row("notes", 40, Marker::File),
            row("src", 350, Marker::Directory),
            row("Total", 390, Marker::Total),
        ]
    );
}

#[test]
fn unreadable_and_special_children_are_left_out() {
    let children = vec![
        child("gone", None, vec![file(1000)]),
        child("link", other(77), vec![file(1000)]),
        child("kept", file(9), vec![file(1000)]),
    ];
    let data = get_data_from_directory(&children);
    assert_eq!(
        brief(&data),
        vec![row("kept", 9, Marker::File), row("Total", 9, Marker::Total)]
    );
    assert_eq!(checked_total(&children), Some(9));
}

#[test]
fn the_total_is_the_sum_of_the_other_rows() {
    let children = vec![
        child("x", file(7), vec![]),
        child("y", dir(), vec![file(11), file(13)]),
        child("z", file(0), vec![]),
        child("w", other(5), vec![]),
    ];
    let report = get_data_from_directory(&children);
    let totals: Vec<&PathData> = report.iter().filter(|d| d.marker == Marker::Total).collect();
    assert_eq!(totals.len(), 1);
    let others: u64 = report.iter().filter(|d| d.marker != Marker::Total).map(|d| d.size).sum();
    assert_eq!(totals[0].size, others);
    assert_eq!(others, 31);
    assert!(report.windows(2).all(|w| w[0].size <= w[1].size));
    assert!(report.iter().all(|d| d.size <= totals[0].size));
}

#[test]
fn rows_of_one_size_keep_their_order() {
    let mut data = vec![
        PathData { size: 5, name: "e".to_string(), marker: Marker::File },
        PathData { size: 1, name: "b".to_string(), marker: Marker::File },
        PathData { size: 5, name: "a".to_string(), marker: Marker::Directory },
        PathData { size: 0, name: "z".to_string(), marker: Marker::File },
        PathData { size: 1, name: "a".to_string(), marker: Marker::File },
        PathData { size: 5, name: "c".to_string(), marker: Marker::File },
    ];
    sort_by_size(&mut data);
    assert_eq!(
        brief(&data),
        vec![
            row("z", 0, Marker::File),
            row("b", 1, Marker::File),
            row("a", 1, Marker::File),
            row("e", 5, Marker::File),
            row("a", 5, Marker::Directory),
            row("c", 5, Marker::File),
        ]
    );
}

#[test]
fn sorting_agrees_with_a_stable_sort_by_key() {
    let mut state: u64 = 99;
    let mut data = Vec::new();
    for i in 0..200 {
        state = state.wrapping_mul(6364136223846793005).wrapping_add(1442695040888963407);
        data.push(PathData { size: (state >> 33) % 17, name: format!("n{}", i), marker: Marker::File });
    }
    let mut expected = brief(&data);
    expected.sort_by_key(|r| r.1);
    sort_by_size(&mut data);
    assert_eq!(brief(&data), expected);
}

#[test]
fn the_total_follows_a_lone_child_of_its_size() {
    let children = vec![child("only", file(64), vec![]), child("empty", file(0), vec![])];
    let report = get_data_from_directory(&children);
    assert_eq!(
        brief(&report),
        vec![
            row("empty", 0, Marker::File),
            row("only", 64, Marker::File),
            row("Total", 64, Marker::Total),
        ]
    );
}

#[test]
fn children_beyond_the_largest_size_have_no_report() {
    let children = vec![
        child("big", file(u64::MAX), vec![]),
        child("one", dir(), vec![file(1)]),
    ];
    assert_eq!(checked_total(&children), None);
    assert!(checked_data_from_directory(&children).is_none());
    let children = vec![child("deep", dir(), vec![file(u64::MAX), file(1)])];
    assert!(checked_data_from_directory(&children).is_none());
}

#[test]
fn children_within_the_largest_size_have_a_report() {
    let children = vec![
        child("big", file(u64::MAX - 1), vec![]),
        child("one", dir(), vec![file(1)]),
    ];
    assert_eq!(checked_total(&children), Some(u64::MAX));
    let report = checked_data_from_directory(&children).unwrap();
    assert_eq!(
        brief(&report),
        vec![
            row("one", 1, Marker::Directory),
            row("big", u64::MAX - 1, Marker::File),
            row("Total", u64::MAX, Marker::Total),
        ]
    );
}

#[test]
fn a_mixed_directory_is_sorted_by_size() {
    let children = vec![
        child("b", file(2000), vec![]),
        child("d", dir(), vec![file(300), dir(), file(724)]),
        child("s", other(1), vec![]),
        child("a", file(500), vec![]),
    ];
    let report = get_data_from_directory(&children);
    assert_eq!(
        brief(&report),
        vec![
            row("a", 500, Marker::File),
            row("d", 1024, Marker::Directory),
            row("b", 2000, Marker::File),
            row("Total", 3524, Marker::Total),
        ]
    );
}

#[test]
fn children_of_one_size_stay_in_reading_order() {
    let children = vec![
        child("m", file(8), vec![]),
        child("k", dir(), vec![file(3)]),
        child("z", file(3), vec![]),
        child("c", file(8), vec![]),
        child("a", dir(), vec![file(1), file(2)]),
    ];
    let report = get_data_from_directory(&children);
    assert_eq!(
        brief(&report),
        vec![
            row("k", 3, Marker::Directory),
            row("z", 3, Marker::File),
            row("a", 3, Marker::Directory),
            row("m", 8, Marker::File),
            row("c", 8, Marker::File),
            row("Total", 25, Marker::Total),
        ]
    );
    assert_eq!(brief(&checked_data_from_directory(&children).unwrap()), brief(&report));
}

#[test]
fn a_name_that_is_text_is_shown_as_it_is() {
    assert_eq!(shown_name(Some("notes.txt".to_string())), "notes.txt");
    assert_eq!(shown_name(Some(String::new())), "");
}

#[test]
fn a_name_that_is_no_text_is_shown_as_question_marks() {
    assert_eq!(shown_name(None), "???");
}
