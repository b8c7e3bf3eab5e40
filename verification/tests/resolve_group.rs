use lsr::entry::{File, FileMeta};
use lsr::input::Cli;
use lsr::listing::{Directory, LsError};

fn entry(name: &str, is_dir: bool, size: u64) -> File {
    let m = FileMeta {
        is_dir,
        is_symlink: false,
        is_fifo: false,
        is_char_device: false,
        is_block_device: false,
        is_socket: false,
        created: Some(0),
        modified: Some(0),
        size,
    };
    File::new(name.to_string(), None, &m)
}

fn names(v: &Vec<File>) -> Vec<String> {
    v.iter().map(|f| f.name.clone()).collect()
}

fn cli(name: bool, created: bool, modified: bool, size: bool, gdf: bool) -> Cli {
    Cli { dir: ".".to_string(), name, created, modified, size, gdf }
}

#[test]
fn existing_target_lists_the_given_entries_unchanged() {
    let entries = vec![entry("a.txt", false, 1), entry("b", true, 2)];
    let d = Directory::new("some/dir", true, entries).unwrap();
    assert_eq!(names(&d.paths), vec!["a.txt".to_string(), "b".to_string()]);
}

#[test]
fn missing_target_filters_by_substring() {
    let entries = vec![entry("foo.txt", false, 1), entry("bar.txt", false, 1)];
    let d = Directory::new("fo", false, entries).unwrap();
    assert_eq!(names(&d.paths), vec!["foo.txt".to_string()]);
}

#[test]
fn missing_target_filter_is_case_insensitive() {
    let entries = vec![entry("FOO.txt", false, 1), entry("bar.txt", false, 1)];
    let d = Directory::new("fo", false, entries).unwrap();
    assert_eq!(names(&d.paths), vec!["FOO.txt".to_string()]);
    let entries = vec![entry("foo.txt", false, 1), entry("bar.txt", false, 1)];
    let d = Directory::new("FO", false, entries).unwrap();
    assert_eq!(names(&d.paths), vec!["foo.txt".to_string()]);
}

#[test]
fn missing_target_with_no_match_is_not_found() {
    let entries = vec![entry("foo.txt", false, 1), entry("bar.txt", false, 1)];
    let r = Directory::new("zzz", false, entries);
    assert!(matches!(r, Err(LsError::NotFound)));
}

#[test]
fn sort_with_no_flags_is_identity() {
    let entries = vec![
        entry("zeta", false, 9),
        entry("alpha", false, 1),
        entry("mid", true, 5),
    ];
    let mut d = Directory { paths: entries };
    assert_eq!(d.sort(&cli(false, false, false, false, false)), Ok(()));
    assert_eq!(
        names(&d.paths),
        vec!["zeta".to_string(), "alpha".to_string(), "mid".to_string()]
    );
}

#[test]
fn grouping_puts_directories_first_and_keeps_every_entry() {
    let entries = vec![
        entry("b.txt", false, 1),
        entry("dir_two", true, 1),
        entry("a.txt", false, 1),
        entry("dir_one", true, 1),
    ];
    let mut d = Directory { paths: entries };
    assert_eq!(d.sort(&cli(false, false, false, false, true)), Ok(()));
    assert_eq!(d.paths.len(), 4);
    assert_eq!(
        names(&d.paths),
        vec![
            "dir_two".to_string(),
            "dir_one".to_string(),
            "b.txt".to_string(),
            "a.txt".to_string()
        ]
    );
    assert!(d.paths[0].is_dir() && d.paths[1].is_dir());
    assert!(!d.paths[2].is_dir() && !d.paths[3].is_dir());
}

#[test]
fn grouping_sorts_each_partition_by_the_active_key() {
    let entries = vec![
        entry("b.txt", false, 1),
        entry("dir_two", true, 1),
        entry("a.txt", false, 1),
        entry("dir_one", true, 1),
    ];
    let mut d = Directory { paths: entries };
    assert_eq!(d.sort(&cli(true, false, false, false, true)), Ok(()));
    assert_eq!(
        names(&d.paths),
        vec![
            "dir_one".to_string(),
            "dir_two".to_string(),
            "a.txt".to_string(),
            "b.txt".to_string()
        ]
    );
}

#[test]
fn plain_sort_through_the_cli_flags_orders_whole_list() {
    let entries = vec![
        entry("b.txt", false, 3),
        entry("dir_two", true, 2),
        entry("a.txt", false, 1),
    ];
    let mut d = Directory { paths: entries };
    assert_eq!(d.sort(&cli(true, false, false, false, false)), Ok(()));
    assert_eq!(
        names(&d.paths),
        vec!["a.txt".to_string(), "b.txt".to_string(), "dir_two".to_string()]
    );
}

#[test]
fn grouped_timestamp_sort_without_timestamps_fails() {
    let m = FileMeta {
        is_dir: false,
        is_symlink: false,
        is_fifo: false,
        is_char_device: false,
        is_block_device: false,
        is_socket: false,
        created: None,
        modified: None,
        size: 0,
    };
    let entries = vec![File::new("x".to_string(), None, &m)];
    let mut d = Directory { paths: entries };
    assert_eq!(
        d.sort(&cli(false, true, false, false, true)),
        Err(LsError::UnsupportedTimestamp)
    );
    assert_eq!(names(&d.paths), vec!["x".to_string()]);
}

#[test]
fn directory_methods_sort_in_place() {
    let mut d = Directory {
        paths: vec![entry("Beta", false, 2), entry("alpha", false, 9)],
    };
    d.self_name_sort();
    assert_eq!(names(&d.paths), vec!["alpha".to_string(), "Beta".to_string()]);
    d.self_size_sort();
    assert_eq!(names(&d.paths), vec!["Beta".to_string(), "alpha".to_string()]);
    assert_eq!(d.self_create_sort(), Ok(()));
    assert_eq!(d.self_modified_sort(), Ok(()));
}
