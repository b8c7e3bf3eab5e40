use lsr::entry::{File, FileMeta};
use lsr::input::Cli;
use lsr::listing::Directory;
use lsr::order::{name_sort, size_sort};

fn entry(name: &str, is_dir: bool, size: u64) -> File {
    let m = FileMeta {
        is_dir,
        is_symlink: false,
        is_fifo: false,
        is_char_device: false,
        is_block_device: false,
        is_socket: false,
        created: Some(0),
        modified: Some(0),
        size,
    };
    File::new(name.to_string(), None, &m)
}

fn names(v: &Vec<File>) -> Vec<String> {
    v.iter().map(|f| f.name.clone()).collect()
}

#[test]
fn sorting_an_empty_list_leaves_it_empty() {
    let mut v: Vec<File> = Vec::new();
    name_sort(&mut v);
    assert!(v.is_empty());
    size_sort(&mut v);
    assert!(v.is_empty());
}

#[test]
fn grouping_an_empty_list_succeeds_and_leaves_it_empty() {
    let mut d = Directory { paths: Vec::new() };
    let cfg = Cli {
        dir: ".".to_string(),
        name: true,
        created: false,
        modified: false,
        size: false,
        gdf: true,
    };
    assert_eq!(d.sort(&cfg), Ok(()));
    assert!(d.paths.is_empty());
}

#[test]
fn rendering_an_empty_listing_gives_an_empty_string() {
    let d = Directory { paths: Vec::new() };
    assert_eq!(d.render(), "");
}

#[test]
fn largest_size_sorts_last() {
    let mut v = vec![
        entry("huge", false, u64::MAX),
        entry("tiny", false, 0),
        entry("mid", false, 12),
    ];
    size_sort(&mut v);
    assert_eq!(
        names(&v),
        vec!["tiny".to_string(), "mid".to_string(), "huge".to_string()]
    );
}

#[test]
fn empty_filter_matches_every_entry() {
    let entries = vec![entry("foo.txt", false, 1), entry("bar.txt", false, 1)];
    let d = Directory::new("", false, entries).unwrap();
    assert_eq!(
        names(&d.paths),
        vec!["foo.txt".to_string(), "bar.txt".to_string()]
    );
}

#[test]
fn equal_name_keys_keep_input_order() {
    let mut v = vec![
        entry("MIXED", false, 1),
        entry("mixed", false, 2),
        entry("Mixed", false, 3),
    ];
    name_sort(&mut v);
    assert_eq!(
        names(&v),
        vec!["MIXED".to_string(), "mixed".to_string(), "Mixed".to_string()]
    );
}
