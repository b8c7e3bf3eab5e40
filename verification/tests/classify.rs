use lsr::entry::{File, FileMeta, PathType};

fn meta_plain() -> FileMeta {
    FileMeta {
        is_dir: false,
        is_symlink: false,
        is_fifo: false,
        is_char_device: false,
        is_block_device: false,
        is_socket: false,
        created: Some(0),
        modified: Some(0),
        size: 0,
    }
}

#[test]
fn plain_file_gets_exactly_the_plain_tag() {
    let tags = PathType::new(&meta_plain());
    assert_eq!(tags, vec![PathType::Path]);
}

#[test]
fn directory_gets_exactly_the_dir_tag() {
    let mut m = meta_plain();
    m.is_dir = true;
    let tags = PathType::new(&m);
    assert_eq!(tags, vec![PathType::Dir]);
}

#[test]
fn symlink_to_directory_keeps_classification_order() {
    let mut m = meta_plain();
    m.is_dir = true;
    m.is_symlink = true;
    let tags = PathType::new(&m);
    assert_eq!(tags, vec![PathType::Dir, PathType::Symlink]);
}

#[test]
fn every_special_check_contributes_its_tag_in_order() {
    let m = FileMeta {
        is_dir: true,
        is_symlink: true,
        is_fifo: true,
        is_char_device: true,
        is_block_device: true,
        is_socket: true,
        created: None,
        modified: None,
        size: 0,
    };
    let tags = PathType::new(&m);
    assert_eq!(
        tags,
        vec![
            PathType::Dir,
            PathType::Symlink,
            PathType::Pipe,
            PathType::CharD,
            PathType::BlockD,
            PathType::Socket,
        ]
    );
}

#[test]
fn file_new_records_name_tags_and_metadata() {
    let mut m = meta_plain();
    m.size = 41;
    m.created = Some(7);
    m.modified = Some(9);
    let f = File::new("Read.ME".to_string(), None, &m);
    assert_eq!(f.name, "Read.ME");
    assert_eq!(f.lower_name, "read.me".as_bytes().to_vec());
    assert_eq!(f.file_type, vec![PathType::Path]);
    assert_eq!(f.created, Some(7));
    assert_eq!(f.modified, Some(9));
    assert_eq!(f.size, 41);
}

#[test]
fn is_dir_reports_the_dir_tag() {
    let mut dm = meta_plain();
    dm.is_dir = true;
    let d = File::new("d".to_string(), None, &dm);
    let p = File::new("p".to_string(), None, &meta_plain());
    assert!(d.is_dir());
    assert!(!p.is_dir());
}
