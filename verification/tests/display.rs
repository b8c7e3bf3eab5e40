use lsr::entry::{File, FileMeta, PathType};
use lsr::listing::Directory;
use lsr::perms::masking;
use lsr::text_effects;

fn meta(is_dir: bool, is_symlink: bool) -> FileMeta {
    FileMeta {
        is_dir,
        is_symlink,
        is_fifo: false,
        is_char_device: false,
        is_block_device: false,
        is_socket: false,
        created: None,
        modified: None,
        size: 0,
    }
}

#[test]
fn effect_pairs_are_the_ansi_escapes() {
    assert_eq!(text_effects::bold(), ("\x1B[1m", "\x1B[0m"));
    assert_eq!(text_effects::underline(), ("\x1B[4m", "\x1B[0m"));
    assert_eq!(text_effects::dimmed(), ("\x1B[2m", "\x1B[0m"));
    assert_eq!(text_effects::italic(), ("\x1B[3m", "\x1B[0m"));
    assert_eq!(text_effects::blink(), ("\x1B[5m", "\x1B[0m"));
    assert_eq!(text_effects::reverse(), ("\x1B[7m", "\x1B[0m"));
    assert_eq!(text_effects::hidden(), ("\x1B[8m", "\x1B[0m"));
    assert_eq!(text_effects::stricken(), ("\x1B[9m", "\x1B[0m"));
}

#[test]
fn colors_match_the_terminal_library() {
    assert_eq!(
        PathType::Dir.get_color_for_type(),
        termion::color::LightBlue.fg_str()
    );
    assert_eq!(
        PathType::Symlink.get_color_for_type(),
        termion::color::LightMagenta.fg_str()
    );
    assert_eq!(PathType::Path.get_color_for_type(), termion::color::White.fg_str());
    assert_eq!(PathType::Pipe.get_color_for_type(), termion::color::Yellow.fg_str());
    assert_eq!(
        PathType::CharD.get_color_for_type(),
        termion::color::LightGreen.fg_str()
    );
    assert_eq!(
        PathType::BlockD.get_color_for_type(),
        termion::color::LightGreen.fg_str()
    );
    assert_eq!(
        PathType::Socket.get_color_for_type(),
        termion::color::LightGreen.fg_str()
    );
}

#[test]
fn directory_entry_renders_bold_with_slash() {
    let f = File::new("docs".to_string(), None, &meta(true, false));
    assert_eq!(f.render(), "\x1B[38;5;12m\x1B[1mdocs/\x1B[0m");
}

#[test]
fn plain_entry_renders_bold_name() {
    let f = File::new("notes.txt".to_string(), None, &meta(false, false));
    assert_eq!(f.render(), "\x1B[38;5;7m\x1B[1mnotes.txt\x1B[0m");
}

#[test]
fn symlink_entry_renders_italic_with_target() {
    let f = File::new(
        "link".to_string(),
        Some("/tmp/target".to_string()),
        &meta(false, true),
    );
    assert_eq!(f.render(), "\x1B[38;5;13m\x1B[3mlink -> /tmp/target\x1B[0m");
}

#[test]
fn pipe_entry_renders_bold_with_bar() {
    let m = FileMeta { is_fifo: true, ..meta(false, false) };
    let f = File::new("fifo".to_string(), None, &m);
    assert_eq!(f.render(), "\x1B[38;5;3m\x1B[1mfifo|\x1B[0m");
}

#[test]
fn later_tags_wrap_the_styled_text_of_earlier_tags() {
    let f = File::new(
        "d".to_string(),
        Some("target".to_string()),
        &meta(true, true),
    );
    let inner = "\x1B[38;5;12m\x1B[1md/\x1B[0m";
    let expected = format!("\x1B[38;5;13m\x1B[3m{} -> target\x1B[0m", inner);
    assert_eq!(f.render(), expected);
}

#[test]
fn listing_renders_one_line_per_entry() {
    let d = Directory {
        paths: vec![
            File::new("a".to_string(), None, &meta(false, false)),
            File::new("b".to_string(), None, &meta(true, false)),
        ],
    };
    let expected = format!(
        "{}\n{}\n",
        "\x1B[38;5;7m\x1B[1ma\x1B[0m", "\x1B[38;5;12m\x1B[1mb/\x1B[0m"
    );
    assert_eq!(d.render(), expected);
}

#[test]
fn masking_formats_each_bit_combination() {
    let r: u16 = 0o400;
    let w: u16 = 0o200;
    let x: u16 = 0o100;
    assert_eq!(masking(0, r, w, x), "---");
    assert_eq!(masking(r, r, w, x), "r--");
    assert_eq!(masking(w, r, w, x), "-w-");
    assert_eq!(masking(x, r, w, x), "--x");
    assert_eq!(masking(r | x, r, w, x), "r-x");
    assert_eq!(masking(r | w, r, w, x), "rw-");
    assert_eq!(masking(w | x, r, w, x), "-wx");
    assert_eq!(masking(r | w | x, r, w, x), "rwx");
}

#[test]
fn masking_reads_only_the_given_masks() {
    let r: u16 = 0o040;
    let w: u16 = 0o020;
    let x: u16 = 0o010;
    assert_eq!(masking(0o754, r, w, x), "r-x");
    assert_eq!(masking(0o644, r, w, x), "r--");
}
