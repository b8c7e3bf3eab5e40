//! Presentation: the color and text styling each tag contributes, and the
//! left-to-right composition that renders an entry and a whole listing.
use vstd::prelude::*;
use vstd::string::StringExecFns;
use crate::entry::{File, PathType};
use crate::listing::Directory;
use crate::text_effects::{bold, italic};

verus! {

/// Relies on termion::color::LightBlue::fg_str: the foreground escape
/// sequence for ANSI color 12.
#[verifier::external_body]
fn fg_light_blue() -> (r: &'static str)
    ensures
        r@ == "\x1B[38;5;12m"@,
{
    termion::color::LightBlue.fg_str()
}

/// Relies on termion::color::LightMagenta::fg_str: the foreground escape
/// sequence for ANSI color 13.
#[verifier::external_body]
fn fg_light_magenta() -> (r: &'static str)
    ensures
        r@ == "\x1B[38;5;13m"@,
{
    termion::color::LightMagenta.fg_str()
}

/// Relies on termion::color::White::fg_str: the foreground escape
/// sequence for ANSI color 7.
#[verifier::external_body]
fn fg_white() -> (r: &'static str)
    ensures
        r@ == "\x1B[38;5;7m"@,
{
    termion::color::White.fg_str()
}

/// Relies on termion::color::Yellow::fg_str: the foreground escape
/// sequence for ANSI color 3.
#[verifier::external_body]
fn fg_yellow() -> (r: &'static str)
    ensures
        r@ == "\x1B[38;5;3m"@,
{
    termion::color::Yellow.fg_str()
}

/// Relies on termion::color::LightGreen::fg_str: the foreground escape
/// sequence for ANSI color 10.
#[verifier::external_body]
fn fg_light_green() -> (r: &'static str)
    ensures
        r@ == "\x1B[38;5;10m"@,
{
    termion::color::LightGreen.fg_str()
}

/// The foreground color escape each tag contributes: light blue for a
/// directory, light magenta for a symlink, white for a plain path, yellow
/// for a pipe, light green for the device and socket kinds.
pub open spec fn color_spec(t: PathType) -> Seq<char> {
    match t {
        PathType::Dir => "\x1B[38;5;12m"@,
        PathType::Symlink => "\x1B[38;5;13m"@,
        PathType::Path => "\x1B[38;5;7m"@,
        PathType::Pipe => "\x1B[38;5;3m"@,
        PathType::CharD => "\x1B[38;5;10m"@,
        PathType::BlockD => "\x1B[38;5;10m"@,
        PathType::Socket => "\x1B[38;5;10m"@,
    }
}

/// The text styling each tag wraps around the text shown so far: bold
/// with a `/` suffix for a directory, italic with the link target after
/// an arrow for a symlink, bold with a `|` suffix for a pipe, bare bold
/// for the rest.
pub open spec fn traits_spec(t: PathType, text: Seq<char>, link: Seq<char>) -> Seq<char> {
    match t {
        PathType::Dir => "\x1B[1m"@ + text + "/"@ + "\x1B[0m"@,
        PathType::Symlink => "\x1B[3m"@ + text + " -> "@ + link + "\x1B[0m"@,
        PathType::Path => "\x1B[1m"@ + text + "\x1B[0m"@,
        PathType::Pipe => "\x1B[1m"@ + text + "|"@ + "\x1B[0m"@,
        PathType::CharD => "\x1B[1m"@ + text + "\x1B[0m"@,
        PathType::BlockD => "\x1B[1m"@ + text + "\x1B[0m"@,
        PathType::Socket => "\x1B[1m"@ + text + "\x1B[0m"@,
    }
}

impl PathType {
    /// The foreground color escape for this tag.
    pub fn get_color_for_type(&self) -> (r: String)
        ensures
            r@ == color_spec(*self),
    {
        match self {
            PathType::Dir => String::from_str(fg_light_blue()),
            PathType::Symlink => String::from_str(fg_light_magenta()),
            PathType::Path => String::from_str(fg_white()),
            PathType::Pipe => String::from_str(fg_yellow()),
            PathType::CharD => String::from_str(fg_light_green()),
            PathType::BlockD => String::from_str(fg_light_green()),
            PathType::Socket => String::from_str(fg_light_green()),
        }
    }

    /// Wraps the text shown so far in this tag's styling; a symlink shows
    /// the link target after an arrow.
    pub fn get_text_traits_for_type(&self, text: &str, link: &str) -> (r: String)
        ensures
            r@ == traits_spec(*self, text@, link@),
    {
        match self {
            PathType::Dir => {
                let pair = bold();
                let mut out = String::from_str(pair.0);
                out.append(text);
                out.append("/");
                out.append(pair.1);
                out
            },
            PathType::Symlink => {
                let pair = italic();
                let mut out = String::from_str(pair.0);
                out.append(text);
                out.append(" -> ");
                out.append(link);
                out.append(pair.1);
                out
            },
            PathType::Pipe => {
                let pair = bold();
                let mut out = String::from_str(pair.0);
                out.append(text);
                out.append("|");
                out.append(pair.1);
                out
            },
            _ => {
                let pair = bold();
                let mut out = String::from_str(pair.0);
                out.append(text);
                out.append(pair.1);
                out
            },
        }
    }
}

/// The link target text a symlink entry displays; the entry's own name
/// when none was recorded.
pub open spec fn link_text_spec(f: File) -> Seq<char> {
    match f.link_target {
        Some(l) => l@,
        None => f.name@,
    }
}

/// The display text of an entry: each tag in classification order wraps
/// the text of the tags before it, the first tag seeing the bare name,
/// and each tag's color escape stands in front of its wrap.
pub open spec fn render_acc(tags: Seq<PathType>, acc: Seq<char>, link: Seq<char>) -> Seq<char>
    decreases tags.len(),
{
    if tags.len() == 0 {
        acc
    } else {
        render_acc(
            tags.drop_first(),
            color_spec(tags.first()) + traits_spec(tags.first(), acc, link),
            link,
        )
    }
}

/// The full display text of one entry.
pub open spec fn render_spec(f: File) -> Seq<char> {
    render_acc(f.file_type@, f.name@, link_text_spec(f))
}

impl File {
    /// The link target text shown for this entry.
    fn link_text(&self) -> (r: &str)
        ensures
            r@ == link_text_spec(*self),
    {
        match &self.link_target {
            Some(l) => l.as_str(),
            None => self.name.as_str(),
        }
    }

    /// Renders the entry: the first tag styles the bare name and each
    /// later tag wraps the already-styled text, left to right.
    pub fn render(&self) -> (r: String)
        ensures
            r@ == render_spec(*self),
    {
        let mut res = String::from_str(self.name.as_str());
        proof {
            assert(self.file_type@.skip(0) =~= self.file_type@);
        }
        let mut i: usize = 0;
        while i < self.file_type.len()
            invariant
                i <= self.file_type.len(),
                render_acc(self.file_type@.skip(i as int), res@, link_text_spec(*self))
                    == render_spec(*self),
            decreases self.file_type.len() - i,
        {
            let t = self.file_type[i];
            let styled = t.get_text_traits_for_type(res.as_str(), self.link_text());
            let mut next = t.get_color_for_type();
            next.append(styled.as_str());
            proof {
                assert(self.file_type@.skip(i as int).first() == self.file_type@[i as int]);
                assert(self.file_type@.skip(i as int).drop_first() =~= self.file_type@.skip(
                    i as int + 1,
                ));
            }
            res = next;
            i += 1;
        }
        proof {
            assert(self.file_type@.skip(i as int) =~= Seq::<PathType>::empty());
        }
        res
    }
}

/// The rendered listing: each entry's display text followed by a newline,
/// in listing order.
pub open spec fn lines_spec(s: Seq<File>) -> Seq<char>
    decreases s.len(),
{
    if s.len() == 0 {
        Seq::<char>::empty()
    } else {
        lines_spec(s.drop_last()) + render_spec(s.last()) + "\n"@
    }
}

impl Directory {
    /// Renders the whole listing, one entry per line.
    pub fn render(&self) -> (r: String)
        ensures
            r@ == lines_spec(self.paths@),
    {
        let mut out = String::new();
        proof {
            assert(self.paths@.subrange(0, 0) =~= Seq::<File>::empty());
        }
        let mut i: usize = 0;
        while i < self.paths.len()
            invariant
                i <= self.paths.len(),
                out@ == lines_spec(self.paths@.subrange(0, i as int)),
            decreases self.paths.len() - i,
        {
            let line = self.paths[i].render();
            out.append(line.as_str());
            out.append("\n");
            proof {
                let next = self.paths@.subrange(0, i as int + 1);
                assert(next.drop_last() =~= self.paths@.subrange(0, i as int));
                assert(next.last() == self.paths@[i as int]);
            }
            i += 1;
        }
        proof {
            assert(self.paths@.subrange(0, i as int) =~= self.paths@);
        }
        out
    }
}

} // verus!
