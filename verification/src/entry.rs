//! Filesystem entries: the metadata facts read for one path, the ordered
//! type tags derived from them, and the entry value the pipeline operates on.
use vstd::prelude::*;
use vstd::string::StrSliceExecFns;
use vstd::utf8::encode_utf8;
use crate::casefold::{lower_of, lowercase};

verus! {

/// A classification tag for one filesystem entry.
#[derive(Copy, Clone, Debug, PartialEq, Eq, Structural)]
pub enum PathType {
    Dir,
    Symlink,
    Path,
    Pipe,
    CharD,
    BlockD,
    Socket,
}

/// The metadata facts of one path, read without following symlinks.
#[derive(Copy, Clone, Debug)]
pub struct FileMeta {
    pub is_dir: bool,
    pub is_symlink: bool,
    pub is_fifo: bool,
    pub is_char_device: bool,
    pub is_block_device: bool,
    pub is_socket: bool,
    /// Creation time, when the platform exposes it.
    pub created: Option<u64>,
    /// Modification time, when the platform exposes it.
    pub modified: Option<u64>,
    /// Byte size reported for the entry itself.
    pub size: u64,
}

/// The tag sequence for one true metadata check, empty for a false one.
pub open spec fn opt_tag(applies: bool, t: PathType) -> Seq<PathType> {
    if applies {
        seq![t]
    } else {
        Seq::<PathType>::empty()
    }
}

/// The tags of the true checks, in the fixed order directory, symlink,
/// pipe, char device, block device, socket.
pub open spec fn special_tags(m: FileMeta) -> Seq<PathType> {
    opt_tag(m.is_dir, PathType::Dir) + opt_tag(m.is_symlink, PathType::Symlink) + opt_tag(
        m.is_fifo,
        PathType::Pipe,
    ) + opt_tag(m.is_char_device, PathType::CharD) + opt_tag(
        m.is_block_device,
        PathType::BlockD,
    ) + opt_tag(m.is_socket, PathType::Socket)
}

/// The full classification: one tag per true check in the fixed order, or
/// the single tag `Path` when no check is true.
pub open spec fn classify_spec(m: FileMeta) -> Seq<PathType> {
    if special_tags(m).len() == 0 {
        seq![PathType::Path]
    } else {
        special_tags(m)
    }
}

impl PathType {
    /// Classifies one entry from its metadata facts: emits one tag per true
    /// check in the fixed order, or the single tag `Path` when none is true.
    pub fn new(meta: &FileMeta) -> (r: Vec<PathType>)
        ensures
            r@ == classify_spec(*meta),
    {
        let mut return_val: Vec<PathType> = Vec::new();
        if meta.is_dir {
            return_val.push(PathType::Dir);
        }
        proof {
            assert(return_val@ =~= opt_tag(meta.is_dir, PathType::Dir));
        }
        if meta.is_symlink {
            return_val.push(PathType::Symlink);
        }
        proof {
            assert(return_val@ =~= opt_tag(meta.is_dir, PathType::Dir) + opt_tag(
                meta.is_symlink,
                PathType::Symlink,
            ));
        }
        if meta.is_fifo {
            return_val.push(PathType::Pipe);
        }
        if meta.is_char_device {
            return_val.push(PathType::CharD);
        }
        if meta.is_block_device {
            return_val.push(PathType::BlockD);
        }
        if meta.is_socket {
            return_val.push(PathType::Socket);
        }
        proof {
            assert(return_val@ =~= special_tags(*meta));
        }
        if return_val.len() == 0 {
            return_val.push(PathType::Path);
        }
        proof {
            assert(return_val@ =~= classify_spec(*meta));
        }
        return_val
    }
}

/// The byte key that orders entries in the case-insensitive name sort:
/// the UTF-8 bytes of the lowercased name.
pub open spec fn name_key(name: Seq<char>) -> Seq<u8> {
    encode_utf8(lower_of(name))
}

/// One entry of a listing: its name, the link target shown for a symlink,
/// its ordered type tags, and the metadata the sort keys read.
pub struct File {
    /// The file name, the last component of the entry's path.
    pub name: String,
    /// The lowercased name bytes, the key of the name sort.
    pub lower_name: Vec<u8>,
    /// Where a symlink points, as display text.
    pub link_target: Option<String>,
    /// The type tags, in classification order.
    pub file_type: Vec<PathType>,
    pub created: Option<u64>,
    pub modified: Option<u64>,
    pub size: u64,
}

/// True when the entry carries the `Dir` tag.
pub open spec fn is_dir_entry(f: File) -> bool {
    f.file_type@.contains(PathType::Dir)
}

impl File {
    /// Builds the entry for one name from its metadata facts.
    pub fn new(name: String, link_target: Option<String>, meta: &FileMeta) -> (f: File)
        ensures
            f.name == name,
            f.lower_name@ == name_key(name@),
            f.link_target == link_target,
            f.file_type@ == classify_spec(*meta),
            f.created == meta.created,
            f.modified == meta.modified,
            f.size == meta.size,
    {
        let low = lowercase(name.as_str());
        let lower_name = low.as_str().as_bytes_vec();
        File {
            file_type: PathType::new(meta),
            name,
            lower_name,
            link_target,
            created: meta.created,
            modified: meta.modified,
            size: meta.size,
        }
    }

    /// True when the entry carries the `Dir` tag.
    pub fn is_dir(&self) -> (r: bool)
        ensures
            r == is_dir_entry(*self),
    {
        let mut i: usize = 0;
        while i < self.file_type.len()
            invariant
                i <= self.file_type.len(),
                forall|j: int| 0 <= j < i ==> self.file_type@[j] != PathType::Dir,
            decreases self.file_type.len() - i,
        {
            if self.file_type[i] == PathType::Dir {
                return true;
            }
            i += 1;
        }
        false
    }
}

} // verus!
