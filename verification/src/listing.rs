//! Directory listings: the error taxonomy, target resolution into an entry
//! list, and the directories-first grouping policy.
use vstd::prelude::*;
use crate::casefold::{contains_seq, lower_of, lowercase, str_contains};
use crate::entry::{is_dir_entry, File};
use crate::input::Cli;
use crate::order::{
    all_keys_defined, get_sort_type, keys_defined, lemma_sort_not_identity, lemma_sort_spec_ensures,
    sort_by_key, sort_spec, sort_type_spec, DirSortType,
};

verus! {

/// The failures of the listing pipeline. Every one is fatal for the run.
#[derive(Copy, Clone, Debug, PartialEq, Eq, Structural)]
pub enum LsError {
    /// Metadata could not be read for a path under consideration.
    Classification,
    /// Name-filter resolution produced zero matches.
    NotFound,
    /// The platform does not expose the timestamp the sort key needs.
    UnsupportedTimestamp,
    /// Any other enumeration or read failure.
    Io,
}

/// True when the entry's name passes the filter: its lowercased name
/// contains the lowercased target as a substring.
pub open spec fn name_matches(f: File, target: Seq<char>) -> bool {
    contains_seq(lower_of(f.name@), lower_of(target))
}

/// The entries whose names pass the filter, in their original order.
pub open spec fn matching_of(s: Seq<File>, target: Seq<char>) -> Seq<File>
    decreases s.len(),
{
    if s.len() == 0 {
        s
    } else if name_matches(s.last(), target) {
        matching_of(s.drop_last(), target).push(s.last())
    } else {
        matching_of(s.drop_last(), target)
    }
}

/// The entries carrying the `Dir` tag, in their original order.
pub open spec fn dirs_of(s: Seq<File>) -> Seq<File>
    decreases s.len(),
{
    if s.len() == 0 {
        s
    } else if is_dir_entry(s.last()) {
        dirs_of(s.drop_last()).push(s.last())
    } else {
        dirs_of(s.drop_last())
    }
}

/// The entries not carrying the `Dir` tag, in their original order.
pub open spec fn others_of(s: Seq<File>) -> Seq<File>
    decreases s.len(),
{
    if s.len() == 0 {
        s
    } else if !is_dir_entry(s.last()) {
        others_of(s.drop_last()).push(s.last())
    } else {
        others_of(s.drop_last())
    }
}

/// The grouped order: directory entries first, the rest after, each
/// partition sorted by the active key from its original relative order.
pub open spec fn group_spec(k: DirSortType, s: Seq<File>) -> Seq<File> {
    sort_spec(k, dirs_of(s)) + sort_spec(k, others_of(s))
}

/// The two partitions split the input: together they carry exactly its
/// entries, and each holds only entries of its own kind.
pub proof fn lemma_partition_ensures(s: Seq<File>)
    ensures
        dirs_of(s).len() + others_of(s).len() == s.len(),
        dirs_of(s).to_multiset().add(others_of(s).to_multiset()) == s.to_multiset(),
        forall|i: int| 0 <= i < dirs_of(s).len() ==> is_dir_entry(#[trigger] dirs_of(s)[i]),
        forall|i: int| 0 <= i < others_of(s).len() ==> !is_dir_entry(#[trigger] others_of(s)[i]),
    decreases s.len(),
{
    broadcast use vstd::seq_lib::group_to_multiset_ensures;

    if s.len() == 0 {
        assert(dirs_of(s).to_multiset().add(others_of(s).to_multiset()) =~= s.to_multiset());
    } else {
        let r = s.drop_last();
        lemma_partition_ensures(r);
        assert(s =~= r.push(s.last()));
        assert(s.to_multiset() =~= r.to_multiset().insert(s.last()));
        if is_dir_entry(s.last()) {
            assert(dirs_of(s) == dirs_of(r).push(s.last()));
            assert forall|i: int| 0 <= i < dirs_of(s).len() implies is_dir_entry(
                #[trigger] dirs_of(s)[i],
            ) by {
                if i < dirs_of(r).len() {
                    assert(dirs_of(s)[i] == dirs_of(r)[i]);
                }
            }
            assert(dirs_of(s).to_multiset() =~= dirs_of(r).to_multiset().insert(s.last()));
        } else {
            assert(others_of(s) == others_of(r).push(s.last()));
            assert forall|i: int| 0 <= i < others_of(s).len() implies !is_dir_entry(
                #[trigger] others_of(s)[i],
            ) by {
                if i < others_of(r).len() {
                    assert(others_of(s)[i] == others_of(r)[i]);
                }
            }
            assert(others_of(s).to_multiset() =~= others_of(r).to_multiset().insert(s.last()));
        }
        assert(dirs_of(s).to_multiset().add(others_of(s).to_multiset()) =~= s.to_multiset());
    }
}

/// Grouping keeps the length and the entries of its input: the output is
/// a permutation, with nothing dropped and nothing duplicated.
pub proof fn lemma_group_preserves_entries(k: DirSortType, s: Seq<File>)
    ensures
        group_spec(k, s).len() == s.len(),
        group_spec(k, s).to_multiset() == s.to_multiset(),
{
    lemma_partition_ensures(s);
    lemma_sort_spec_ensures(k, dirs_of(s));
    lemma_sort_spec_ensures(k, others_of(s));
    vstd::seq_lib::lemma_multiset_commutative(sort_spec(k, dirs_of(s)), sort_spec(k, others_of(s)));
    assert(group_spec(k, s).to_multiset() =~= s.to_multiset());
}

/// In the grouped output every entry tagged `Dir` stands before every
/// entry not so tagged: anything left of a directory is a directory.
pub proof fn lemma_group_directories_first(k: DirSortType, s: Seq<File>, i: int, j: int)
    requires
        0 <= i < j < group_spec(k, s).len(),
        is_dir_entry(group_spec(k, s)[j]),
    ensures
        is_dir_entry(group_spec(k, s)[i]),
{
    broadcast use vstd::seq_lib::group_to_multiset_ensures;

    lemma_partition_ensures(s);
    lemma_sort_spec_ensures(k, dirs_of(s));
    lemma_sort_spec_ensures(k, others_of(s));
    let a = sort_spec(k, dirs_of(s));
    let b = sort_spec(k, others_of(s));
    assert forall|m: int| 0 <= m < a.len() implies is_dir_entry(#[trigger] a[m]) by {
        assert(a.contains(a[m]));
        assert(dirs_of(s).to_multiset().count(a[m]) > 0);
        assert(dirs_of(s).contains(a[m]));
        let w = choose|w: int| 0 <= w < dirs_of(s).len() && dirs_of(s)[w] == a[m];
        assert(is_dir_entry(dirs_of(s)[w]));
    }
    assert forall|m: int| 0 <= m < b.len() implies !is_dir_entry(#[trigger] b[m]) by {
        assert(b.contains(b[m]));
        assert(others_of(s).to_multiset().count(b[m]) > 0);
        assert(others_of(s).contains(b[m]));
        let w = choose|w: int| 0 <= w < others_of(s).len() && others_of(s)[w] == b[m];
        assert(!is_dir_entry(others_of(s)[w]));
    }
    if j >= a.len() {
        assert(group_spec(k, s)[j] == b[j - a.len()]);
    }
    assert(j < a.len());
    assert(group_spec(k, s)[i] == a[i]);
}

/// A directory listing: the resolved entries, in presentation order once
/// sorted.
pub struct Directory {
    pub paths: Vec<File>,
}

impl Directory {
    /// Resolves the target. An existing path lists the given entries as
    /// they are. Otherwise the target is a case-insensitive name filter
    /// over them, and zero matches fail with `NotFound`.
    pub fn new(target: &str, target_exists: bool, entries: Vec<File>) -> (r: Result<
        Directory,
        LsError,
    >)
        ensures
            target_exists ==> (r matches Ok(d) && d.paths@ == entries@),
            !target_exists && matching_of(entries@, target@).len() > 0 ==> (r matches Ok(d)
                && d.paths@ == matching_of(entries@, target@)),
            !target_exists && matching_of(entries@, target@).len() == 0 ==> r == Result::<
                Directory,
                LsError,
            >::Err(LsError::NotFound),
    {
        if target_exists {
            return Ok(Directory { paths: entries });
        }
        let mut entries = entries;
        let lt = lowercase(target);
        let mut new_paths: Vec<File> = Vec::new();
        let ghost orig = entries@;
        let ghost mut done: int = 0;
        proof {
            assert(entries@ =~= orig.skip(0));
            assert(orig.subrange(0, 0) =~= Seq::<File>::empty());
        }
        while entries.len() > 0
            invariant
                0 <= done <= orig.len(),
                entries@ == orig.skip(done),
                new_paths@ == matching_of(orig.subrange(0, done), target@),
                lt@ == lower_of(target@),
            decreases entries.len(),
        {
            let f = entries.remove(0);
            proof {
                assert(orig.skip(done)[0] == orig[done]);
                assert(orig.skip(done).remove(0) =~= orig.skip(done + 1));
            }
            let low = lowercase(f.name.as_str());
            if str_contains(low.as_str(), lt.as_str()) {
                new_paths.push(f);
            }
            proof {
                let next = orig.subrange(0, done + 1);
                assert(next.drop_last() =~= orig.subrange(0, done));
                assert(next.last() == orig[done]);
                done = done + 1;
            }
        }
        proof {
            assert(orig.subrange(0, done) =~= orig);
        }
        if new_paths.len() == 0 {
            Err(LsError::NotFound)
        } else {
            Ok(Directory { paths: new_paths })
        }
    }

    /// Sorts the entries by lowercased name.
    pub fn self_name_sort(&mut self)
        ensures
            final(self).paths@ == sort_spec(DirSortType::Name, old(self).paths@),
    {
        sort_by_key(&mut self.paths, DirSortType::Name);
    }

    /// Sorts the entries by creation time; `UnsupportedTimestamp`, with
    /// the entries unchanged, exactly when some entry lacks one.
    pub fn self_create_sort(&mut self) -> (r: Result<(), LsError>)
        ensures
            all_keys_defined(DirSortType::Created, old(self).paths@) ==> r is Ok && final(self).paths@
                == sort_spec(DirSortType::Created, old(self).paths@),
            !all_keys_defined(DirSortType::Created, old(self).paths@) ==> r == Result::<
                (),
                LsError,
            >::Err(LsError::UnsupportedTimestamp) && final(self).paths@ == old(self).paths@,
    {
        if !keys_defined(&self.paths, DirSortType::Created) {
            return Err(LsError::UnsupportedTimestamp);
        }
        sort_by_key(&mut self.paths, DirSortType::Created);
        Ok(())
    }

    /// Sorts the entries by modification time; `UnsupportedTimestamp`,
    /// with the entries unchanged, exactly when some entry lacks one.
    pub fn self_modified_sort(&mut self) -> (r: Result<(), LsError>)
        ensures
            all_keys_defined(DirSortType::Modified, old(self).paths@) ==> r is Ok && final(self).paths@
                == sort_spec(DirSortType::Modified, old(self).paths@),
            !all_keys_defined(DirSortType::Modified, old(self).paths@) ==> r == Result::<
                (),
                LsError,
            >::Err(LsError::UnsupportedTimestamp) && final(self).paths@ == old(self).paths@,
    {
        if !keys_defined(&self.paths, DirSortType::Modified) {
            return Err(LsError::UnsupportedTimestamp);
        }
        sort_by_key(&mut self.paths, DirSortType::Modified);
        Ok(())
    }

    /// Sorts the entries by byte size.
    pub fn self_size_sort(&mut self)
        ensures
            final(self).paths@ == sort_spec(DirSortType::Size, old(self).paths@),
    {
        sort_by_key(&mut self.paths, DirSortType::Size);
    }

    /// Orders the whole entry list by the active key, without grouping.
    /// With key `Not` the order is left exactly as it was.
    pub fn sort_paths(&mut self, k: DirSortType) -> (r: Result<(), LsError>)
        ensures
            all_keys_defined(k, old(self).paths@) ==> r is Ok && final(self).paths@ == sort_spec(
                k,
                old(self).paths@,
            ),
            !all_keys_defined(k, old(self).paths@) ==> r == Result::<(), LsError>::Err(
                LsError::UnsupportedTimestamp,
            ) && final(self).paths@ == old(self).paths@,
    {
        match k {
            DirSortType::Name => {
                self.self_name_sort();
                Ok(())
            },
            DirSortType::Created => self.self_create_sort(),
            DirSortType::Modified => self.self_modified_sort(),
            DirSortType::Size => {
                self.self_size_sort();
                Ok(())
            },
            DirSortType::Not => {
                proof {
                    lemma_sort_not_identity(self.paths@);
                }
                Ok(())
            },
        }
    }

    /// Groups directories before the other entries, preserving relative
    /// order within each partition, and sorts each partition by the
    /// active key.
    pub fn sort_directory_then_path(&mut self, k: DirSortType) -> (r: Result<(), LsError>)
        ensures
            all_keys_defined(k, old(self).paths@) ==> r is Ok && final(self).paths@ == group_spec(
                k,
                old(self).paths@,
            ),
            !all_keys_defined(k, old(self).paths@) ==> r == Result::<(), LsError>::Err(
                LsError::UnsupportedTimestamp,
            ) && final(self).paths@ == old(self).paths@,
    {
        if !keys_defined(&self.paths, k) {
            return Err(LsError::UnsupportedTimestamp);
        }
        let mut directories: Vec<File> = Vec::new();
        let mut newer: Vec<File> = Vec::new();
        let ghost orig = self.paths@;
        let ghost mut done: int = 0;
        proof {
            assert(self.paths@ =~= orig.skip(0));
            assert(orig.subrange(0, 0) =~= Seq::<File>::empty());
        }
        while self.paths.len() > 0
            invariant
                0 <= done <= orig.len(),
                self.paths@ == orig.skip(done),
                directories@ == dirs_of(orig.subrange(0, done)),
                newer@ == others_of(orig.subrange(0, done)),
                all_keys_defined(k, orig),
                all_keys_defined(k, directories@),
                all_keys_defined(k, newer@),
            decreases self.paths.len(),
        {
            let f = self.paths.remove(0);
            proof {
                assert(orig.skip(done)[0] == orig[done]);
                assert(orig.skip(done).remove(0) =~= orig.skip(done + 1));
            }
            let ghost prev_dirs = directories@;
            let ghost prev_newer = newer@;
            if f.is_dir() {
                directories.push(f);
                proof {
                    assert forall|m: int| 0 <= m < directories@.len() implies
                        crate::order::key_defined(k, #[trigger] directories@[m]) by {
                        if m < prev_dirs.len() {
                            assert(directories@[m] == prev_dirs[m]);
                        } else {
                            assert(directories@[m] == orig[done]);
                        }
                    }
                }
            } else {
                newer.push(f);
                proof {
                    assert forall|m: int| 0 <= m < newer@.len() implies crate::order::key_defined(
                        k,
                        #[trigger] newer@[m],
                    ) by {
                        if m < prev_newer.len() {
                            assert(newer@[m] == prev_newer[m]);
                        } else {
                            assert(newer@[m] == orig[done]);
                        }
                    }
                }
            }
            proof {
                let next = orig.subrange(0, done + 1);
                assert(next.drop_last() =~= orig.subrange(0, done));
                assert(next.last() == orig[done]);
                done = done + 1;
            }
        }
        proof {
            assert(orig.subrange(0, done) =~= orig);
        }
        sort_by_key(&mut directories, k);
        sort_by_key(&mut newer, k);
        directories.append(&mut newer);
        self.paths = directories;
        Ok(())
    }

    /// Orders the entries as the configuration directs: grouped
    /// directories-first when `gdf` is set, plain otherwise, under the
    /// key the sort flags select.
    pub fn sort(&mut self, cli: &Cli) -> (r: Result<(), LsError>)
        ensures
            all_keys_defined(
                sort_type_spec(cli.name, cli.created, cli.modified, cli.size),
                old(self).paths@,
            ) ==> r is Ok && final(self).paths@ == (if cli.gdf {
                group_spec(
                    sort_type_spec(cli.name, cli.created, cli.modified, cli.size),
                    old(self).paths@,
                )
            } else {
                sort_spec(
                    sort_type_spec(cli.name, cli.created, cli.modified, cli.size),
                    old(self).paths@,
                )
            }),
            !all_keys_defined(
                sort_type_spec(cli.name, cli.created, cli.modified, cli.size),
                old(self).paths@,
            ) ==> r == Result::<(), LsError>::Err(LsError::UnsupportedTimestamp)
                && final(self).paths@ == old(self).paths@,
    {
        let k = get_sort_type([cli.name, cli.created, cli.modified, cli.size]);
        if cli.gdf {
            self.sort_directory_then_path(k)
        } else {
            self.sort_paths(k)
        }
    }
}

} // verus!
