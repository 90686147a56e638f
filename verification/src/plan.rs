//! The directory planner: walks a recorded source tree and materializes the
//! deterministic plan of directories to create, files to copy, symlinks to
//! recreate, and hard-link classes to replicate. The planner mutates
//! nothing; it only reads the recorded tree.

use vstd::prelude::*;
use vstd::string::StringExecFns;
use crate::sparse::SparseFileHandler;

verus! {

/// One node of a recorded source tree: what a stat walk observed. `name` is
/// the entry's basename; `allocated` is the allocated byte count from stat.
pub enum FsNode {
    File { name: String, size: u64, nlink: u64, dev: u64, ino: u64, allocated: u64 },
    Dir { name: String, children: Vec<FsNode> },
    Symlink { name: String },
}

/// One top-level source: its full path and its recorded tree.
pub struct SourceSpec {
    pub path: String,
    pub node: FsNode,
}

/// One planned entry: where it comes from, where it goes, and what it is.
pub struct FileEntry {
    pub source_path: String,
    pub dest_path: String,
    pub size: u64,
    pub is_dir: bool,
    pub is_symlink: bool,
    pub is_sparse: bool,
    /// The (device, inode) class when hard links are preserved and the
    /// source has more than one link.
    pub hard_links: Option<(u64, u64)>,
}

/// Path joining: directory, separator, basename.
pub open spec fn spec_join(a: Seq<char>, b: Seq<char>) -> Seq<char> {
    a + "/"@ + b
}

fn join_path(a: &str, b: &str) -> (r: String)
    ensures
        r@ == spec_join(a@, b@),
{
    proof {
        reveal_strlit("/");
    }
    let r = a.to_owned().concat("/").concat(b);
    assert(r@ =~= spec_join(a@, b@));
    r
}

pub open spec fn map_has_key(m: Seq<((u64, u64), String)>, k: (u64, u64)) -> bool {
    exists|i: int| 0 <= i < m.len() && (#[trigger] m[i]).0 == k
}

/// Saturating sum of the planned entries' sizes, in plan order.
pub open spec fn spec_sizes_sum(files: Seq<FileEntry>) -> u64
    decreases files.len(),
{
    if files.len() == 0 {
        0u64
    } else {
        crate::checkpoint::sat_add(spec_sizes_sum(files.drop_last()), files.last().size)
    }
}

/// A directory name maps a source root when it is the destination itself or
/// one joined name below it.
pub open spec fn is_root_mapping(d: Seq<char>, destination: Seq<char>) -> bool {
    d == destination || exists|name: Seq<char>| d == spec_join(destination, name)
}

/// Every planned directory either maps a source root directly under the
/// destination or has its parent directory earlier in the list, so creating
/// them in order never needs a missing parent.
pub open spec fn dirs_parented(dirs: Seq<Seq<char>>, destination: Seq<char>) -> bool {
    forall|k: int|
        0 <= k < dirs.len() ==> is_root_mapping(#[trigger] dirs[k], destination) || exists|
            p: int,
            name: Seq<char>,
        | 0 <= p < k && dirs[k] == #[trigger] spec_join(dirs[p], name)
}

/// The materialized plan of one job.
pub struct DirectoryTraversal {
    pub files: Vec<FileEntry>,
    pub total_size: u64,
    pub total_files: u64,
    pub directories: Vec<String>,
    pub symlinks: Vec<FileEntry>,
    /// First-seen source path per (device, inode) class.
    pub hard_link_map: Vec<((u64, u64), String)>,
}

impl DirectoryTraversal {
    /// Hard-link classes are unique; every keyed file entry points into the
    /// class table; the totals agree with the file list.
    pub open spec fn wf(&self) -> bool {
        &&& forall|i: int, j: int|
            0 <= i < j < self.hard_link_map@.len() ==> (#[trigger] self.hard_link_map@[i]).0 != (
            #[trigger] self.hard_link_map@[j]).0
        &&& forall|i: int|
            0 <= i < self.files@.len() ==> ((#[trigger] self.files@[i]).hard_links matches Some(k)
                ==> map_has_key(self.hard_link_map@, k))
        &&& forall|i: int| 0 <= i < self.files@.len() ==> !(#[trigger] self.files@[i]).is_symlink
        &&& forall|i: int|
            0 <= i < self.symlinks@.len() ==> ((#[trigger] self.symlinks@[i]).is_symlink
                && self.symlinks@[i].size == 0 && self.symlinks@[i].hard_links is None)
        &&& forall|m: int|
            0 <= m < self.hard_link_map@.len() ==> exists|k: int|
                0 <= k < self.files@.len() && (#[trigger] self.files@[k]).hard_links == Some(
                    (#[trigger] self.hard_link_map@[m]).0,
                ) && self.files@[k].source_path@ == self.hard_link_map@[m].1@ && (forall|k2: int|
                    0 <= k2 < k ==> (#[trigger] self.files@[k2]).hard_links != Some(
                        self.hard_link_map@[m].0,
                    ))
        &&& self.total_size == spec_sizes_sum(self.files@)
        &&& self.total_files == (if self.files@.len() <= u64::MAX {
            self.files@.len() as u64
        } else {
            u64::MAX
        })
    }

    fn new() -> (r: DirectoryTraversal)
        ensures
            r.wf(),
            r.files@.len() == 0,
            r.directories@.len() == 0,
            r.symlinks@.len() == 0,
            r.hard_link_map@.len() == 0,
    {
        DirectoryTraversal {
            files: Vec::new(),
            total_size: 0,
            total_files: 0,
            directories: Vec::new(),
            symlinks: Vec::new(),
            hard_link_map: Vec::new(),
        }
    }

    fn map_lookup(&self, key: (u64, u64)) -> (r: bool)
        ensures
            r == map_has_key(self.hard_link_map@, key),
    {
        let n = self.hard_link_map.len();
        let mut i: usize = 0;
        while i < n
            invariant
                i <= n,
                n == self.hard_link_map@.len(),
                forall|j: int| 0 <= j < i ==> (#[trigger] self.hard_link_map@[j]).0 != key,
            decreases n - i,
        {
            if self.hard_link_map[i].0.0 == key.0 && self.hard_link_map[i].0.1 == key.1 {
                assert(self.hard_link_map@[i as int].0 == key);
                return true;
            }
            proof {
                assert(self.hard_link_map@[i as int].0 != key);
            }
            i = i + 1;
        }
        false
    }

    /// Registers one regular file: sparse detection, hard-link classing,
    /// and the running totals.
    fn add_file(
        &mut self,
        source_path: String,
        dest_path: String,
        size: u64,
        nlink: u64,
        dev: u64,
        ino: u64,
        allocated: u64,
        preserve_links: bool,
    )
        requires
            old(self).wf(),
        ensures
            final(self).wf(),
            final(self).files@.len() == old(self).files@.len() + 1,
            final(self).files@.subrange(0, old(self).files@.len() as int) == old(self).files@,
            final(self).files@.last().source_path@ == source_path@,
            final(self).files@.last().dest_path@ == dest_path@,
            final(self).files@.last().size == size,
            !final(self).files@.last().is_symlink,
            !preserve_links || nlink <= 1 ==> final(self).files@.last().hard_links is None,
            preserve_links && nlink > 1 ==> final(self).files@.last().hard_links == Some(
                (dev, ino),
            ),
            final(self).directories == old(self).directories,
            final(self).symlinks == old(self).symlinks,
            final(self).hard_link_map@.subrange(0, old(self).hard_link_map@.len() as int) == old(
                self,
            ).hard_link_map@,
            final(self).hard_link_map@.len() >= old(self).hard_link_map@.len(),
            final(self).total_size == crate::checkpoint::sat_add(old(self).total_size, size),
    {
        let ghost pre_map = self.hard_link_map@;
        let ghost gsrc = source_path@;
        let is_sparse = size > 0 && SparseFileHandler::is_sparse_file(allocated, size);
        let hard_links: Option<(u64, u64)> = if preserve_links && nlink > 1 {
            let key = (dev, ino);
            if !self.map_lookup(key) {
                self.hard_link_map.push((key, source_path.clone()));
                proof {
                    assert(self.hard_link_map@.drop_last() =~= pre_map);
                    assert forall|i: int, j: int|
                        0 <= i < j < self.hard_link_map@.len() implies (
                    #[trigger] self.hard_link_map@[i]).0 != (
                    #[trigger] self.hard_link_map@[j]).0 by {
                        if j < pre_map.len() {
                            assert(pre_map[i].0 != pre_map[j].0);
                        } else {
                            assert(self.hard_link_map@[i] == pre_map[i]);
                        }
                    }
                    assert(self.hard_link_map@.last().0 == key);
                    assert(map_has_key(self.hard_link_map@, key));
                }
            }
            Some(key)
        } else {
            None
        };
        let ghost mid_map = self.hard_link_map@;
        proof {
            assert(mid_map.subrange(0, pre_map.len() as int) =~= pre_map);
            assert forall|k2: (u64, u64)| map_has_key(pre_map, k2) implies map_has_key(
                mid_map,
                k2,
            ) by {
                let w = choose|i: int| 0 <= i < pre_map.len() && (#[trigger] pre_map[i]).0 == k2;
                assert(mid_map[w].0 == k2);
            }
        }
        let entry = FileEntry {
            source_path,
            dest_path,
            size,
            is_dir: false,
            is_symlink: false,
            is_sparse,
            hard_links,
        };
        let ghost pre_files = self.files@;
        self.files.push(entry);
        self.total_size = crate::checkpoint::sat_add_exec(self.total_size, size);
        self.total_files = if self.total_files < u64::MAX {
            self.total_files + 1
        } else {
            u64::MAX
        };
        proof {
            assert(self.files@.drop_last() =~= pre_files);
            assert(self.files@.subrange(0, pre_files.len() as int) =~= pre_files);
            assert forall|i: int|
                0 <= i < self.files@.len() implies ((#[trigger] self.files@[i]).hard_links
                matches Some(k2) ==> map_has_key(self.hard_link_map@, k2)) by {
                if i < pre_files.len() {
                    assert(self.files@[i] == pre_files[i]);
                }
            }
            assert(self.files@.last().source_path@ == gsrc);
            assert forall|i: int|
                0 <= i < self.files@.len() implies !(#[trigger] self.files@[i]).is_symlink by {
                if i < pre_files.len() {
                    assert(self.files@[i] == pre_files[i]);
                }
            }
            assert forall|m: int| 0 <= m < self.hard_link_map@.len() implies exists|k: int|
                0 <= k < self.files@.len() && (#[trigger] self.files@[k]).hard_links == Some(
                    (#[trigger] self.hard_link_map@[m]).0,
                ) && self.files@[k].source_path@ == self.hard_link_map@[m].1@ && (forall|k2: int|
                    0 <= k2 < k ==> (#[trigger] self.files@[k2]).hard_links != Some(
                        self.hard_link_map@[m].0,
                    )) by {
                if m < pre_map.len() {
                    assert(self.hard_link_map@[m] == pre_map[m]);
                    let k = choose|k: int|
                        0 <= k < pre_files.len() && (#[trigger] pre_files[k]).hard_links == Some(
                            pre_map[m].0,
                        ) && pre_files[k].source_path@ == pre_map[m].1@ && (forall|k2: int|
                            0 <= k2 < k ==> (#[trigger] pre_files[k2]).hard_links != Some(
                                pre_map[m].0,
                            ));
                    assert(self.files@[k] == pre_files[k]);
                    assert forall|k2: int| 0 <= k2 < k implies (
                    #[trigger] self.files@[k2]).hard_links != Some(
                        self.hard_link_map@[m].0,
                    ) by {
                        assert(self.files@[k2] == pre_files[k2]);
                    }
                } else {
                    assert(self.hard_link_map@[m].0 == (dev, ino));
                    assert(self.hard_link_map@[m].1@ == gsrc);
                    let k = self.files@.len() - 1;
                    assert(self.files@[k].hard_links == Some((dev, ino)));
                    assert forall|k2: int| 0 <= k2 < k implies (
                    #[trigger] self.files@[k2]).hard_links != Some(
                        self.hard_link_map@[m].0,
                    ) by {
                        assert(self.files@[k2] == pre_files[k2]);
                        if pre_files[k2].hard_links == Some((dev, ino)) {
                            assert(map_has_key(pre_map, (dev, ino)));
                        }
                    }
                }
            }
        }
    }

    /// Registers one symlink entry; the target is read at creation time.
    fn add_symlink(&mut self, source_path: String, dest_path: String)
        requires
            old(self).wf(),
        ensures
            final(self).wf(),
            final(self).symlinks@.len() == old(self).symlinks@.len() + 1,
            final(self).symlinks@.subrange(0, old(self).symlinks@.len() as int) == old(
                self,
            ).symlinks@,
            final(self).symlinks@.last().source_path@ == source_path@,
            final(self).symlinks@.last().dest_path@ == dest_path@,
            final(self).symlinks@.last().is_symlink,
            final(self).symlinks@.last().size == 0,
            final(self).symlinks@.last().hard_links is None,
            final(self).files == old(self).files,
            final(self).directories == old(self).directories,
            final(self).hard_link_map == old(self).hard_link_map,
            final(self).total_size == old(self).total_size,
            final(self).total_files == old(self).total_files,
    {
        let ghost pre = self.symlinks@;
        self.symlinks.push(
            FileEntry {
                source_path,
                dest_path,
                size: 0,
                is_dir: false,
                is_symlink: true,
                is_sparse: false,
                hard_links: None,
            },
        );
        proof {
            assert(self.symlinks@.subrange(0, pre.len() as int) =~= pre);
            assert forall|i: int|
                0 <= i < self.symlinks@.len() implies ((#[trigger] self.symlinks@[i]).is_symlink
                && self.symlinks@[i].size == 0 && self.symlinks@[i].hard_links is None) by {
                if i < pre.len() {
                    assert(self.symlinks@[i] == pre[i]);
                }
            }
        }
    }
}

/// The destination path a top-level source maps to.
pub open spec fn spec_top_dest(
    name: Seq<char>,
    destination: Seq<char>,
    dest_is_dir: bool,
) -> Seq<char> {
    if dest_is_dir {
        spec_join(destination, name)
    } else {
        destination
    }
}

/// A top-level regular-file source has its planned entry: right source
/// path, size, mapped destination, and hard-link class — the (device,
/// inode) pair exactly when links are preserved and the source has more
/// than one link, nothing otherwise.
pub open spec fn source_file_planned(
    t: &DirectoryTraversal,
    path: Seq<char>,
    name: Seq<char>,
    size: u64,
    nlink: u64,
    dev: u64,
    ino: u64,
    preserve_links: bool,
    destination: Seq<char>,
    dest_is_dir: bool,
) -> bool {
    exists|k: int|
        0 <= k < t.files@.len() && (#[trigger] t.files@[k]).source_path@ == path && t.files@[
            k
        ].size == size && !t.files@[k].is_symlink && t.files@[k].dest_path@ == spec_top_dest(
            name,
            destination,
            dest_is_dir,
        ) && t.files@[k].hard_links == (if preserve_links && nlink > 1 {
            Some((dev, ino))
        } else {
            None::<(u64, u64)>
        })
}

/// A top-level symlink source has its planned entry.
pub open spec fn source_symlink_planned(
    t: &DirectoryTraversal,
    path: Seq<char>,
    name: Seq<char>,
    destination: Seq<char>,
    dest_is_dir: bool,
) -> bool {
    exists|k: int|
        0 <= k < t.symlinks@.len() && (#[trigger] t.symlinks@[k]).source_path@ == path
            && t.symlinks@[k].is_symlink && t.symlinks@[k].dest_path@ == spec_top_dest(
            name,
            destination,
            dest_is_dir,
        )
}

/// A top-level directory source has its mapped directory in the creation
/// list.
pub open spec fn source_dir_planned(
    t: &DirectoryTraversal,
    name: Seq<char>,
    destination: Seq<char>,
    dest_is_dir: bool,
) -> bool {
    exists|k: int|
        0 <= k < t.directories.deep_view().len() && #[trigger] t.directories.deep_view()[k]
            == spec_top_dest(name, destination, dest_is_dir)
}

/// Every top-level source is planned under its mapped destination.
pub open spec fn sources_planned(
    t: &DirectoryTraversal,
    sources: Seq<SourceSpec>,
    destination: Seq<char>,
    recursive: bool,
    preserve_links: bool,
    dest_is_dir: bool,
    upto: int,
) -> bool {
    forall|i: int|
        0 <= i < upto ==> match #[trigger] sources[i].node {
            FsNode::File { name, size, nlink, dev, ino, .. } => source_file_planned(
                t,
                sources[i].path@,
                name@,
                size,
                nlink,
                dev,
                ino,
                preserve_links,
                destination,
                dest_is_dir,
            ),
            FsNode::Dir { name, .. } => recursive ==> source_dir_planned(
                t,
                name@,
                destination,
                dest_is_dir,
            ),
            FsNode::Symlink { name } => source_symlink_planned(
                t,
                sources[i].path@,
                name@,
                destination,
                dest_is_dir,
            ),
        }
}

/// The destination already copied for a hard-link class, if its first
/// member has been copied: a later member is linked to it instead of
/// copied again.
pub fn find_link_target(copied: &Vec<((u64, u64), String)>, key: (u64, u64)) -> (r: Option<
    &String,
>)
    ensures
        r matches Some(dest) ==> exists|i: int|
            0 <= i < copied@.len() && (#[trigger] copied@[i]).0 == key && copied@[i].1 == *dest,
        r is None ==> forall|i: int| 0 <= i < copied@.len() ==> (#[trigger] copied@[i]).0 != key,
{
    let n = copied.len();
    let mut i: usize = 0;
    while i < n
        invariant
            i <= n,
            n == copied@.len(),
            forall|j: int| 0 <= j < i ==> (#[trigger] copied@[j]).0 != key,
        decreases n - i,
    {
        if copied[i].0.0 == key.0 && copied[i].0.1 == key.1 {
            assert(copied@[i as int].0 == key);
            return Some(&copied[i].1);
        }
        proof {
            assert(copied@[i as int].0 != key);
        }
        i = i + 1;
    }
    None
}

/// Walks recorded sources into plans.
pub struct DirectoryHandler;

impl DirectoryHandler {
    /// Materializes the plan for the given sources. A directory source is
    /// traversed only when `recursive` is set and is otherwise skipped. The
    /// caller supplies whether the destination is treated as a directory
    /// (it exists as one, or it does not exist and there are several
    /// sources).
    #[verifier::rlimit(100)]
    pub fn analyze_sources(
        sources: &Vec<SourceSpec>,
        destination: &str,
        recursive: bool,
        preserve_links: bool,
        dest_is_dir: bool,
    ) -> (t: DirectoryTraversal)
        ensures
            t.wf(),
            dirs_parented(t.directories.deep_view(), destination@),
            sources_planned(
                &t,
                sources@,
                destination@,
                recursive,
                preserve_links,
                dest_is_dir,
                sources@.len() as int,
            ),
            t.files@.len() == spec_sources_files(sources@, recursive),
            t.symlinks@.len() == spec_sources_symlinks(sources@, recursive),
            t.directories@.len() == spec_sources_dirs(sources@, recursive),
            t.total_size == spec_sources_bytes(0, sources@, recursive),
            !preserve_links ==> forall|k: int|
                0 <= k < t.files@.len() ==> (#[trigger] t.files@[k]).hard_links is None,
    {
        let mut t = DirectoryTraversal::new();
        proof {
            assert(t.directories.deep_view() =~= Seq::<Seq<char>>::empty());
        }
        let n = sources.len();
        let mut i: usize = 0;
        while i < n
            invariant
                i <= n,
                n == sources@.len(),
                t.wf(),
                dirs_parented(t.directories.deep_view(), destination@),
                sources_planned(&t, sources@, destination@, recursive, preserve_links, dest_is_dir, i as int),
                t.files@.len() == spec_sources_files(sources@.subrange(0, i as int), recursive),
                t.symlinks@.len() == spec_sources_symlinks(
                    sources@.subrange(0, i as int),
                    recursive,
                ),
                t.directories@.len() == spec_sources_dirs(
                    sources@.subrange(0, i as int),
                    recursive,
                ),
                t.total_size == spec_sources_bytes(
                    0,
                    sources@.subrange(0, i as int),
                    recursive,
                ),
                !preserve_links ==> forall|k: int|
                    0 <= k < t.files@.len() ==> (#[trigger] t.files@[k]).hard_links is None,
            decreases n - i,
        {
            let ghost t_pre = t;
            proof {
                assert(sources@.subrange(0, i + 1 as int).drop_last() =~= sources@.subrange(
                    0,
                    i as int,
                ));
                assert(sources@.subrange(0, i + 1 as int).last() == sources@[i as int]);
            }
            let src = &sources[i];
            match &src.node {
                FsNode::Dir { name, children } => {
                    if recursive {
                        let dest_dir = if dest_is_dir {
                            join_path(destination, name.as_str())
                        } else {
                            destination.to_owned()
                        };
                        let ghost pre_dirs = t.directories.deep_view();
                        let dir_index = t.directories.len();
                        t.directories.push(dest_dir.clone());
                        proof {
                            assert(t.directories.deep_view() =~= pre_dirs.push(dest_dir@));
                            assert(is_root_mapping(dest_dir@, destination@));
                            assert forall|k: int|
                                0 <= k < t.directories.deep_view().len() implies is_root_mapping(
                                #[trigger] t.directories.deep_view()[k],
                                destination@,
                            ) || exists|p: int, name2: Seq<char>|
                                0 <= p < k && t.directories.deep_view()[k] == #[trigger] spec_join(
                                    t.directories.deep_view()[p],
                                    name2,
                                ) by {
                                if k < pre_dirs.len() {
                                    assert(t.directories.deep_view()[k] == pre_dirs[k]);
                                    if !is_root_mapping(pre_dirs[k], destination@) {
                                        let (p, nm): (int, Seq<char>) = choose|
                                            p: int,
                                            nm: Seq<char>,
                                        |
                                            0 <= p < k && pre_dirs[k] == #[trigger] spec_join(
                                                pre_dirs[p],
                                                nm,
                                            );
                                        assert(t.directories.deep_view()[p] == pre_dirs[p]);
                                    }
                                }
                            }
                        }
                        let ghost after_push = t.directories.deep_view();
                        Self::traverse_directory(
                            src.path.as_str(),
                            &dest_dir,
                            children,
                            &mut t,
                            preserve_links,
                            Ghost(destination@),
                            dir_index,
                        );
                        proof {
                            assert(t.directories.deep_view().subrange(
                                0,
                                after_push.len() as int,
                            ) == after_push);
                            assert(t.directories.deep_view()[dir_index as int] == after_push[
                                dir_index as int
                            ]);
                            assert(t.directories.deep_view()[dir_index as int] == dest_dir@);
                            assert(dest_dir@ == spec_top_dest(name@, destination@, dest_is_dir));
                            assert(source_dir_planned(&t, name@, destination@, dest_is_dir));
                        }
                    }
                },
                FsNode::File { name, size, nlink, dev, ino, allocated } => {
                    let dest_path = if dest_is_dir {
                        join_path(destination, name.as_str())
                    } else {
                        destination.to_owned()
                    };
                    let ghost gdest = dest_path@;
                    t.add_file(
                        src.path.clone(),
                        dest_path,
                        *size,
                        *nlink,
                        *dev,
                        *ino,
                        *allocated,
                        preserve_links,
                    );
                    proof {
                        assert(gdest == spec_top_dest(name@, destination@, dest_is_dir));
                        let k = t.files@.len() - 1;
                        assert(t.files@[k] == t.files@.last());
                        assert(source_file_planned(
                            &t,
                            sources@[i as int].path@,
                            name@,
                            *size,
                            *nlink,
                            *dev,
                            *ino,
                            preserve_links,
                            destination@,
                            dest_is_dir,
                        ));
                        if !preserve_links {
                            assert forall|k2: int| 0 <= k2 < t.files@.len() implies (
                            #[trigger] t.files@[k2]).hard_links is None by {
                                if k2 < t_pre.files@.len() {
                                    assert(t.files@[k2] == t.files@.subrange(
                                        0,
                                        t_pre.files@.len() as int,
                                    )[k2]);
                                }
                            }
                        }
                    }
                },
                FsNode::Symlink { name } => {
                    let dest_path = if dest_is_dir {
                        join_path(destination, name.as_str())
                    } else {
                        destination.to_owned()
                    };
                    let ghost gdest = dest_path@;
                    t.add_symlink(src.path.clone(), dest_path);
                    proof {
                        assert(gdest == spec_top_dest(name@, destination@, dest_is_dir));
                        let k = t.symlinks@.len() - 1;
                        assert(t.symlinks@[k] == t.symlinks@.last());
                        assert(source_symlink_planned(
                            &t,
                            sources@[i as int].path@,
                            name@,
                            destination@,
                            dest_is_dir,
                        ));
                    }
                },
            }
            proof {
                assert(t.files@.subrange(0, t_pre.files@.len() as int) =~= t_pre.files@);
                assert(t.symlinks@.subrange(0, t_pre.symlinks@.len() as int) =~= t_pre.symlinks@);
                assert(t.directories.deep_view().subrange(
                    0,
                    t_pre.directories.deep_view().len() as int,
                ) =~= t_pre.directories.deep_view());
                lemma_planned_monotone(
                    &t_pre,
                    &t,
                    sources@,
                    destination@,
                    recursive,
                    preserve_links,
                    dest_is_dir,
                    i as int,
                );
                assert(sources_planned(
                    &t,
                    sources@,
                    destination@,
                    recursive,
                    preserve_links,
                    dest_is_dir,
                    i + 1 as int,
                ));
            }
            i = i + 1;
        }
        proof {
            assert(sources@.subrange(0, n as int) =~= sources@);
        }
        t
    }

    /// Recursively plans one directory's children under the destination
    /// directory standing at `dir_index` in the plan's directory list.
    fn traverse_directory(
        source_dir: &str,
        dest_dir: &String,
        children: &Vec<FsNode>,
        t: &mut DirectoryTraversal,
        preserve_links: bool,
        Ghost(destination): Ghost<Seq<char>>,
        dir_index: usize,
    )
        requires
            old(t).wf(),
            dirs_parented(old(t).directories.deep_view(), destination),
            dir_index < old(t).directories@.len(),
            old(t).directories.deep_view()[dir_index as int] == dest_dir@,
            !preserve_links ==> forall|k: int|
                0 <= k < old(t).files@.len() ==> (#[trigger] old(t).files@[k]).hard_links
                    is None,
        ensures
            final(t).wf(),
            dirs_parented(final(t).directories.deep_view(), destination),
            final(t).directories@.len() >= old(t).directories@.len(),
            final(t).directories.deep_view().subrange(0, old(t).directories@.len() as int) == old(
                t,
            ).directories.deep_view(),
            final(t).files@.len() >= old(t).files@.len(),
            final(t).files@.subrange(0, old(t).files@.len() as int) == old(t).files@,
            final(t).symlinks@.len() >= old(t).symlinks@.len(),
            final(t).symlinks@.subrange(0, old(t).symlinks@.len() as int) == old(t).symlinks@,
            final(t).files@.len() == old(t).files@.len() + spec_forest_files(children@),
            final(t).symlinks@.len() == old(t).symlinks@.len() + spec_forest_symlinks(children@),
            final(t).directories@.len() == old(t).directories@.len() + spec_forest_dirs(
                children@,
            ),
            final(t).total_size == spec_forest_bytes(old(t).total_size, children@),
            !preserve_links ==> forall|k: int|
                0 <= k < final(t).files@.len() ==> (#[trigger] final(t).files@[k]).hard_links
                    is None,
        decreases *children,
    {
        let n = children.len();
        let mut i: usize = 0;
        proof {
            assert(old(t).directories.deep_view().subrange(
                0,
                old(t).directories@.len() as int,
            ) =~= old(t).directories.deep_view());
            assert(old(t).files@.subrange(0, old(t).files@.len() as int) =~= old(t).files@);
            assert(old(t).symlinks@.subrange(0, old(t).symlinks@.len() as int) =~= old(
                t,
            ).symlinks@);
            assert(children@.subrange(0, 0) =~= Seq::<FsNode>::empty());
        }
        while i < n
            invariant
                i <= n,
                n == children@.len(),
                t.wf(),
                dirs_parented(t.directories.deep_view(), destination),
                t.directories@.len() >= old(t).directories@.len(),
                t.directories.deep_view().subrange(0, old(t).directories@.len() as int) == old(
                    t,
                ).directories.deep_view(),
                t.files@.len() >= old(t).files@.len(),
                t.files@.subrange(0, old(t).files@.len() as int) == old(t).files@,
                t.symlinks@.len() >= old(t).symlinks@.len(),
                t.symlinks@.subrange(0, old(t).symlinks@.len() as int) == old(t).symlinks@,
                t.files@.len() == old(t).files@.len() + spec_forest_files(
                    children@.subrange(0, i as int),
                ),
                t.symlinks@.len() == old(t).symlinks@.len() + spec_forest_symlinks(
                    children@.subrange(0, i as int),
                ),
                t.directories@.len() == old(t).directories@.len() + spec_forest_dirs(
                    children@.subrange(0, i as int),
                ),
                t.total_size == spec_forest_bytes(
                    old(t).total_size,
                    children@.subrange(0, i as int),
                ),
                !preserve_links ==> forall|k: int|
                    0 <= k < t.files@.len() ==> (#[trigger] t.files@[k]).hard_links is None,
                dir_index < old(t).directories@.len(),
                t.directories.deep_view()[dir_index as int] == dest_dir@,
            decreases n - i,
        {
            let ghost t_iter = *t;
            proof {
                assert(decreases_to!(*children => children@[i as int]));
                assert(children@.subrange(0, i + 1 as int).drop_last() =~= children@.subrange(
                    0,
                    i as int,
                ));
                assert(children@.subrange(0, i + 1 as int).last() == children@[i as int]);
            }
            match &children[i] {
                FsNode::Dir { name, children: sub } => {
                    let sub_dest = join_path(dest_dir.as_str(), name.as_str());
                    let ghost pre_dirs = t.directories.deep_view();
                    let sub_index = t.directories.len();
                    t.directories.push(sub_dest.clone());
                    proof {
                        assert(t.directories.deep_view() =~= pre_dirs.push(sub_dest@));
                        assert(t.directories.deep_view()[dir_index as int] == dest_dir@);
                        assert(sub_dest@ == spec_join(
                            t.directories.deep_view()[dir_index as int],
                            name@,
                        ));
                        assert forall|k: int|
                            0 <= k < t.directories.deep_view().len() implies is_root_mapping(
                            #[trigger] t.directories.deep_view()[k],
                            destination,
                        ) || exists|p: int, name2: Seq<char>|
                            0 <= p < k && t.directories.deep_view()[k] == #[trigger] spec_join(
                                t.directories.deep_view()[p],
                                name2,
                            ) by {
                            if k < pre_dirs.len() {
                                assert(t.directories.deep_view()[k] == pre_dirs[k]);
                                if !is_root_mapping(pre_dirs[k], destination) {
                                    let (p, nm): (int, Seq<char>) = choose|p: int, nm: Seq<char>|
                                        0 <= p < k && pre_dirs[k] == #[trigger] spec_join(
                                            pre_dirs[p],
                                            nm,
                                        );
                                    assert(t.directories.deep_view()[p] == pre_dirs[p]);
                                }
                            } else {
                                assert(dir_index < k);
                            }
                        }
                        assert(t.directories.deep_view().subrange(0, pre_dirs.len() as int)
                            =~= pre_dirs);
                        assert(decreases_to!(children@[i as int] => children@[i as int]->Dir_children));
                    }
                    let sub_source = join_path(source_dir, name.as_str());
                    Self::traverse_directory(
                        sub_source.as_str(),
                        &sub_dest,
                        sub,
                        t,
                        preserve_links,
                        Ghost(destination),
                        sub_index,
                    );
                },
                FsNode::File { name, size, nlink, dev, ino, allocated } => {
                    let source_path = join_path(source_dir, name.as_str());
                    let dest_path = join_path(dest_dir.as_str(), name.as_str());
                    t.add_file(
                        source_path,
                        dest_path,
                        *size,
                        *nlink,
                        *dev,
                        *ino,
                        *allocated,
                        preserve_links,
                    );
                    proof {
                        if !preserve_links {
                            assert forall|k2: int| 0 <= k2 < t.files@.len() implies (
                            #[trigger] t.files@[k2]).hard_links is None by {
                                if k2 < t_iter.files@.len() {
                                    assert(t.files@[k2] == t.files@.subrange(
                                        0,
                                        t_iter.files@.len() as int,
                                    )[k2]);
                                }
                            }
                        }
                    }
                },
                FsNode::Symlink { name } => {
                    let source_path = join_path(source_dir, name.as_str());
                    let dest_path = join_path(dest_dir.as_str(), name.as_str());
                    t.add_symlink(source_path, dest_path);
                },
            }
            proof {
                assert(t.files@.subrange(0, old(t).files@.len() as int) =~= old(t).files@);
                assert(t.symlinks@.subrange(0, old(t).symlinks@.len() as int) =~= old(
                    t,
                ).symlinks@);
                let pre_sub = children@.subrange(0, i as int);
                let post_sub = children@.subrange(0, i + 1 as int);
                assert(spec_forest_files(post_sub) == spec_forest_files(pre_sub)
                    + spec_tree_files(children@[i as int]));
                assert(spec_forest_symlinks(post_sub) == spec_forest_symlinks(pre_sub)
                    + spec_tree_symlinks(children@[i as int]));
                assert(spec_forest_dirs(post_sub) == spec_forest_dirs(pre_sub) + spec_tree_dirs(
                    children@[i as int],
                ));
                assert(spec_forest_bytes(old(t).total_size, post_sub) == spec_tree_bytes(
                    spec_forest_bytes(old(t).total_size, pre_sub),
                    children@[i as int],
                ));
            }
            i = i + 1;
        }
        proof {
            assert(children@.subrange(0, n as int) =~= children@);
        }
    }

    /// How an attempt to create one planned directory ends: a directory
    /// that already exists is success, so running the planner and creator
    /// twice over the same destination yields no error.
    pub fn classify_mkdir(already_exists: bool, other_error: bool) -> (r: bool)
        ensures
            r == !other_error,
            already_exists && !other_error ==> r,
    {
        !other_error
    }

    /// Estimated remaining time: remaining bytes at the observed pace, in
    /// milliseconds; unknown while nothing has been transferred or the
    /// estimate overflows.
    pub fn estimate_completion_time(
        transferred_bytes: u64,
        total_bytes: u64,
        elapsed_millis: u64,
    ) -> (r: Option<u64>)
        ensures
            transferred_bytes == 0 || total_bytes <= transferred_bytes ==> r is None,
            transferred_bytes > 0 && total_bytes > transferred_bytes && (total_bytes
                - transferred_bytes) as int * elapsed_millis as int / transferred_bytes as int
                <= u64::MAX ==> r is Some,
            r matches Some(eta) ==> transferred_bytes > 0 && total_bytes > transferred_bytes
                && eta == (total_bytes - transferred_bytes) as int * elapsed_millis as int
                / transferred_bytes as int,
    {
        if transferred_bytes == 0 || total_bytes <= transferred_bytes {
            return None;
        }
        let remaining: u64 = total_bytes - transferred_bytes;
        proof {
            let a = remaining as u128;
            let b = elapsed_millis as u128;
            assert(a * b <= 0xffff_ffff_ffff_ffffu128 * 0xffff_ffff_ffff_ffffu128) by (
            nonlinear_arith)
                requires
                    a <= 0xffff_ffff_ffff_ffffu128,
                    b <= 0xffff_ffff_ffff_ffffu128,
            ;
        }
        let num: u128 = (remaining as u128) * (elapsed_millis as u128);
        proof {
            assert((remaining as u128) * (elapsed_millis as u128) == (remaining as int
                * elapsed_millis as int) as u128) by (nonlinear_arith);
        }
        let eta: u128 = num / (transferred_bytes as u128);
        if eta <= u64::MAX as u128 {
            Some(eta as u64)
        } else {
            None
        }
    }
}

/// Planned-source claims survive any plan extension: entries are only ever
/// appended, never changed or removed.
proof fn lemma_planned_monotone(
    pre: &DirectoryTraversal,
    post: &DirectoryTraversal,
    sources: Seq<SourceSpec>,
    destination: Seq<char>,
    recursive: bool,
    preserve_links: bool,
    dest_is_dir: bool,
    upto: int,
)
    requires
        sources_planned(pre, sources, destination, recursive, preserve_links, dest_is_dir, upto),
        upto <= sources.len(),
        post.files@.len() >= pre.files@.len(),
        post.files@.subrange(0, pre.files@.len() as int) == pre.files@,
        post.symlinks@.len() >= pre.symlinks@.len(),
        post.symlinks@.subrange(0, pre.symlinks@.len() as int) == pre.symlinks@,
        post.directories.deep_view().len() >= pre.directories.deep_view().len(),
        post.directories.deep_view().subrange(0, pre.directories.deep_view().len() as int)
            == pre.directories.deep_view(),
    ensures
        sources_planned(post, sources, destination, recursive, preserve_links, dest_is_dir, upto),
{
    assert forall|i: int| 0 <= i < upto implies match #[trigger] sources[i].node {
        FsNode::File { name, size, nlink, dev, ino, .. } => source_file_planned(
            post,
            sources[i].path@,
            name@,
            size,
            nlink,
            dev,
            ino,
            preserve_links,
            destination,
            dest_is_dir,
        ),
        FsNode::Dir { name, .. } => recursive ==> source_dir_planned(
            post,
            name@,
            destination,
            dest_is_dir,
        ),
        FsNode::Symlink { name } => source_symlink_planned(
            post,
            sources[i].path@,
            name@,
            destination,
            dest_is_dir,
        ),
    } by {
        match sources[i].node {
            FsNode::File { name, size, nlink, dev, ino, .. } => {
                let k = choose|k: int|
                    0 <= k < pre.files@.len() && (#[trigger] pre.files@[k]).source_path@
                        == sources[i].path@ && pre.files@[k].size == size && !pre.files@[
                        k
                    ].is_symlink && pre.files@[k].dest_path@ == spec_top_dest(
                        name@,
                        destination,
                        dest_is_dir,
                    ) && pre.files@[k].hard_links == (if preserve_links && nlink > 1 {
                        Some((dev, ino))
                    } else {
                        None::<(u64, u64)>
                    });
                assert(post.files@[k] == pre.files@[k]);
            },
            FsNode::Dir { name, .. } => {
                if recursive {
                    let k = choose|k: int|
                        0 <= k < pre.directories.deep_view().len()
                            && #[trigger] pre.directories.deep_view()[k] == spec_top_dest(
                            name@,
                            destination,
                            dest_is_dir,
                        );
                    assert(post.directories.deep_view()[k] == pre.directories.deep_view()[k]);
                }
            },
            FsNode::Symlink { name } => {
                let k = choose|k: int|
                    0 <= k < pre.symlinks@.len() && (#[trigger] pre.symlinks@[k]).source_path@
                        == sources[i].path@ && pre.symlinks@[k].is_symlink && pre.symlinks@[
                        k
                    ].dest_path@ == spec_top_dest(name@, destination, dest_is_dir);
                assert(post.symlinks@[k] == pre.symlinks@[k]);
            },
        }
    }
}


// ---------------------------------------------------------------------------
// what a recorded tree amounts to: entry counts and byte totals
// ---------------------------------------------------------------------------

/// Regular files in a recorded tree.
pub open spec fn spec_tree_files(n: FsNode) -> int
    decreases n,
{
    match n {
        FsNode::File { .. } => 1,
        FsNode::Symlink { .. } => 0,
        FsNode::Dir { children, .. } => spec_forest_files(children@),
    }
}

pub open spec fn spec_forest_files(s: Seq<FsNode>) -> int
    decreases s,
{
    if s.len() == 0 {
        0
    } else {
        spec_forest_files(s.drop_last()) + spec_tree_files(s.last())
    }
}

/// Symlinks in a recorded tree.
pub open spec fn spec_tree_symlinks(n: FsNode) -> int
    decreases n,
{
    match n {
        FsNode::File { .. } => 0,
        FsNode::Symlink { .. } => 1,
        FsNode::Dir { children, .. } => spec_forest_symlinks(children@),
    }
}

pub open spec fn spec_forest_symlinks(s: Seq<FsNode>) -> int
    decreases s,
{
    if s.len() == 0 {
        0
    } else {
        spec_forest_symlinks(s.drop_last()) + spec_tree_symlinks(s.last())
    }
}

/// Directories in a recorded tree, the tree's own root included.
pub open spec fn spec_tree_dirs(n: FsNode) -> int
    decreases n,
{
    match n {
        FsNode::Dir { children, .. } => 1 + spec_forest_dirs(children@),
        _ => 0,
    }
}

pub open spec fn spec_forest_dirs(s: Seq<FsNode>) -> int
    decreases s,
{
    if s.len() == 0 {
        0
    } else {
        spec_forest_dirs(s.drop_last()) + spec_tree_dirs(s.last())
    }
}

/// Byte total after absorbing a recorded tree, saturating, in plan order.
pub open spec fn spec_tree_bytes(acc: u64, n: FsNode) -> u64
    decreases n,
{
    match n {
        FsNode::File { size, .. } => crate::checkpoint::sat_add(acc, size),
        FsNode::Symlink { .. } => acc,
        FsNode::Dir { children, .. } => spec_forest_bytes(acc, children@),
    }
}

pub open spec fn spec_forest_bytes(acc: u64, s: Seq<FsNode>) -> u64
    decreases s,
{
    if s.len() == 0 {
        acc
    } else {
        spec_tree_bytes(spec_forest_bytes(acc, s.drop_last()), s.last())
    }
}

/// What one top-level source contributes: a file or symlink counts itself;
/// a directory contributes its tree when traversal is recursive and
/// nothing otherwise.
pub open spec fn spec_source_files(sp: SourceSpec, recursive: bool) -> int {
    match sp.node {
        FsNode::File { .. } => 1,
        FsNode::Symlink { .. } => 0,
        FsNode::Dir { children, .. } => if recursive {
            spec_forest_files(children@)
        } else {
            0
        },
    }
}

pub open spec fn spec_source_symlinks(sp: SourceSpec, recursive: bool) -> int {
    match sp.node {
        FsNode::File { .. } => 0,
        FsNode::Symlink { .. } => 1,
        FsNode::Dir { children, .. } => if recursive {
            spec_forest_symlinks(children@)
        } else {
            0
        },
    }
}

pub open spec fn spec_source_dirs(sp: SourceSpec, recursive: bool) -> int {
    match sp.node {
        FsNode::Dir { children, .. } => if recursive {
            1 + spec_forest_dirs(children@)
        } else {
            0
        },
        _ => 0,
    }
}

pub open spec fn spec_source_bytes(acc: u64, sp: SourceSpec, recursive: bool) -> u64 {
    match sp.node {
        FsNode::File { size, .. } => crate::checkpoint::sat_add(acc, size),
        FsNode::Symlink { .. } => acc,
        FsNode::Dir { children, .. } => if recursive {
            spec_forest_bytes(acc, children@)
        } else {
            acc
        },
    }
}

/// The counts and byte total the whole plan owes its sources.
pub open spec fn spec_sources_files(s: Seq<SourceSpec>, recursive: bool) -> int
    decreases s.len(),
{
    if s.len() == 0 {
        0
    } else {
        spec_sources_files(s.drop_last(), recursive) + spec_source_files(s.last(), recursive)
    }
}

pub open spec fn spec_sources_symlinks(s: Seq<SourceSpec>, recursive: bool) -> int
    decreases s.len(),
{
    if s.len() == 0 {
        0
    } else {
        spec_sources_symlinks(s.drop_last(), recursive) + spec_source_symlinks(
            s.last(),
            recursive,
        )
    }
}

pub open spec fn spec_sources_dirs(s: Seq<SourceSpec>, recursive: bool) -> int
    decreases s.len(),
{
    if s.len() == 0 {
        0
    } else {
        spec_sources_dirs(s.drop_last(), recursive) + spec_source_dirs(s.last(), recursive)
    }
}

pub open spec fn spec_sources_bytes(acc: u64, s: Seq<SourceSpec>, recursive: bool) -> u64
    decreases s.len(),
{
    if s.len() == 0 {
        acc
    } else {
        spec_source_bytes(
            spec_sources_bytes(acc, s.drop_last(), recursive),
            s.last(),
            recursive,
        )
    }
}

} // verus!
