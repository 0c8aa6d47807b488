//! The result of analysing a folder: its files sorted into compressible,
//! compressed and skipped groups, with count and size totals kept per group
//! and for the whole folder.
use vstd::prelude::*;

use std::collections::VecDeque;

use crate::config::{any_pattern_matches, ExcludeSet, MAX_CONFIGURED_THREADS};
use crate::paths::{file_name, is_under_spec, normalized_spec, parse, prefix_of, PrefixKind};
use crate::text::{chars_of, eq_ignore_case, matches_literal_ignore_case, string_from};

verus! {

/// One analysed file.  `estimated_ratio_bits` holds the bits of the sampled
/// compressibility ratio (an `f32`); the library carries it without reading it.
pub struct FileInfo {
    pub path: String,
    pub content_len: u64,
    pub modified_time: u64,
    pub estimate_valid: bool,
    pub estimated_ratio_bits: u32,
    pub logical_size: u64,
    pub physical_size: u64,
    pub estimated_physical_size: u64,
}

/// Files of one kind with their totals.  Skipped files are counted but not kept.
pub struct GroupInfo {
    pub files: VecDeque<FileInfo>,
    pub count: usize,
    pub logical_size: u64,
    pub physical_size: u64,
    pub estimated_physical_size: u64,
}

/// An analysed folder.
pub struct FolderInfo {
    pub path: String,
    pub logical_size: u64,
    pub physical_size: u64,
    pub compressible: GroupInfo,
    pub compressed: GroupInfo,
    pub skipped: GroupInfo,
    pub direct_storage: bool,
}

/// The totals of a folder, without its file lists.
#[derive(Debug, Clone, Copy, Default)]
pub struct FolderSummary {
    pub logical_size: u64,
    pub physical_size: u64,
    pub compressible: GroupSummary,
    pub compressed: GroupSummary,
    pub skipped: GroupSummary,
    pub direct_storage: bool,
}

/// The totals of a group.
#[derive(Debug, Clone, Copy, Default)]
pub struct GroupSummary {
    pub count: usize,
    pub logical_size: u64,
    pub physical_size: u64,
    pub estimated_physical_size: u64,
}

/// The three groups of files.
#[derive(Debug, Clone, Copy, PartialEq, Eq, Structural)]
pub enum FileKind {
    Compressed,
    Compressible,
    Skipped,
}

/// The model of a group.
pub struct GroupView {
    pub files: Seq<FileInfo>,
    pub count: usize,
    pub logical_size: u64,
    pub physical_size: u64,
    pub estimated_physical_size: u64,
}

/// The model of a folder.
pub struct FolderView {
    pub path: Seq<char>,
    pub logical_size: u64,
    pub physical_size: u64,
    pub compressible: GroupView,
    pub compressed: GroupView,
    pub skipped: GroupView,
    pub direct_storage: bool,
}

impl View for GroupInfo {
    type V = GroupView;

    open spec fn view(&self) -> GroupView {
        GroupView {
            files: self.files@,
            count: self.count,
            logical_size: self.logical_size,
            physical_size: self.physical_size,
            estimated_physical_size: self.estimated_physical_size,
        }
    }
}

impl View for FolderInfo {
    type V = FolderView;

    open spec fn view(&self) -> FolderView {
        FolderView {
            path: self.path@,
            logical_size: self.logical_size,
            physical_size: self.physical_size,
            compressible: self.compressible@,
            compressed: self.compressed@,
            skipped: self.skipped@,
            direct_storage: self.direct_storage,
        }
    }
}

impl GroupView {
    /// The group after adding `fi`: totals grow (saturating), the file is kept if `retain`.
    pub open spec fn pushed(self, fi: FileInfo, retain: bool) -> GroupView {
        GroupView {
            files: if retain {
                self.files.push(fi)
            } else {
                self.files
            },
            count: self.count.saturating_add(1),
            logical_size: self.logical_size.saturating_add(fi.logical_size),
            physical_size: self.physical_size.saturating_add(fi.physical_size),
            estimated_physical_size: self.estimated_physical_size.saturating_add(
                fi.estimated_physical_size,
            ),
        }
    }

    /// The group after removing its first kept file, and that file; unchanged
    /// and `None` when no file is kept.
    pub open spec fn popped(self) -> (GroupView, Option<FileInfo>) {
        if self.files.len() == 0 {
            (self, None)
        } else {
            let fi = self.files[0];
            (
                GroupView {
                    files: self.files.drop_first(),
                    count: self.count.saturating_sub(1),
                    logical_size: self.logical_size.saturating_sub(fi.logical_size),
                    physical_size: self.physical_size.saturating_sub(fi.physical_size),
                    estimated_physical_size: self.estimated_physical_size.saturating_sub(
                        fi.estimated_physical_size,
                    ),
                },
                Some(fi),
            )
        }
    }

    /// The totals of the group.
    pub open spec fn summary(self) -> GroupSummary {
        GroupSummary {
            count: self.count,
            logical_size: self.logical_size,
            physical_size: self.physical_size,
            estimated_physical_size: self.estimated_physical_size,
        }
    }
}

impl FolderView {
    /// The group of one kind.
    pub open spec fn group(self, kind: FileKind) -> GroupView {
        match kind {
            FileKind::Compressible => self.compressible,
            FileKind::Compressed => self.compressed,
            FileKind::Skipped => self.skipped,
        }
    }

    /// The folder with the group of one kind replaced.
    pub open spec fn with_group(self, kind: FileKind, g: GroupView) -> FolderView {
        match kind {
            FileKind::Compressible => FolderView { compressible: g, ..self },
            FileKind::Compressed => FolderView { compressed: g, ..self },
            FileKind::Skipped => FolderView { skipped: g, ..self },
        }
    }

    /// The folder after adding `fi` to the group of `kind`: the folder totals
    /// grow (saturating); skipped files are counted but not kept.
    pub open spec fn pushed(self, kind: FileKind, fi: FileInfo) -> FolderView {
        FolderView {
            logical_size: self.logical_size.saturating_add(fi.logical_size),
            physical_size: self.physical_size.saturating_add(fi.physical_size),
            ..self
        }.with_group(kind, self.group(kind).pushed(fi, kind != FileKind::Skipped))
    }

    /// The folder after taking the first file of the group of `kind` (never of
    /// the skipped group), and that file.
    pub open spec fn popped(self, kind: FileKind) -> (FolderView, Option<FileInfo>) {
        if kind == FileKind::Skipped {
            (self, None)
        } else {
            let (g, r) = self.group(kind).popped();
            match r {
                Some(fi) => (
                    FolderView {
                        logical_size: self.logical_size.saturating_sub(fi.logical_size),
                        physical_size: self.physical_size.saturating_sub(fi.physical_size),
                        ..self
                    }.with_group(kind, g),
                    Some(fi),
                ),
                None => (self, None),
            }
        }
    }

    /// The totals of the folder.
    pub open spec fn summary(self) -> FolderSummary {
        FolderSummary {
            logical_size: self.logical_size,
            physical_size: self.physical_size,
            compressible: self.compressible.summary(),
            compressed: self.compressed.summary(),
            skipped: self.skipped.summary(),
            direct_storage: self.direct_storage,
        }
    }
}

impl GroupInfo {
    /// An empty group.
    pub fn new() -> (res: GroupInfo)
        ensures
            res@ == GroupInfo::new_view(),
    {
        let g = GroupInfo {
            files: VecDeque::new(),
            count: 0,
            logical_size: 0,
            physical_size: 0,
            estimated_physical_size: 0,
        };
        assert(g@.files =~= Seq::<FileInfo>::empty());
        g
    }

    /// The totals of the group.
    pub fn summary(&self) -> (res: GroupSummary)
        ensures
            res == self@.summary(),
    {
        GroupSummary {
            count: self.count,
            logical_size: self.logical_size,
            physical_size: self.physical_size,
            estimated_physical_size: self.estimated_physical_size,
        }
    }

    /// Removes and returns the first kept file, lowering the totals (saturating).
    pub fn pop(&mut self) -> (res: Option<FileInfo>)
        ensures
            (final(self)@, res) == old(self)@.popped(),
    {
        let ret = self.files.pop_front();
        match ret {
            Some(fi) => {
                self.count = self.count.saturating_sub(1);
                self.logical_size = self.logical_size.saturating_sub(fi.logical_size);
                self.physical_size = self.physical_size.saturating_sub(fi.physical_size);
                self.estimated_physical_size = self.estimated_physical_size.saturating_sub(
                    fi.estimated_physical_size,
                );
                assert(self@.files =~= old(self)@.files.drop_first());
                Some(fi)
            },
            None => None,
        }
    }

    /// Adds a file, raising the totals (saturating); keeps it if `retain`.
    pub fn push(&mut self, fi: FileInfo, retain: bool)
        ensures
            final(self)@ == old(self)@.pushed(fi, retain),
    {
        self.count = self.count.saturating_add(1);
        self.logical_size = self.logical_size.saturating_add(fi.logical_size);
        self.physical_size = self.physical_size.saturating_add(fi.physical_size);
        self.estimated_physical_size = self.estimated_physical_size.saturating_add(
            fi.estimated_physical_size,
        );
        if retain {
            self.files.push_back(fi);
        }
    }
}

impl FolderInfo {
    /// An empty analysis of the folder at `path`.
    pub fn new(path: &str) -> (res: FolderInfo)
        ensures
            res@.path == path@,
            res@.logical_size == 0,
            res@.physical_size == 0,
            res@.compressible == GroupInfo::new_view(),
            res@.compressed == GroupInfo::new_view(),
            res@.skipped == GroupInfo::new_view(),
            !res@.direct_storage,
    {
        let c = GroupInfo::new();
        let d = GroupInfo::new();
        let s = GroupInfo::new();
        FolderInfo {
            path: path.to_string(),
            logical_size: 0,
            physical_size: 0,
            compressible: c,
            compressed: d,
            skipped: s,
            direct_storage: false,
        }
    }

    /// The totals of the folder.
    pub fn summary(&self) -> (res: FolderSummary)
        ensures
            res == self@.summary(),
    {
        FolderSummary {
            logical_size: self.logical_size,
            physical_size: self.physical_size,
            compressible: self.compressible.summary(),
            compressed: self.compressed.summary(),
            skipped: self.skipped.summary(),
            direct_storage: self.direct_storage,
        }
    }

    /// The number of files of one kind.
    pub fn len(&self, kind: FileKind) -> (res: usize)
        ensures
            res == self@.group(kind).count,
    {
        match kind {
            FileKind::Compressible => self.compressible.count,
            FileKind::Compressed => self.compressed.count,
            FileKind::Skipped => self.skipped.count,
        }
    }

    /// Takes the first file of one kind (never a skipped one, as those are not
    /// kept), lowering the totals (saturating).
    pub fn pop(&mut self, kind: FileKind) -> (res: Option<FileInfo>)
        ensures
            (final(self)@, res) == old(self)@.popped(kind),
    {
        let ret = match kind {
            FileKind::Compressible => self.compressible.pop(),
            FileKind::Compressed => self.compressed.pop(),
            FileKind::Skipped => None,
        };
        match ret {
            Some(fi) => {
                self.logical_size = self.logical_size.saturating_sub(fi.logical_size);
                self.physical_size = self.physical_size.saturating_sub(fi.physical_size);
                Some(fi)
            },
            None => None,
        }
    }

    /// Adds a file of one kind, raising the totals (saturating).  Skipped files
    /// are counted but not kept.
    pub fn push(&mut self, kind: FileKind, fi: FileInfo)
        ensures
            final(self)@ == old(self)@.pushed(kind, fi),
    {
        self.logical_size = self.logical_size.saturating_add(fi.logical_size);
        self.physical_size = self.physical_size.saturating_add(fi.physical_size);
        match kind {
            FileKind::Compressible => self.compressible.push(fi, true),
            FileKind::Compressed => self.compressed.push(fi, true),
            FileKind::Skipped => self.skipped.push(fi, false),
        }
    }
}

impl GroupInfo {
    /// The model of an empty group.
    pub open spec fn new_view() -> GroupView {
        GroupView {
            files: Seq::empty(),
            count: 0,
            logical_size: 0,
            physical_size: 0,
            estimated_physical_size: 0,
        }
    }
}

/// One of the three sizes of a file: 0 logical, 1 physical, 2 estimated physical.
pub open spec fn size_field(fi: FileInfo, k: int) -> int {
    if k == 0 {
        fi.logical_size as int
    } else if k == 1 {
        fi.physical_size as int
    } else {
        fi.estimated_physical_size as int
    }
}

/// The sum of one size over a list of files.
pub open spec fn field_sum(s: Seq<FileInfo>, k: int) -> int
    decreases s.len(),
{
    if s.len() == 0 {
        0
    } else {
        field_sum(s.drop_last(), k) + size_field(s.last(), k)
    }
}

impl GroupView {
    /// The group's count and totals are exactly those of the files it keeps.
    pub open spec fn consistent(self) -> bool {
        &&& self.count == self.files.len()
        &&& self.logical_size == field_sum(self.files, 0)
        &&& self.physical_size == field_sum(self.files, 1)
        &&& self.estimated_physical_size == field_sum(self.files, 2)
    }
}

impl FolderView {
    /// The kept groups are consistent with their files, and the folder totals
    /// are the sums of the three groups' totals.
    pub open spec fn consistent(self) -> bool {
        &&& self.compressible.consistent()
        &&& self.compressed.consistent()
        &&& self.logical_size == self.compressible.logical_size + self.compressed.logical_size
            + self.skipped.logical_size
        &&& self.physical_size == self.compressible.physical_size + self.compressed.physical_size
            + self.skipped.physical_size
    }
}

proof fn lemma_field_sum_nonneg(s: Seq<FileInfo>, k: int)
    ensures
        field_sum(s, k) >= 0,
    decreases s.len(),
{
    if s.len() > 0 {
        lemma_field_sum_nonneg(s.drop_last(), k);
    }
}

proof fn lemma_field_sum_front(s: Seq<FileInfo>, k: int)
    requires
        s.len() > 0,
    ensures
        field_sum(s, k) == size_field(s[0], k) + field_sum(s.drop_first(), k),
    decreases s.len(),
{
    if s.len() > 1 {
        lemma_field_sum_front(s.drop_last(), k);
        assert(s.drop_last().drop_first() =~= s.drop_first().drop_last());
        assert(s.drop_first().last() == s.last());
        assert(s.drop_last()[0] == s[0]);
        assert(field_sum(s.drop_first(), k) == field_sum(s.drop_first().drop_last(), k) + size_field(s.drop_first().last(), k));
        assert(field_sum(s, k) == field_sum(s.drop_last(), k) + size_field(s.last(), k));
    } else {
        assert(s.drop_first() =~= Seq::<FileInfo>::empty());
        assert(s.drop_last() =~= Seq::<FileInfo>::empty());
        assert(field_sum(s, k) == field_sum(s.drop_last(), k) + size_field(s.last(), k));
    }
}

proof fn lemma_field_sum_push(s: Seq<FileInfo>, fi: FileInfo, k: int)
    ensures
        field_sum(s.push(fi), k) == field_sum(s, k) + size_field(fi, k),
{
    assert(s.push(fi).drop_last() =~= s);
}

proof fn lemma_group_push(g: GroupView, fi: FileInfo)
    requires
        g.consistent(),
        g.count < usize::MAX,
        g.logical_size + fi.logical_size <= u64::MAX,
        g.physical_size + fi.physical_size <= u64::MAX,
        g.estimated_physical_size + fi.estimated_physical_size <= u64::MAX,
    ensures
        g.pushed(fi, true).consistent(),
{
    lemma_field_sum_push(g.files, fi, 0);
    lemma_field_sum_push(g.files, fi, 1);
    lemma_field_sum_push(g.files, fi, 2);
}

proof fn lemma_group_pop(g: GroupView)
    requires
        g.consistent(),
        g.files.len() > 0,
    ensures
        g.popped().0.consistent(),
        g.logical_size >= g.files[0].logical_size,
        g.physical_size >= g.files[0].physical_size,
        g.estimated_physical_size >= g.files[0].estimated_physical_size,
{
    lemma_field_sum_front(g.files, 0);
    lemma_field_sum_front(g.files, 1);
    lemma_field_sum_front(g.files, 2);
    lemma_field_sum_nonneg(g.files.drop_first(), 0);
    lemma_field_sum_nonneg(g.files.drop_first(), 1);
    lemma_field_sum_nonneg(g.files.drop_first(), 2);
}

/// Adding a file keeps a folder's totals exact, as long as no total would
/// exceed its integer type (the totals saturate rather than wrap).
pub proof fn law_push_keeps_totals_exact(f: FolderView, kind: FileKind, fi: FileInfo)
    requires
        f.consistent(),
        f.group(kind).count < usize::MAX,
        f.logical_size + fi.logical_size <= u64::MAX,
        f.physical_size + fi.physical_size <= u64::MAX,
        f.group(kind).estimated_physical_size + fi.estimated_physical_size <= u64::MAX,
    ensures
        f.pushed(kind, fi).consistent(),
        f.pushed(kind, fi).logical_size == f.logical_size + fi.logical_size,
        f.pushed(kind, fi).physical_size == f.physical_size + fi.physical_size,
        f.pushed(kind, fi).group(kind).count == f.group(kind).count + 1,
{
    if kind != FileKind::Skipped {
        lemma_group_push(f.group(kind), fi);
    }
}

/// Taking a file keeps a folder's totals exact; the file taken is the first
/// (oldest) file of its group.
pub proof fn law_pop_keeps_totals_exact(f: FolderView, kind: FileKind)
    requires
        f.consistent(),
    ensures
        f.popped(kind).0.consistent(),
        f.popped(kind).1 matches Some(fi) ==> kind != FileKind::Skipped && fi == f.group(kind).files[0]
            && f.popped(kind).0.logical_size == f.logical_size - fi.logical_size
            && f.popped(kind).0.physical_size == f.physical_size - fi.physical_size
            && f.popped(kind).0.group(kind).count == f.group(kind).count - 1
            && f.popped(kind).0.group(kind).logical_size == f.group(kind).logical_size - fi.logical_size
            && f.popped(kind).0.group(kind).physical_size == f.group(kind).physical_size - fi.physical_size
            && f.popped(kind).0.group(kind).estimated_physical_size == f.group(kind).estimated_physical_size
                - fi.estimated_physical_size,
        f.popped(kind).1 is None ==> f.popped(kind).0 == f,
{
    if kind != FileKind::Skipped && f.group(kind).files.len() > 0 {
        lemma_group_pop(f.group(kind));
        lemma_field_sum_nonneg(f.skipped.files, 0);
    }
}

/// A skipped file is counted, and its sizes added to the totals, but its path
/// is not kept.
pub proof fn law_skipped_files_are_counted_not_kept(f: FolderView, fi: FileInfo)
    requires
        f.skipped.count < usize::MAX,
        f.skipped.logical_size + fi.logical_size <= u64::MAX,
        f.skipped.physical_size + fi.physical_size <= u64::MAX,
    ensures
        f.pushed(FileKind::Skipped, fi).skipped.files == f.skipped.files,
        f.pushed(FileKind::Skipped, fi).skipped.count == f.skipped.count + 1,
        f.pushed(FileKind::Skipped, fi).skipped.logical_size == f.skipped.logical_size + fi.logical_size,
        f.pushed(FileKind::Skipped, fi).skipped.physical_size == f.skipped.physical_size + fi.physical_size,
        f.pushed(FileKind::Skipped, fi).compressible == f.compressible,
        f.pushed(FileKind::Skipped, fi).compressed == f.compressed,
{
}

/// Taking a file right after adding it to an empty group gives the same file
/// back and restores the folder exactly (when no total saturated).
pub proof fn law_pop_undoes_push(f: FolderView, kind: FileKind, fi: FileInfo)
    requires
        kind != FileKind::Skipped,
        f.group(kind).files.len() == 0,
        0 < f.group(kind).count + 1 <= usize::MAX,
        f.logical_size + fi.logical_size <= u64::MAX,
        f.physical_size + fi.physical_size <= u64::MAX,
        f.group(kind).logical_size + fi.logical_size <= u64::MAX,
        f.group(kind).physical_size + fi.physical_size <= u64::MAX,
        f.group(kind).estimated_physical_size + fi.estimated_physical_size <= u64::MAX,
    ensures
        f.pushed(kind, fi).popped(kind) == (f, Some(fi)),
{
    let g = f.group(kind);
    let g2 = g.pushed(fi, true);
    assert(g2.files.drop_first() =~= g.files);
    assert(g2.popped().0 == g);
}

/// The most analysis workers chosen automatically.
pub const AUTO_MAX_ANALYSIS_THREADS: usize = 8;
/// The most compression workers chosen automatically.
pub const AUTO_MAX_COMPRESSION_THREADS: usize = 16;
/// The most LZX compression workers chosen automatically.
pub const AUTO_MAX_LZX_THREADS: usize = 2;
/// The most decompression workers chosen automatically.
pub const AUTO_MAX_DECOMPRESSION_THREADS: usize = 8;

/// The configured number of workers: with `max_threads` 0 (automatic) the CPU
/// count (at least one) capped at `auto_max_threads`, otherwise `max_threads`
/// clamped to 1..=16.
pub open spec fn configured_thread_count_spec(cpus: usize, max_threads: usize, auto_max_threads: usize) -> int {
    if max_threads == 0 {
        let c = if cpus < 1 { 1 } else { cpus as int };
        if c < auto_max_threads { c } else { auto_max_threads as int }
    } else if max_threads > MAX_CONFIGURED_THREADS {
        MAX_CONFIGURED_THREADS as int
    } else {
        max_threads as int
    }
}

/// The configured number of workers (see [`configured_thread_count_spec`]).
pub fn configured_thread_count(cpus: usize, max_threads: usize, auto_max_threads: usize) -> (res: usize)
    ensures
        res == configured_thread_count_spec(cpus, max_threads, auto_max_threads),
{
    if max_threads == 0 {
        let c = if cpus < 1 { 1 } else { cpus };
        if c < auto_max_threads { c } else { auto_max_threads }
    } else if max_threads > MAX_CONFIGURED_THREADS {
        MAX_CONFIGURED_THREADS
    } else {
        max_threads
    }
}

/// Workers for a drive: one when the drive reports a seek penalty and the
/// single-thread safeguard is on, one when the drive's kind is unknown, and
/// the configured number otherwise.
pub open spec fn worker_count_for_storage_spec(
    cpus: usize,
    incurs_seek_penalty: Option<bool>,
    max_threads: usize,
    hdd_single_thread: bool,
    auto_max_threads: usize,
) -> int {
    match incurs_seek_penalty {
        Some(true) => if hdd_single_thread {
            1
        } else {
            configured_thread_count_spec(cpus, max_threads, auto_max_threads)
        },
        Some(false) => configured_thread_count_spec(cpus, max_threads, auto_max_threads),
        None => 1,
    }
}

/// Workers for a drive (see [`worker_count_for_storage_spec`]).
pub fn worker_count_for_storage(
    cpus: usize,
    incurs_seek_penalty: Option<bool>,
    max_threads: usize,
    hdd_single_thread: bool,
    auto_max_threads: usize,
) -> (res: usize)
    ensures
        res == worker_count_for_storage_spec(cpus, incurs_seek_penalty, max_threads, hdd_single_thread, auto_max_threads),
        auto_max_threads >= 1 ==> 1 <= res,
        res <= if auto_max_threads > MAX_CONFIGURED_THREADS { auto_max_threads } else { MAX_CONFIGURED_THREADS },
{
    let configured = configured_thread_count(cpus, max_threads, auto_max_threads);
    match incurs_seek_penalty {
        Some(true) => if hdd_single_thread {
            1
        } else {
            configured
        },
        Some(false) => configured,
        None => 1,
    }
}

/// Compression workers: the storage-aware count for up to 16 automatic
/// workers; with LZX and automatic threads, one worker when that count is one
/// or the machine has at most four CPUs, and at most two otherwise.
pub open spec fn compression_worker_count_spec(
    cpus: usize,
    incurs_seek_penalty: Option<bool>,
    compression: crate::config::Compression,
    max_threads: usize,
    hdd_single_thread: bool,
) -> int {
    let workers = worker_count_for_storage_spec(
        cpus,
        incurs_seek_penalty,
        max_threads,
        hdd_single_thread,
        AUTO_MAX_COMPRESSION_THREADS,
    );
    if compression == crate::config::Compression::Lzx && max_threads == 0 {
        if workers <= 1 || cpus <= 4 {
            1
        } else if workers < AUTO_MAX_LZX_THREADS {
            workers
        } else {
            AUTO_MAX_LZX_THREADS as int
        }
    } else {
        workers
    }
}

/// Compression workers (see [`compression_worker_count_spec`]); always between
/// 1 and 16, and at most 2 for automatic LZX.
pub fn compression_worker_count(
    cpus: usize,
    incurs_seek_penalty: Option<bool>,
    compression: crate::config::Compression,
    max_threads: usize,
    hdd_single_thread: bool,
) -> (res: usize)
    ensures
        res == compression_worker_count_spec(cpus, incurs_seek_penalty, compression, max_threads, hdd_single_thread),
        1 <= res <= MAX_CONFIGURED_THREADS,
        compression == crate::config::Compression::Lzx && max_threads == 0 ==> res <= AUTO_MAX_LZX_THREADS,
        compression == crate::config::Compression::Lzx && max_threads == 0 && cpus <= 4 ==> res == 1,
        incurs_seek_penalty == Some(true) && hdd_single_thread ==> res == 1,
        incurs_seek_penalty is None ==> res == 1,
{
    let workers = worker_count_for_storage(
        cpus,
        incurs_seek_penalty,
        max_threads,
        hdd_single_thread,
        AUTO_MAX_COMPRESSION_THREADS,
    );
    if compression == crate::config::Compression::Lzx && max_threads == 0 {
        if workers <= 1 || cpus <= 4 {
            1
        } else if workers < AUTO_MAX_LZX_THREADS {
            workers
        } else {
            AUTO_MAX_LZX_THREADS
        }
    } else {
        workers
    }
}

/// A manual thread limit overrides the automatic LZX policy: with a limit set,
/// LZX runs as many workers as any other algorithm would, which is the limit
/// (clamped to 1..=16) unless the drive is slow or unknown.
pub proof fn law_manual_limit_overrides_lzx_policy(
    cpus: usize,
    incurs_seek_penalty: Option<bool>,
    max_threads: usize,
    hdd_single_thread: bool,
)
    requires
        max_threads > 0,
    ensures
        compression_worker_count_spec(cpus, incurs_seek_penalty, crate::config::Compression::Lzx, max_threads, hdd_single_thread)
            == compression_worker_count_spec(cpus, incurs_seek_penalty, crate::config::Compression::Xpress16k, max_threads, hdd_single_thread),
        incurs_seek_penalty == Some(false) ==> compression_worker_count_spec(
            cpus,
            incurs_seek_penalty,
            crate::config::Compression::Lzx,
            max_threads,
            hdd_single_thread,
        ) == if max_threads > MAX_CONFIGURED_THREADS { MAX_CONFIGURED_THREADS as int } else { max_threads as int },
{
}

/// With the single-worker safeguard for drives with a seek penalty turned off,
/// such a drive gets as many compression workers as a drive without one; and
/// for an algorithm other than LZX on such a drive the count is the configured
/// count (automatic: the CPUs, at least one, at most 16).
pub proof fn law_hdd_safeguard_off_ignores_seek_penalty(
    cpus: usize,
    compression: crate::config::Compression,
    max_threads: usize,
)
    ensures
        compression_worker_count_spec(cpus, Some(true), compression, max_threads, false)
            == compression_worker_count_spec(cpus, Some(false), compression, max_threads, false),
        compression != crate::config::Compression::Lzx ==> compression_worker_count_spec(
            cpus,
            Some(true),
            compression,
            max_threads,
            false,
        ) == if max_threads == 0 {
            if cpus < 1 { 1 } else if cpus < 16 { cpus as int } else { 16 }
        } else if max_threads > 16 {
            16
        } else {
            max_threads as int
        },
{
}

/// `size` rounded up to a whole number of clusters (a cluster size of 0 counts
/// as 1); 0 stays 0, and the sum saturates at `u64::MAX` before the division.
pub open spec fn round_up_to_cluster_spec(size: u64, cluster_size: u64) -> int {
    let c = if cluster_size < 1 { 1 } else { cluster_size as int };
    if size == 0 {
        0
    } else {
        let s = if size + (c - 1) > u64::MAX { u64::MAX as int } else { size + (c - 1) };
        (s / c) * c
    }
}

/// Rounds a size up to whole clusters (see [`round_up_to_cluster_spec`]).
pub fn round_up_to_cluster(size: u64, cluster_size: u64) -> (res: u64)
    ensures
        res == round_up_to_cluster_spec(size, cluster_size),
        res as int % (if cluster_size < 1 { 1 } else { cluster_size as int }) == 0,
        size as int + cluster_size as int <= u64::MAX ==> size <= res,
        res <= size as int + (if cluster_size < 1 { 0 } else { cluster_size - 1 }),
{
    let c: u64 = if cluster_size < 1 { 1 } else { cluster_size };
    if size == 0 {
        return 0;
    }
    let s = size.saturating_add(c - 1);
    let q = s / c;
    proof {
        assert(q * c <= s) by (nonlinear_arith)
            requires
                q == s / c,
                c > 0,
        ;
        assert((q * c) % (c as int) == 0) by (nonlinear_arith)
            requires
                c > 0,
        ;
        assert(s - (c - 1) <= q * c) by (nonlinear_arith)
            requires
                q == s / c,
                c > 0,
        ;
    }
    q * c
}

/// The drive letter of a path with a drive prefix, upper-cased.
pub open spec fn drive_letter(s: Seq<char>) -> Option<char> {
    match prefix_of(s) {
        Some((PrefixKind::Disk, _)) => Some(upper_char(s[0])),
        Some((PrefixKind::VerbatimDisk, _)) => Some(upper_char(s[4])),
        _ => None,
    }
}

/// ASCII upper-casing of one character.
pub open spec fn upper_char(c: char) -> char {
    if 'a' <= c && c <= 'z' {
        ((c as u32) - 32) as char
    } else {
        c
    }
}

fn upper_char_exec(c: char) -> (res: char)
    ensures
        res == upper_char(c),
{
    if 'a' <= c && c <= 'z' {
        let code: u32 = (c as u32) - 32;
        (code as u8) as char
    } else {
        c
    }
}

fn drive_letter_exec(s: &Vec<char>) -> (res: Option<char>)
    ensures
        res == drive_letter(s@),
{
    match crate::paths::prefix_of_exec(s) {
        Some((PrefixKind::Disk, _)) => Some(upper_char_exec(s[0])),
        Some((PrefixKind::VerbatimDisk, _)) => Some(upper_char_exec(s[4])),
        _ => None,
    }
}

/// The root directory (`X:\`) of the drive a path is on; `None` for paths
/// without a drive letter, such as network paths.
pub fn volume_root_path(path: &str) -> (res: Option<String>)
    ensures
        match drive_letter(path@) {
            Some(l) => res matches Some(r) && r@ == seq![l, ':', '\\'],
            None => res is None,
        },
{
    let p = chars_of(path);
    match drive_letter_exec(&p) {
        Some(l) => {
            let mut v: Vec<char> = Vec::new();
            v.push(l);
            v.push(':');
            v.push('\\');
            assert(v@ =~= seq![l, ':', '\\']);
            Some(string_from(&v))
        },
        None => None,
    }
}

/// The device path (`\\.\X:`) of the drive a path is on; `None` for paths
/// without a drive letter.
pub fn volume_device_path(path: &str) -> (res: Option<String>)
    ensures
        match drive_letter(path@) {
            Some(l) => res matches Some(r) && r@ == seq!['\\', '\\', '.', '\\', l, ':'],
            None => res is None,
        },
{
    let p = chars_of(path);
    match drive_letter_exec(&p) {
        Some(l) => {
            let mut v: Vec<char> = Vec::new();
            v.push('\\');
            v.push('\\');
            v.push('.');
            v.push('\\');
            v.push(l);
            v.push(':');
            assert(v@ =~= seq!['\\', '\\', '.', '\\', l, ':']);
            Some(string_from(&v))
        },
        None => None,
    }
}

/// The UTF-16 code units of one character.
pub open spec fn utf16_of(c: char) -> Seq<u16> {
    let v = c as u32 as int;
    if v < 0x10000 {
        seq![v as u16]
    } else {
        let w = v - 0x10000;
        seq![(0xD800 + w / 0x400) as u16, (0xDC00 + w % 0x400) as u16]
    }
}

/// The UTF-16 encoding of a character sequence.
pub open spec fn utf16(s: Seq<char>) -> Seq<u16>
    decreases s.len(),
{
    if s.len() == 0 {
        seq![]
    } else {
        utf16(s.drop_last()) + utf16_of(s.last())
    }
}

/// A path as a NUL-terminated UTF-16 string, as the Windows API takes it.
pub fn wide_null(path: &str) -> (res: Vec<u16>)
    ensures
        res@ == utf16(path@).push(0u16),
{
    let p = chars_of(path);
    let mut res: Vec<u16> = Vec::new();
    let mut i: usize = 0;
    while i < p.len()
        invariant
            i <= p.len(),
            res@ == utf16(p@.take(i as int)),
        decreases p.len() - i,
    {
        let c = p[i];
        let v: u32 = c as u32;
        assert(p@.take(i + 1 as int).drop_last() =~= p@.take(i as int));
        if v < 0x10000 {
            res.push(v as u16);
            assert(res@ =~= utf16(p@.take(i + 1 as int)));
        } else {
            proof {
                vstd::utf8::char_is_scalar(c);
            }
            assert(v <= 0x10FFFF);
            let w: u32 = v - 0x10000;
            let hi: u32 = 0xD800 + w / 0x400;
            let lo: u32 = 0xDC00 + w % 0x400;
            assert(hi < 0x10000 && lo < 0x10000);
            res.push(hi as u16);
            res.push(lo as u16);
            assert(res@ =~= utf16(p@.take(i + 1 as int)));
        }
        i = i + 1;
    }
    assert(p@.take(i as int) =~= p@);
    res.push(0);
    res
}

/// The comparison form of a path (see [`crate::paths::normalized`]).
pub fn normalized_path(path: &str) -> (res: String)
    ensures
        res@ == normalized_spec(path@),
{
    crate::paths::normalized(path)
}

/// Whether `path` is `parent` or lies below it, comparing normalized paths.
pub fn path_is_same_or_child(path: &str, parent: &str) -> (res: bool)
    ensures
        res == is_under_spec(path@, parent@),
{
    crate::paths::is_under(path, parent)
}

/// The file name is a DirectStorage runtime name, ignoring ASCII case.
pub open spec fn names_runtime(path: Seq<char>) -> bool {
    match file_name(parse(path)) {
        Some(n) => eq_ignore_case(n, "dstorage.dll"@) || eq_ignore_case(n, "dstoragecore.dll"@),
        None => false,
    }
}

/// Whether `path` names the DirectStorage runtime.
pub fn is_direct_storage_runtime(path: &str) -> (res: bool)
    ensures
        res == names_runtime(path@),
{
    let p = chars_of(path);
    let m = crate::paths::parse_path(&p);
    let len = m.parts.len();
    if len == 0 {
        return false;
    }
    let name = &m.parts[len - 1];
    assert(m@.parts.last() == name@);
    if name.len() == 2 && name[0] == '.' && name[1] == '.' {
        assert(name@ =~= seq!['.', '.']);
        return false;
    }
    if name.len() == 1 && name[0] == '.' {
        assert(name@ =~= seq!['.']);
        return false;
    }
    assert(name@ != seq!['.', '.']) by {
        if name@ == seq!['.', '.'] {
            assert(name@.len() == 2 && name@[0] == '.' && name@[1] == '.');
        }
    }
    assert(name@ != seq!['.']) by {
        if name@ == seq!['.'] {
            assert(name@.len() == 1 && name@[0] == '.');
        }
    }
    matches_literal_ignore_case(name, "dstorage.dll") || matches_literal_ignore_case(name, "dstoragecore.dll")
}

/// `FILE_ATTRIBUTE_READONLY` of the Windows API.
pub const FILE_ATTRIBUTE_READONLY: u32 = 0x1;
/// `FILE_ATTRIBUTE_SYSTEM` of the Windows API.
pub const FILE_ATTRIBUTE_SYSTEM: u32 = 0x4;
/// `FILE_ATTRIBUTE_TEMPORARY` of the Windows API.
pub const FILE_ATTRIBUTE_TEMPORARY: u32 = 0x100;
/// `FILE_ATTRIBUTE_SPARSE_FILE` of the Windows API.
pub const FILE_ATTRIBUTE_SPARSE_FILE: u32 = 0x200;
/// `FILE_ATTRIBUTE_REPARSE_POINT` of the Windows API.
pub const FILE_ATTRIBUTE_REPARSE_POINT: u32 = 0x400;
/// `FILE_ATTRIBUTE_COMPRESSED` of the Windows API (legacy NTFS compression).
pub const FILE_ATTRIBUTE_COMPRESSED: u32 = 0x800;
/// `FILE_ATTRIBUTE_OFFLINE` of the Windows API.
pub const FILE_ATTRIBUTE_OFFLINE: u32 = 0x1000;
/// `FILE_ATTRIBUTE_ENCRYPTED` of the Windows API.
pub const FILE_ATTRIBUTE_ENCRYPTED: u32 = 0x4000;

/// Attributes that make a file unsafe to hand to WOF at all.
pub const SPECIAL_ATTRIBUTES: u32 = 0x5e00;

/// Attributes that make a file not worth compressing.
pub const UNWANTED_ATTRIBUTES: u32 = 0x105;

/// The cluster size assumed when the volume cannot be asked.
pub const FALLBACK_CLUSTER_SIZE: u64 = 4096;

/// The cluster size of a volume from its sectors per cluster and bytes per
/// sector (`None` when the volume could not be asked): their product, at
/// least 1, or 4096 without an answer.
pub open spec fn cluster_size_spec(geometry: Option<(u32, u32)>) -> u64 {
    match geometry {
        None => FALLBACK_CLUSTER_SIZE,
        Some((sectors, bytes)) => if sectors * bytes < 1 {
            1
        } else {
            (sectors * bytes) as u64
        },
    }
}

/// The cluster size of a volume (see [`cluster_size_spec`]).
pub fn cluster_size(geometry: Option<(u32, u32)>) -> (res: u64)
    ensures
        res == cluster_size_spec(geometry),
        res >= 1,
{
    match geometry {
        None => FALLBACK_CLUSTER_SIZE,
        Some((sectors, bytes)) => {
            let s: u64 = sectors as u64;
            let b: u64 = bytes as u64;
            assert(s * b <= 0xffff_ffffu64 * 0xffff_ffffu64) by (nonlinear_arith)
                requires
                    s <= 0xffff_ffffu64,
                    b <= 0xffff_ffffu64,
            ;
            let p = s * b;
            if p < 1 {
                1
            } else {
                p
            }
        },
    }
}

/// The number of windows sampled from a large file on a drive with a seek penalty.
pub const HDD_SAMPLE_WINDOWS: u64 = 4;
/// The length of each sampled window.
pub const HDD_SAMPLE_CHUNK: u64 = 131072;
/// The block size of the compressibility estimator; windows start on its multiples.
pub const ESTIMATOR_BLOCK_SIZE: u64 = 8192;

/// How a file on a drive with a seek penalty is sampled.
#[derive(Debug, PartialEq, Eq)]
pub enum HddSamplePlan {
    /// The file is empty: its ratio is taken as 1.
    Empty,
    /// The file is small enough to be estimated whole.
    WholeFile,
    /// Windows of `chunk` bytes are read at `offsets`.
    Windows { chunk: u64, offsets: Vec<u64> },
}

/// The start of window `sample` of a file of `len` bytes: the span before the
/// last window, multiplied by `sample` (saturating), divided by the number of
/// gaps between windows, and rounded down to the estimator's block size.
pub open spec fn hdd_window_offset(len: u64, sample: int) -> int {
    let max_start = len - HDD_SAMPLE_CHUNK;
    let scaled = if max_start * sample > u64::MAX { u64::MAX as int } else { max_start * sample };
    (scaled / (HDD_SAMPLE_WINDOWS - 1)) / ESTIMATOR_BLOCK_SIZE as int * ESTIMATOR_BLOCK_SIZE as int
}

/// Plans the sampling of a file of `len` bytes on a drive with a seek penalty:
/// an empty file needs no sample; a file of at most four windows is estimated
/// whole; a larger one is sampled in four windows of 128 KiB spread evenly over
/// it, each starting on a block boundary and lying inside the file.
pub fn hdd_sample_plan(len: u64) -> (res: HddSamplePlan)
    ensures
        len == 0 ==> res == HddSamplePlan::Empty,
        0 < len <= HDD_SAMPLE_CHUNK * HDD_SAMPLE_WINDOWS ==> res == HddSamplePlan::WholeFile,
        len > HDD_SAMPLE_CHUNK * HDD_SAMPLE_WINDOWS ==> (res matches HddSamplePlan::Windows { chunk, offsets } && {
            &&& chunk == HDD_SAMPLE_CHUNK
            &&& offsets@.len() == HDD_SAMPLE_WINDOWS
            &&& forall|i: int| 0 <= i < offsets@.len() ==> #[trigger] offsets@[i] == hdd_window_offset(len, i)
            &&& forall|i: int| 0 <= i < offsets@.len() ==> #[trigger] offsets@[i] % ESTIMATOR_BLOCK_SIZE == 0
                && offsets@[i] + chunk <= len
        }),
{
    if len == 0 {
        return HddSamplePlan::Empty;
    }
    if len <= HDD_SAMPLE_CHUNK * HDD_SAMPLE_WINDOWS {
        return HddSamplePlan::WholeFile;
    }
    let chunk = HDD_SAMPLE_CHUNK;
    let max_start = len - chunk;
    let mut offsets: Vec<u64> = Vec::new();
    let mut sample: u64 = 0;
    while sample < HDD_SAMPLE_WINDOWS
        invariant
            len > HDD_SAMPLE_CHUNK * HDD_SAMPLE_WINDOWS,
            max_start == len - HDD_SAMPLE_CHUNK,
            sample <= HDD_SAMPLE_WINDOWS,
            offsets@.len() == sample,
            forall|i: int| 0 <= i < sample ==> #[trigger] offsets@[i] == hdd_window_offset(len, i),
            forall|i: int| 0 <= i < sample ==> #[trigger] offsets@[i] % ESTIMATOR_BLOCK_SIZE == 0
                && offsets@[i] + HDD_SAMPLE_CHUNK <= len,
        decreases HDD_SAMPLE_WINDOWS - sample,
    {
        let scaled = match max_start.checked_mul(sample) {
            Some(v) => v,
            None => u64::MAX,
        };
        let spread = scaled / (HDD_SAMPLE_WINDOWS - 1);
        let offset = spread / ESTIMATOR_BLOCK_SIZE * ESTIMATOR_BLOCK_SIZE;
        proof {
            assert(scaled <= max_start * 3) by (nonlinear_arith)
                requires
                    scaled <= max_start * sample,
                    sample <= 3,
                    max_start >= 0,
            ;
            assert(spread <= max_start) by (nonlinear_arith)
                requires
                    scaled <= max_start * 3,
                    spread == scaled / 3,
            ;
            assert(offset <= spread) by (nonlinear_arith)
                requires
                    offset == spread / 8192 * 8192,
            ;
            assert(offset % 8192 == 0) by (nonlinear_arith)
                requires
                    offset == spread / 8192 * 8192,
            ;
        }
        offsets.push(offset);
        sample = sample + 1;
    }
    HddSamplePlan::Windows { chunk, offsets }
}

/// The folder after adding each of `files`, in order, to the group of `kind`.
pub open spec fn pushed_all(f: FolderView, kind: FileKind, files: Seq<FileInfo>) -> FolderView
    decreases files.len(),
{
    if files.len() == 0 {
        f
    } else {
        pushed_all(f, kind, files.drop_last()).pushed(kind, files.last())
    }
}

/// Counts the candidates left unestimated, when an analysis is cancelled, as skipped files.
pub fn skip_candidates(ds: &mut FolderInfo, candidates: Vec<FileInfo>)
    ensures
        final(ds)@ == pushed_all(old(ds)@, FileKind::Skipped, candidates@),
{
    let ghost all = candidates@;
    let ghost start = ds@;
    let n = candidates.len();
    let mut done: usize = 0;
    for fi in it: candidates
        invariant
            all == it.seq(),
            all.len() == n,
            done == it.index(),
            done <= n,
            ds@ == pushed_all(start, FileKind::Skipped, all.take(done as int)),
    {
        assert(all.take(done + 1 as int).drop_last() =~= all.take(done as int));
        ds.push(FileKind::Skipped, fi);
        done = done + 1;
    }
    assert(all.take(done as int) =~= all);
}

/// The number of estimation workers for a batch: the analysis workers, but no
/// more than there are candidates, and at least one.
pub fn estimation_workers(workers: usize, candidates: usize) -> (res: usize)
    ensures
        res == if workers < candidates {
            if workers < 1 { 1 } else { workers }
        } else {
            if candidates < 1 { 1 } else { candidates }
        },
{
    let w = if workers < candidates { workers } else { candidates };
    if w < 1 { 1 } else { w }
}

/// Where a file found by the analysis goes.
#[derive(Debug, Clone, Copy, PartialEq, Eq, Structural)]
pub enum Disposition {
    /// Counted as skipped.
    Skip,
    /// Counted as already compressed.
    Compressed,
    /// Sampled to estimate its compressibility.
    Estimate,
}

/// The analysis decision for one file: encrypted, sparse, offline,
/// reparse-point and NTFS-compressed files are skipped; files whose allocation
/// is below their length are already compressed; files that cannot save a
/// cluster, read-only, system or temporary files, files remembered as
/// incompressible and excluded files are skipped; the rest are estimated.
pub open spec fn classify_spec(
    attributes: u32,
    logical_size: u64,
    physical_size: u64,
    content_len: u64,
    cluster_size: u64,
    known_incompressible: bool,
    excluded: bool,
) -> Disposition {
    if attributes & SPECIAL_ATTRIBUTES != 0 {
        Disposition::Skip
    } else if physical_size < logical_size {
        Disposition::Compressed
    } else if content_len <= cluster_size || attributes & UNWANTED_ATTRIBUTES != 0
        || known_incompressible || excluded {
        Disposition::Skip
    } else {
        Disposition::Estimate
    }
}

/// Decides where a file found by the analysis goes (see [`classify_spec`]);
/// `path` is matched against the exclusions only when the earlier checks pass.
pub fn classify_file(
    attributes: u32,
    logical_size: u64,
    physical_size: u64,
    content_len: u64,
    cluster_size: u64,
    known_incompressible: bool,
    excludes: &ExcludeSet,
    path: &str,
) -> (res: Disposition)
    ensures
        res == classify_spec(
            attributes,
            logical_size,
            physical_size,
            content_len,
            cluster_size,
            known_incompressible,
            any_pattern_matches(excludes.patterns(), path@),
        ),
{
    assert(SPECIAL_ATTRIBUTES == FILE_ATTRIBUTE_COMPRESSED | FILE_ATTRIBUTE_ENCRYPTED
        | FILE_ATTRIBUTE_SPARSE_FILE | FILE_ATTRIBUTE_REPARSE_POINT | FILE_ATTRIBUTE_OFFLINE) by (bit_vector);
    assert(UNWANTED_ATTRIBUTES == FILE_ATTRIBUTE_READONLY | FILE_ATTRIBUTE_SYSTEM
        | FILE_ATTRIBUTE_TEMPORARY) by (bit_vector);
    if attributes & SPECIAL_ATTRIBUTES != 0 {
        Disposition::Skip
    } else if physical_size < logical_size {
        Disposition::Compressed
    } else if content_len <= cluster_size || attributes & UNWANTED_ATTRIBUTES != 0
        || known_incompressible || excludes.is_match(path) {
        Disposition::Skip
    } else {
        Disposition::Estimate
    }
}

/// Files with any attribute that makes WOF unsafe are never estimated and
/// never counted as compressed.
pub proof fn law_special_files_are_skipped(
    attributes: u32,
    logical_size: u64,
    physical_size: u64,
    content_len: u64,
    cluster_size: u64,
    known_incompressible: bool,
    excluded: bool,
)
    requires
        attributes & FILE_ATTRIBUTE_ENCRYPTED != 0 || attributes & FILE_ATTRIBUTE_SPARSE_FILE != 0
            || attributes & FILE_ATTRIBUTE_OFFLINE != 0 || attributes & FILE_ATTRIBUTE_REPARSE_POINT != 0
            || attributes & FILE_ATTRIBUTE_COMPRESSED != 0,
    ensures
        classify_spec(attributes, logical_size, physical_size, content_len, cluster_size, known_incompressible, excluded)
            == Disposition::Skip,
{
    assert(attributes & FILE_ATTRIBUTE_ENCRYPTED != 0 || attributes & FILE_ATTRIBUTE_SPARSE_FILE != 0
        || attributes & FILE_ATTRIBUTE_OFFLINE != 0 || attributes & FILE_ATTRIBUTE_REPARSE_POINT != 0
        || attributes & FILE_ATTRIBUTE_COMPRESSED != 0 ==> attributes & SPECIAL_ATTRIBUTES != 0) by (bit_vector);
}

/// Read-only, system and temporary files are never estimated or compressed:
/// a file without a WOF-unsafe attribute that is not already compressed is
/// skipped when any of these three attributes is set.
pub proof fn law_unwanted_files_are_skipped(
    attributes: u32,
    logical_size: u64,
    physical_size: u64,
    content_len: u64,
    cluster_size: u64,
    known_incompressible: bool,
    excluded: bool,
)
    requires
        attributes & 0x4000u32 == 0,
        attributes & 0x200u32 == 0,
        attributes & 0x1000u32 == 0,
        attributes & 0x400u32 == 0,
        attributes & 0x800u32 == 0,
        physical_size >= logical_size,
        attributes & 0x1u32 != 0 || attributes & 0x4u32 != 0 || attributes & 0x100u32 != 0,
    ensures
        classify_spec(attributes, logical_size, physical_size, content_len, cluster_size, known_incompressible, excluded)
            == Disposition::Skip,
{
    assert(attributes & 0x1u32 != 0 || attributes & 0x4u32 != 0 || attributes & 0x100u32 != 0 ==> attributes
        & 0x105u32 != 0) by (bit_vector);
}

/// The file after an accepted estimate: its estimated size and ratio are recorded.
pub open spec fn with_estimate(fi: FileInfo, ratio_bits: u32, estimated_physical_size: u64) -> FileInfo {
    FileInfo { estimated_physical_size, estimate_valid: true, estimated_ratio_bits: ratio_bits, ..fi }
}

/// Records the outcome of estimating a file: with `accepted` (the ratio's bits
/// and the projected allocation) the file becomes compressible with its
/// estimate; otherwise it is skipped.
pub fn apply_estimate(ds: &mut FolderInfo, fi: FileInfo, accepted: Option<(u32, u64)>)
    ensures
        match accepted {
            Some((bits, est)) => final(ds)@ == old(ds)@.pushed(FileKind::Compressible, with_estimate(fi, bits, est)),
            None => final(ds)@ == old(ds)@.pushed(FileKind::Skipped, fi),
        },
{
    match accepted {
        Some((bits, est)) => {
            let mut fi = fi;
            fi.estimated_physical_size = est;
            fi.estimate_valid = true;
            fi.estimated_ratio_bits = bits;
            ds.push(FileKind::Compressible, fi);
        },
        None => ds.push(FileKind::Skipped, fi),
    }
}

/// What the program learns about a selected folder from the system.
pub struct TargetFacts {
    /// The path exists.
    pub exists: bool,
    /// The path is a directory.
    pub is_dir: bool,
    /// The name of the volume's filesystem, or the message of the failed query.
    pub filesystem: Result<String, String>,
    /// The active Windows directory (`SystemRoot`), when it is known.
    pub system_root: Option<String>,
    /// The folder has the legacy NTFS compression attribute.
    pub legacy_compressed: bool,
}

/// `s` without leading `\` characters.
pub open spec fn trim_leading_backslashes(s: Seq<char>) -> Seq<char>
    decreases s.len(),
{
    if s.len() > 0 && s[0] == '\\' {
        trim_leading_backslashes(s.drop_first())
    } else {
        s
    }
}

/// The part of `s` before its first `\`.
pub open spec fn first_segment(s: Seq<char>) -> Seq<char>
    decreases s.len(),
{
    if s.len() == 0 {
        seq![]
    } else if s.last() == '\\' && !s.drop_last().contains('\\') {
        s.drop_last()
    } else if s.drop_last().contains('\\') {
        first_segment(s.drop_last())
    } else {
        s
    }
}

/// The folder's first directory below the drive root is a Windows-managed one:
/// `System Volume Information`, `Recovery`, or a name starting with `$`.
pub open spec fn is_protected_location(path_norm: Seq<char>, root_norm: Seq<char>) -> bool {
    &&& root_norm.len() <= path_norm.len()
    &&& path_norm.take(root_norm.len() as int) == root_norm
    &&& {
        let first = first_segment(trim_leading_backslashes(path_norm.skip(root_norm.len() as int)));
        ||| eq_ignore_case(first, "system volume information"@)
        ||| eq_ignore_case(first, "recovery"@)
        ||| (first.len() > 0 && first[0] == '$')
    }
}

/// Why a folder cannot be a WOF target, checked in this order; `None` when it can.
pub open spec fn target_error(path: Seq<char>, facts: TargetFacts) -> Option<Seq<char>> {
    if !facts.exists {
        Some("The selected folder no longer exists."@)
    } else if !facts.is_dir {
        Some("The selected path is not a folder."@)
    } else {
        match drive_letter(path) {
            None => Some(
                "Only local drive folders are supported. Network/UNC paths are not valid WOF targets."@,
            ),
            Some(l) => {
                let root = seq![l, ':', '\\'];
                if normalized_spec(path) == normalized_spec(root) {
                    Some("Select a folder rather than an entire drive root."@)
                } else {
                    match facts.filesystem {
                        Err(e) => Some("Unable to query the target filesystem: "@ + e@),
                        Ok(fs) => if !eq_ignore_case(fs@, "NTFS"@) {
                            Some(
                                "Windows WOF compression requires NTFS. This folder is on "@ + (if fs@.len()
                                    == 0 {
                                    "an unknown filesystem"@
                                } else {
                                    fs@
                                }) + "."@,
                            )
                        } else if facts.system_root is Some && is_under_spec(
                            path,
                            facts.system_root->0@,
                        ) {
                            Some("The active Windows directory is protected from compression."@)
                        } else if is_protected_location(normalized_spec(path), normalized_spec(root)) {
                            Some("The selected folder is a protected Windows-managed path."@)
                        } else if facts.legacy_compressed {
                            Some(
                                "The selected folder uses legacy NTFS (LZNT1) compression. Disable 'Compress contents to save disk space' on the folder before using WOF compression."@,
                            )
                        } else {
                            None
                        }
                    }
                }
            },
        }
    }
}

fn concat_str(a: &str, b: &Vec<char>, c: &str) -> (res: String)
    ensures
        res@ == a@ + b@ + c@,
{
    let mut v = chars_of(a);
    crate::paths::append_chars(&mut v, b);
    let cc = chars_of(c);
    crate::paths::append_chars(&mut v, &cc);
    string_from(&v)
}

proof fn lemma_first_segment_of_push(s: Seq<char>, c: char)
    requires
        !s.contains('\\'),
        c != '\\',
    ensures
        !s.push(c).contains('\\'),
{
    if s.push(c).contains('\\') {
        let k = choose|k: int| 0 <= k < s.push(c).len() && s.push(c)[k] == '\\';
        if k < s.len() {
            assert(s[k] == '\\');
        }
    }
}

fn first_segment_exec(s: &Vec<char>, start: usize) -> (res: Vec<char>)
    requires
        start <= s.len(),
    ensures
        res@ == first_segment(s@.skip(start as int)),
{
    let ghost t = s@.skip(start as int);
    let mut res: Vec<char> = Vec::new();
    let mut k: usize = start;
    while k < s.len() && s[k] != '\\'
        invariant
            start <= k <= s.len(),
            t == s@.skip(start as int),
            res@ == t.take(k - start),
            !res@.contains('\\'),
        decreases s.len() - k,
    {
        proof {
            lemma_first_segment_of_push(res@, s@[k as int]);
        }
        res.push(s[k]);
        assert(t.take(k + 1 - start) =~= t.take(k - start).push(s@[k as int]));
        k = k + 1;
    }
    proof {
        lemma_first_segment_prefix(t, (k - start) as int);
    }
    res
}

proof fn lemma_first_segment_prefix(t: Seq<char>, n: int)
    requires
        0 <= n <= t.len(),
        !t.take(n).contains('\\'),
        n == t.len() || t[n] == '\\',
    ensures
        first_segment(t) == t.take(n),
    decreases t.len(),
{
    if t.len() == 0 {
    } else if n == t.len() {
        assert(t.take(n) =~= t);
        assert(!t.drop_last().contains('\\')) by {
            if t.drop_last().contains('\\') {
                let k = choose|k: int| 0 <= k < t.drop_last().len() && t.drop_last()[k] == '\\';
                assert(t.take(n)[k] == '\\');
            }
        }
    } else if n == t.len() - 1 {
        assert(t.drop_last() =~= t.take(n));
    } else {
        assert(t.drop_last().contains('\\')) by {
            assert(t.drop_last()[n] == '\\');
        }
        assert(t.drop_last().take(n) =~= t.take(n));
        lemma_first_segment_prefix(t.drop_last(), n);
    }
}

/// Checks that a folder can be a WOF target (see [`target_error`]).
pub fn validate_target(path: &str, facts: &TargetFacts) -> (res: Result<(), String>)
    ensures
        match target_error(path@, *facts) {
            Some(e) => res matches Err(m) && m@ == e,
            None => res is Ok,
        },
{
    if !facts.exists {
        return Err("The selected folder no longer exists.".to_string());
    }
    if !facts.is_dir {
        return Err("The selected path is not a folder.".to_string());
    }
    let p = chars_of(path);
    let l = match drive_letter_exec(&p) {
        Some(l) => l,
        None => {
            return Err(
                "Only local drive folders are supported. Network/UNC paths are not valid WOF targets.".to_string(),
            );
        },
    };
    let mut root: Vec<char> = Vec::new();
    root.push(l);
    root.push(':');
    root.push('\\');
    assert(root@ =~= seq![l, ':', '\\']);
    let path_norm = crate::paths::normalized_chars(&p);
    let root_norm = crate::paths::normalized_chars(&root);
    if crate::text::chars_equal(&path_norm, &root_norm) {
        return Err("Select a folder rather than an entire drive root.".to_string());
    }
    match &facts.filesystem {
        Err(e) => {
            let ec = chars_of(e.as_str());
            let r = concat_str("Unable to query the target filesystem: ", &ec, "");
            proof {
                reveal_strlit("");
                assert("Unable to query the target filesystem: "@ + ec@ + ""@ =~= "Unable to query the target filesystem: "@ + ec@);
            }
            return Err(r);
        },
        Ok(fs) => {
            let fc = chars_of(fs.as_str());
            if !matches_literal_ignore_case(&fc, "NTFS") {
                if fc.len() == 0 {
                    let unknown = chars_of("an unknown filesystem");
                    return Err(concat_str("Windows WOF compression requires NTFS. This folder is on ", &unknown, "."));
                }
                return Err(concat_str("Windows WOF compression requires NTFS. This folder is on ", &fc, "."));
            }
        },
    }
    match &facts.system_root {
        Some(sr) => {
            if crate::paths::is_under(path, sr.as_str()) {
                return Err("The active Windows directory is protected from compression.".to_string());
            }
        },
        None => {},
    }
    if crate::text::starts_with_chars(&path_norm, &root_norm) {
        let mut k: usize = root_norm.len();
        let ghost rest = path_norm@.skip(root_norm@.len() as int);
        assert(rest =~= path_norm@.skip(k as int));
        while k < path_norm.len() && path_norm[k] == '\\'
            invariant
                root_norm@.len() <= k <= path_norm@.len(),
                trim_leading_backslashes(rest) == trim_leading_backslashes(path_norm@.skip(k as int)),
            decreases path_norm.len() - k,
        {
            assert(path_norm@.skip(k as int).drop_first() =~= path_norm@.skip(k + 1 as int));
            k = k + 1;
        }
        assert(trim_leading_backslashes(path_norm@.skip(k as int)) == path_norm@.skip(k as int));
        let first = first_segment_exec(&path_norm, k);
        if matches_literal_ignore_case(&first, "system volume information") || matches_literal_ignore_case(
            &first,
            "recovery",
        ) || (first.len() > 0 && first[0] == '$') {
            return Err("The selected folder is a protected Windows-managed path.".to_string());
        }
    }
    if facts.legacy_compressed {
        return Err(
            "The selected folder uses legacy NTFS (LZNT1) compression. Disable 'Compress contents to save disk space' on the folder before using WOF compression.".to_string(),
        );
    }
    Ok(())
}

} // verus!
