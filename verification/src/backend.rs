//! The decisions of the operations on an analysed folder: keeping DirectStorage
//! games out of compression, the viewer of compressed files, progress and
//! result bookkeeping of compression and decompression runs.
use vstd::prelude::*;

use humansize::FileSize;

use crate::directstorage::{seqs_of, strs_of};
use crate::folder::{FileInfo, FileKind, FolderInfo, FolderView};
use crate::paths::{is_ascii_alpha, is_sep, leading_dot, physical_root, prefix_of, PathView, PrefixKind, parent, path_text, is_under_chars, is_under_spec, join, join_path, parse, parse_path, render, render_path, WinPath};
use crate::config::{has_exclusion, settings_error, views_of, Compression, Settings};
use crate::config::MAX_CONFIGURED_THREADS;
use crate::folder::{compression_worker_count, compression_worker_count_spec, AUTO_MAX_DECOMPRESSION_THREADS};
use crate::text::{chars_of, eq_ignore_ascii_case, eq_ignore_case, trim, trim_chars};

verus! {

broadcast use vstd::std_specs::vecdeque::group_vec_dequeue_axioms;

/// The analysed folder as a base for its files' paths.  The folder is an
/// absolute directory, so a folder written with a drive but without a root
/// separator (`D:` joined with `Games`, which Windows writes `D:Games`) is
/// read from the root of that drive, as `D:\Games`.
pub open spec fn folder_base(folder_path: Seq<char>) -> PathView {
    let b = parse(folder_path);
    if b.prefix.len() > 0 {
        PathView { rooted: true, ..b }
    } else {
        b
    }
}

/// The file at `rel` inside the folder at `folder_path` lies under one of `roots`.
pub open spec fn protected_by(folder_path: Seq<char>, rel: Seq<char>, roots: Seq<Seq<char>>) -> bool {
    exists|i: int| 0 <= i < roots.len() && is_under_spec(render(join(folder_base(folder_path), parse(rel))), #[trigger] roots[i])
}

/// A folder written with a drive but without a root separator protects its
/// files exactly as the same folder written from the root of the drive: a file
/// `Foo\data.bin` of the folder `D:Games` is under the root `D:\Games\Foo`.
pub proof fn law_drive_folder_counts_from_root(folder: Seq<char>, rel: Seq<char>, roots: Seq<Seq<char>>)
    requires
        folder.len() >= 3,
        is_ascii_alpha(folder[0]),
        folder[1] == ':',
        !is_sep(folder[2]),
        folder[2] != '.',
    ensures
        protected_by(folder, rel, roots) == protected_by(folder.take(2) + seq!['\\'] + folder.skip(2), rel, roots),
{
    let rooted = folder.take(2) + seq!['\\'] + folder.skip(2);
    assert(prefix_of(folder) == Some((PrefixKind::Disk, 2int)));
    assert(rooted[0] == folder[0] && rooted[1] == folder[1] && rooted[2] == '\\');
    assert(prefix_of(rooted) == Some((PrefixKind::Disk, 2int)));
    assert(rooted.skip(3) =~= folder.skip(2));
    assert(rooted.take(2) =~= folder.take(2));
    assert(!physical_root(folder));
    assert(physical_root(rooted));
    assert(!leading_dot(folder));
    assert(folder_base(folder).parts == folder_base(rooted).parts);
    assert(folder_base(folder).prefix == folder_base(rooted).prefix);
    assert(render(join(folder_base(folder), parse(rel))) == render(join(folder_base(rooted), parse(rel))));
}

/// The folder after `n` rounds of taking the first compressible file and
/// putting it back as skipped when it lies under one of `roots` (counting it),
/// or at the end of the compressible files otherwise.
pub open spec fn protect_rounds(f: FolderView, roots: Seq<Seq<char>>, n: nat) -> (FolderView, nat)
    decreases n,
{
    if n == 0 {
        (f, 0)
    } else {
        let (g, c) = protect_rounds(f, roots, (n - 1) as nat);
        let (h, r) = g.popped(FileKind::Compressible);
        match r {
            None => (g, c),
            Some(fi) => if protected_by(f.path, fi.path@, roots) {
                (h.pushed(FileKind::Skipped, fi), c + 1)
            } else {
                (h.pushed(FileKind::Compressible, fi), c)
            },
        }
    }
}

/// Keeping DirectStorage games out of compression: with no roots nothing
/// changes; otherwise one round per counted compressible file.
pub open spec fn protect_spec(f: FolderView, roots: Seq<Seq<char>>) -> (FolderView, nat) {
    if roots.len() == 0 {
        (f, 0)
    } else {
        protect_rounds(f, roots, f.compressible.count as nat)
    }
}

proof fn lemma_rounds_stable(f: FolderView, roots: Seq<Seq<char>>, k: nat, n: nat)
    requires
        k <= n,
        protect_rounds(f, roots, k).0.popped(FileKind::Compressible).1 is None,
    ensures
        protect_rounds(f, roots, n) == protect_rounds(f, roots, k),
    decreases n - k,
{
    if k < n {
        lemma_rounds_stable(f, roots, k, (n - 1) as nat);
    }
}

fn is_protected(base: &WinPath, rel: &String, roots: &Vec<Vec<char>>) -> (res: bool)
    ensures
        res == exists|i: int| 0 <= i < roots@.len() && is_under_spec(render(join(base@, parse(rel@))), #[trigger] seqs_of(roots@)[i]),
{
    let rc = chars_of(rel.as_str());
    let rp = parse_path(&rc);
    let abs = join_path(base, &rp);
    let a = render_path(&abs);
    let mut i: usize = 0;
    while i < roots.len()
        invariant
            i <= roots.len(),
            a@ == render(join(base@, parse(rel@))),
            forall|k: int| 0 <= k < i ==> !is_under_spec(a@, #[trigger] seqs_of(roots@)[k]),
        decreases roots.len() - i,
    {
        if is_under_chars(&a, &roots[i]) {
            assert(is_under_spec(a@, seqs_of(roots@)[i as int]));
            return true;
        }
        i = i + 1;
    }
    false
}

/// Moves the compressible files that lie under one of `roots` (games using
/// DirectStorage) to the skipped files, and returns how many were moved.
pub fn protect_direct_storage_candidates(folder: &mut FolderInfo, roots: &Vec<String>) -> (res: usize)
    ensures
        (final(folder)@, res as nat) == protect_spec(old(folder)@, strs_of(roots@)),
{
    if roots.len() == 0 {
        return 0;
    }
    let ghost f_in = folder@;
    let mut rs: Vec<Vec<char>> = Vec::new();
    let mut j: usize = 0;
    while j < roots.len()
        invariant
            folder@ == f_in,
            j <= roots.len(),
            seqs_of(rs@) == strs_of(roots@.take(j as int)),
        decreases roots.len() - j,
    {
        let c = chars_of(roots[j].as_str());
        let ghost before = rs@;
        rs.push(c);
        assert(seqs_of(rs@) =~= seqs_of(before).push(c@));
        assert(strs_of(roots@.take(j + 1 as int)) =~= strs_of(roots@.take(j as int)).push(roots@[j as int]@));
        j = j + 1;
    }
    assert(roots@.take(j as int) =~= roots@);
    let ghost f0 = folder@;
    let ghost rv = strs_of(roots@);
    let pc = chars_of(folder.path.as_str());
    let mut base = parse_path(&pc);
    if base.prefix.len() > 0 {
        base.rooted = true;
    }
    let candidates = folder.len(FileKind::Compressible);
    let mut protected: usize = 0;
    let mut n: usize = 0;
    while n < candidates
        invariant
            n <= candidates,
            roots.len() > 0,
            f0 == old(folder)@,
            candidates == f0.compressible.count,
            rv == strs_of(roots@),
            seqs_of(rs@) == rv,
            base@ == folder_base(f0.path),
            protected <= n,
            (folder@, protected as nat) == protect_rounds(f0, rv, n as nat),
        decreases candidates - n,
    {
        let ghost before = folder@;
        let fi = match folder.pop(FileKind::Compressible) {
            Some(fi) => fi,
            None => {
                proof {
                    lemma_rounds_stable(f0, rv, n as nat, candidates as nat);
                }
                assert(folder@ == before);
                assert(rv.len() == roots@.len());
                return protected;
            },
        };
        assert(before.path == f0.path) by {
            lemma_rounds_keep_path(f0, rv, n as nat);
        }
        if is_protected(&base, &fi.path, &rs) {
            protected = protected + 1;
            folder.push(FileKind::Skipped, fi);
        } else {
            folder.push(FileKind::Compressible, fi);
        }
        n = n + 1;
    }
    assert(rv.len() == roots@.len());
    protected
}

/// The files of `files` (inside the folder at `folder_path`) that no root protects, in order.
pub open spec fn unprotected_files(files: Seq<FileInfo>, folder_path: Seq<char>, roots: Seq<Seq<char>>) -> Seq<FileInfo>
    decreases files.len(),
{
    if files.len() == 0 {
        seq![]
    } else {
        let rest = unprotected_files(files.drop_last(), folder_path, roots);
        if protected_by(folder_path, files.last().path@, roots) {
            rest
        } else {
            rest.push(files.last())
        }
    }
}

/// How many files of `files` (inside the folder at `folder_path`) a root protects.
pub open spec fn protected_count(files: Seq<FileInfo>, folder_path: Seq<char>, roots: Seq<Seq<char>>) -> nat
    decreases files.len(),
{
    if files.len() == 0 {
        0
    } else {
        protected_count(files.drop_last(), folder_path, roots) + if protected_by(
            folder_path,
            files.last().path@,
            roots,
        ) {
            1nat
        } else {
            0nat
        }
    }
}

proof fn lemma_protected_count_bound(files: Seq<FileInfo>, p: Seq<char>, roots: Seq<Seq<char>>)
    ensures
        protected_count(files, p, roots) <= files.len(),
    decreases files.len(),
{
    if files.len() > 0 {
        lemma_protected_count_bound(files.drop_last(), p, roots);
    }
}

proof fn lemma_protect_rounds_step(f: FolderView, roots: Seq<Seq<char>>, k: nat)
    requires
        f.consistent(),
        f.skipped.count + f.compressible.count <= usize::MAX,
        k <= f.compressible.files.len(),
    ensures
        ({
            let (g, c) = protect_rounds(f, roots, k);
            let files = f.compressible.files;
            &&& g.consistent()
            &&& g.path == f.path
            &&& g.compressible.files == files.skip(k as int) + unprotected_files(files.take(k as int), f.path, roots)
            &&& c == protected_count(files.take(k as int), f.path, roots)
            &&& g.skipped.count == f.skipped.count + c
            &&& g.compressed == f.compressed
            &&& g.logical_size == f.logical_size
            &&& g.physical_size == f.physical_size
        }),
    decreases k,
{
    let files = f.compressible.files;
    if k == 0 {
        assert(files.skip(0) =~= files);
        assert(files.take(0) =~= Seq::<FileInfo>::empty());
        assert(files + Seq::<FileInfo>::empty() =~= files);
    } else {
        let k1 = (k - 1) as nat;
        lemma_protect_rounds_step(f, roots, k1);
        lemma_protected_count_bound(files.take(k1 as int), f.path, roots);
        let (g, c) = protect_rounds(f, roots, k1);
        let fi = files[k1 as int];
        let kept = unprotected_files(files.take(k1 as int), f.path, roots);
        assert(g.compressible.files[0] == fi);
        crate::folder::law_pop_keeps_totals_exact(g, FileKind::Compressible);
        let (h, r) = g.popped(FileKind::Compressible);
        assert(r == Some(fi));
        assert(h.compressible.files =~= files.skip(k as int) + kept);
        assert(files.take(k as int).drop_last() =~= files.take(k1 as int));
        assert(files.take(k as int).last() == fi);
        if protected_by(f.path, fi.path@, roots) {
            assert(h.skipped.logical_size <= h.logical_size);
            assert(h.skipped.physical_size <= h.physical_size);
        } else {
            crate::folder::law_push_keeps_totals_exact(h, FileKind::Compressible, fi);
            assert(h.compressible.files.push(fi) =~= files.skip(k as int) + kept.push(fi));
        }
    }
}

/// Keeping DirectStorage games out of compression moves exactly the
/// compressible files that some root protects, in order, to the skipped files,
/// counts them, and leaves the compressed files and the folder's totals as
/// they were (for a folder whose totals are exact).
pub proof fn law_protection_moves_exactly_protected_files(f: FolderView, roots: Seq<Seq<char>>)
    requires
        f.consistent(),
        f.skipped.count + f.compressible.count <= usize::MAX,
    ensures
        ({
            let (g, n) = protect_spec(f, roots);
            let files = f.compressible.files;
            &&& g.consistent()
            &&& roots.len() > 0 ==> g.compressible.files == unprotected_files(files, f.path, roots)
            &&& roots.len() > 0 ==> n == protected_count(files, f.path, roots)
            &&& roots.len() == 0 ==> g == f && n == 0
            &&& g.skipped.count == f.skipped.count + n
            &&& g.compressed == f.compressed
            &&& g.logical_size == f.logical_size
            &&& g.physical_size == f.physical_size
        }),
{
    if roots.len() > 0 {
        let files = f.compressible.files;
        lemma_protect_rounds_step(f, roots, files.len());
        assert(files.skip(files.len() as int) =~= Seq::<FileInfo>::empty());
        assert(files.take(files.len() as int) =~= files);
        assert(Seq::<FileInfo>::empty() + unprotected_files(files, f.path, roots) =~= unprotected_files(files, f.path, roots));
    }
}

proof fn lemma_rounds_keep_path(f: FolderView, roots: Seq<Seq<char>>, n: nat)
    ensures
        protect_rounds(f, roots, n).0.path == f.path,
    decreases n,
{
    if n > 0 {
        lemma_rounds_keep_path(f, roots, (n - 1) as nat);
    }
}

/// What `str::to_lowercase` gives for a string: each character replaced by its
/// Unicode lowercase mapping.
pub uninterp spec fn unicode_lowercase(s: Seq<char>) -> Seq<char>;

/// Calls `str::to_lowercase`.  Claims: the result depends on the string alone,
/// and text made of ASCII characters only (empty text included) gets the ASCII
/// lower-casing, as the Unicode lowercase mapping of an ASCII character is its
/// ASCII lowercase form.
#[verifier::external_body]
fn to_lowercase(s: &str) -> (res: String)
    ensures
        res@ == unicode_lowercase(s@),
        (forall|i: int| 0 <= i < s@.len() ==> (#[trigger] s@[i] as u32) < 128) ==> res@
            == crate::text::ascii_lower(s@),
{
    s.to_lowercase()
}

/// A path matches a viewer query when the query is empty or occurs in the
/// path's Unicode-lowercase form.
pub open spec fn matches_query(path: Seq<char>, query: Seq<char>) -> bool {
    query.len() == 0 || crate::text::contains_run(unicode_lowercase(path), query)
}

/// Whether `path` matches the (already lower-cased) viewer `query`.
pub fn path_matches_query(path: &str, query: &str) -> (res: bool)
    ensures
        res == matches_query(path@, query@),
{
    let q = chars_of(query);
    if q.len() == 0 {
        return true;
    }
    let lower = to_lowercase(path);
    let l = chars_of(lower.as_str());
    crate::text::contains_chars(&l, &q)
}

/// Lexicographic order of character sequences by code point (a proper prefix comes first).
pub open spec fn chars_lt(a: Seq<char>, b: Seq<char>) -> bool
    decreases a.len(),
{
    if b.len() == 0 {
        false
    } else if a.len() == 0 {
        true
    } else if a[0] != b[0] {
        (a[0] as u32) < (b[0] as u32)
    } else {
        chars_lt(a.drop_first(), b.drop_first())
    }
}

/// Lexicographic order of component lists.
pub open spec fn comps_lt(a: Seq<Seq<char>>, b: Seq<Seq<char>>) -> bool
    decreases a.len(),
{
    if b.len() == 0 {
        false
    } else if a.len() == 0 {
        true
    } else if a[0] != b[0] {
        chars_lt(a[0], b[0])
    } else {
        comps_lt(a.drop_first(), b.drop_first())
    }
}

/// The components of a path as `Path` orders them: the drive prefix, then the
/// root, then the parts, each tagged so that prefixes sort before roots and
/// roots before parts.
pub open spec fn tagged_components(p: crate::paths::PathView) -> Seq<Seq<char>> {
    (if p.prefix.len() > 0 {
        seq![seq!['\u{0}'] + p.prefix]
    } else {
        seq![]
    }) + (if p.rooted {
        seq![seq!['\u{1}']]
    } else {
        seq![]
    }) + p.parts.map_values(|x: Seq<char>| seq!['\u{2}'] + x)
}

/// `Path` ordering of two path strings: their components compared in order.
pub open spec fn path_lt(a: Seq<char>, b: Seq<char>) -> bool {
    comps_lt(tagged_components(parse(a)), tagged_components(parse(b)))
}

fn chars_lt_exec(a: &Vec<char>, b: &Vec<char>) -> (res: bool)
    ensures
        res == chars_lt(a@, b@),
{
    let mut i: usize = 0;
    assert(a@.skip(0) =~= a@);
    assert(b@.skip(0) =~= b@);
    while i < a.len() && i < b.len() && a[i] == b[i]
        invariant
            i <= a.len(),
            i <= b.len(),
            chars_lt(a@, b@) == chars_lt(a@.skip(i as int), b@.skip(i as int)),
        decreases a.len() - i,
    {
        assert(a@.skip(i as int).drop_first() =~= a@.skip(i + 1 as int));
        assert(b@.skip(i as int).drop_first() =~= b@.skip(i + 1 as int));
        i = i + 1;
    }
    if i == b.len() {
        false
    } else if i == a.len() {
        true
    } else {
        assert(a@.skip(i as int)[0] == a@[i as int]);
        assert(b@.skip(i as int)[0] == b@[i as int]);
        (a[i] as u32) < (b[i] as u32)
    }
}

fn tagged_exec(p: &WinPath) -> (res: Vec<Vec<char>>)
    ensures
        seqs_of(res@) == tagged_components(p@),
{
    let mut res: Vec<Vec<char>> = Vec::new();
    let ghost head: Seq<Seq<char>> = seq![];
    if p.prefix.len() > 0 {
        let mut c: Vec<char> = Vec::new();
        c.push('\u{0}');
        crate::paths::append_chars(&mut c, &p.prefix);
        res.push(c);
    }
    if p.rooted {
        let mut c: Vec<char> = Vec::new();
        c.push('\u{1}');
        let ghost before = res@;
        res.push(c);
        assert(seqs_of(res@) =~= seqs_of(before).push(seq!['\u{1}']));
    }
    let ghost start = seqs_of(res@);
    assert(start =~= (if p@.prefix.len() > 0 {
        seq![seq!['\u{0}'] + p@.prefix]
    } else {
        seq![]
    }) + (if p@.rooted {
        seq![seq!['\u{1}']]
    } else {
        seq![]
    }));
    let mut i: usize = 0;
    while i < p.parts.len()
        invariant
            i <= p.parts.len(),
            seqs_of(res@) == start + p@.parts.take(i as int).map_values(|x: Seq<char>| seq!['\u{2}'] + x),
        decreases p.parts.len() - i,
    {
        let mut c: Vec<char> = Vec::new();
        c.push('\u{2}');
        crate::paths::append_chars(&mut c, &p.parts[i]);
        let ghost before = res@;
        res.push(c);
        assert(seqs_of(res@) =~= seqs_of(before).push(c@));
        assert(p@.parts.take(i + 1 as int).map_values(|x: Seq<char>| seq!['\u{2}'] + x) =~= p@.parts.take(i as int).map_values(|x: Seq<char>| seq!['\u{2}'] + x).push(seq!['\u{2}'] + p@.parts[i as int]));
        i = i + 1;
    }
    assert(p@.parts.take(i as int) =~= p@.parts);
    res
}

fn comps_lt_exec(a: &Vec<Vec<char>>, b: &Vec<Vec<char>>) -> (res: bool)
    ensures
        res == comps_lt(seqs_of(a@), seqs_of(b@)),
{
    let ghost av = seqs_of(a@);
    let ghost bv = seqs_of(b@);
    let mut i: usize = 0;
    assert(av.skip(0) =~= av);
    assert(bv.skip(0) =~= bv);
    while i < a.len() && i < b.len() && crate::text::chars_equal(&a[i], &b[i])
        invariant
            av == seqs_of(a@),
            bv == seqs_of(b@),
            i <= a.len(),
            i <= b.len(),
            comps_lt(av, bv) == comps_lt(av.skip(i as int), bv.skip(i as int)),
        decreases a.len() - i,
    {
        assert(av.skip(i as int).drop_first() =~= av.skip(i + 1 as int));
        assert(bv.skip(i as int).drop_first() =~= bv.skip(i + 1 as int));
        assert(av.skip(i as int)[0] == a@[i as int]@);
        assert(bv.skip(i as int)[0] == b@[i as int]@);
        i = i + 1;
    }
    if i == b.len() {
        false
    } else if i == a.len() {
        true
    } else {
        assert(av.skip(i as int)[0] == a@[i as int]@);
        assert(bv.skip(i as int)[0] == b@[i as int]@);
        chars_lt_exec(&a[i], &b[i])
    }
}

/// Whether path `a` orders before path `b` (see [`path_lt`]).
pub fn path_lt_exec(a: &str, b: &str) -> (res: bool)
    ensures
        res == path_lt(a@, b@),
{
    let ac = chars_of(a);
    let bc = chars_of(b);
    let ap = parse_path(&ac);
    let bp = parse_path(&bc);
    let at = tagged_exec(&ap);
    let bt = tagged_exec(&bp);
    comps_lt_exec(&at, &bt)
}

/// One row of the viewer of compressed files: a file, or a folder with the
/// totals of its compressed files.
pub enum CompressedViewItem {
    File { path: String, logical_size: u64, physical_size: u64 },
    Folder { path: String, count: usize, logical_size: u64, physical_size: u64 },
}

/// The path shown for a row.
pub open spec fn item_path(it: CompressedViewItem) -> Seq<char> {
    match it {
        CompressedViewItem::File { path, .. } => path@,
        CompressedViewItem::Folder { path, .. } => path@,
    }
}

/// The viewer row of a compressed file.
pub open spec fn file_item(fi: FileInfo) -> CompressedViewItem {
    CompressedViewItem::File {
        path: fi.path,
        logical_size: fi.logical_size,
        physical_size: fi.physical_size,
    }
}

/// `it` inserted into `sorted` after every row whose path does not order after it.
pub open spec fn insert_by_path(sorted: Seq<CompressedViewItem>, it: CompressedViewItem) -> Seq<CompressedViewItem>
    decreases sorted.len(),
{
    if sorted.len() == 0 {
        seq![it]
    } else if path_lt(item_path(it), item_path(sorted[0])) {
        seq![it] + sorted
    } else {
        seq![sorted[0]] + insert_by_path(sorted.drop_first(), it)
    }
}

/// The rows stably sorted by path (`sort_by` on `Path` order).
pub open spec fn sort_by_path(items: Seq<CompressedViewItem>) -> Seq<CompressedViewItem>
    decreases items.len(),
{
    if items.len() == 0 {
        seq![]
    } else {
        insert_by_path(sort_by_path(items.drop_last()), items.last())
    }
}

/// The rows of the compressed files whose paths match the query, in file order.
pub open spec fn matching_file_items(files: Seq<FileInfo>, query: Seq<char>) -> Seq<CompressedViewItem>
    decreases files.len(),
{
    if files.len() == 0 {
        seq![]
    } else {
        matching_file_items(files.drop_last(), query) + if matches_query(files.last().path@, query) {
            seq![file_item(files.last())]
        } else {
            seq![]
        }
    }
}

/// The viewer's file rows: matching compressed files sorted by path.
pub open spec fn file_items_spec(folder: FolderView, query: Seq<char>) -> Seq<CompressedViewItem> {
    sort_by_path(matching_file_items(folder.compressed.files, query))
}

proof fn lemma_insert_at(sorted: Seq<CompressedViewItem>, it: CompressedViewItem, pos: int)
    requires
        0 <= pos <= sorted.len(),
        forall|k: int| 0 <= k < pos ==> !path_lt(item_path(it), #[trigger] item_path(sorted[k])),
        pos == sorted.len() || path_lt(item_path(it), item_path(sorted[pos])),
    ensures
        insert_by_path(sorted, it) == sorted.take(pos) + seq![it] + sorted.skip(pos),
    decreases sorted.len(),
{
    if sorted.len() == 0 {
        assert(sorted.take(pos) + seq![it] + sorted.skip(pos) =~= seq![it]);
    } else if pos == 0 {
        assert(sorted.take(pos) + seq![it] + sorted.skip(pos) =~= seq![it] + sorted);
    } else {
        let rest = sorted.drop_first();
        assert forall|k: int| 0 <= k < pos - 1 implies !path_lt(item_path(it), #[trigger] item_path(rest[k])) by {
            assert(rest[k] == sorted[k + 1]);
        }
        if pos < sorted.len() {
            assert(rest[pos - 1] == sorted[pos]);
        }
        assert(!path_lt(item_path(it), item_path(sorted[0])));
        lemma_insert_at(rest, it, pos - 1);
        assert(seq![sorted[0]] + (rest.take(pos - 1) + seq![it] + rest.skip(pos - 1)) =~= sorted.take(pos) + seq![it] + sorted.skip(pos));
    }
}

fn item_path_str(it: &CompressedViewItem) -> (res: &String)
    ensures
        res@ == item_path(*it),
{
    match it {
        CompressedViewItem::File { path, .. } => path,
        CompressedViewItem::Folder { path, .. } => path,
    }
}

/// Inserts `it` into the sorted rows (see [`insert_by_path`]).
fn insert_sorted(items: &mut Vec<CompressedViewItem>, it: CompressedViewItem)
    ensures
        final(items)@ == insert_by_path(old(items)@, it),
{
    let mut pos: usize = 0;
    let p = item_path_str(&it);
    while pos < items.len() && !path_lt_exec(p.as_str(), item_path_str(&items[pos]).as_str())
        invariant
            pos <= items.len(),
            items@ == old(items)@,
            p@ == item_path(it),
            forall|k: int| 0 <= k < pos ==> !path_lt(item_path(it), #[trigger] item_path(items@[k])),
        decreases items.len() - pos,
    {
        pos = pos + 1;
    }
    proof {
        lemma_insert_at(items@, it, pos as int);
    }
    items.insert(pos, it);
    assert(items@ =~= old(items)@.take(pos as int) + seq![it] + old(items)@.skip(pos as int));
}

/// The viewer's file rows: the compressed files whose paths match the query,
/// sorted by path.
pub fn compressed_file_items(folder: &FolderInfo, query: &str) -> (res: Vec<CompressedViewItem>)
    ensures
        res@ == file_items_spec(folder@, query@),
{
    let files = &folder.compressed.files;
    let ghost fv = files@;
    let mut res: Vec<CompressedViewItem> = Vec::new();
    let ghost matching: Seq<CompressedViewItem> = seq![];
    let mut i: usize = 0;
    while i < files.len()
        invariant
            fv == folder@.compressed.files,
            files@ == fv,
            i <= fv.len(),
            res@ == sort_by_path(matching_file_items(fv.take(i as int), query@)),
        decreases fv.len() - i,
    {
        let fi = &files[i];
        assert(fv.take(i + 1 as int).drop_last() =~= fv.take(i as int));
        assert(fv.take(i + 1 as int).last() == *fi);
        if path_matches_query(fi.path.as_str(), query) {
            let it = CompressedViewItem::File {
                path: fi.path.clone(),
                logical_size: fi.logical_size,
                physical_size: fi.physical_size,
            };
            assert(it == file_item(*fi));
            let ghost m0 = matching_file_items(fv.take(i as int), query@);
            assert(matching_file_items(fv.take(i + 1 as int), query@) == m0.push(it));
            assert(m0.push(it).drop_last() =~= m0);
            insert_sorted(&mut res, it);
        } else {
            assert(matching_file_items(fv.take(i + 1 as int), query@) =~= matching_file_items(fv.take(i as int), query@));
        }
        i = i + 1;
    }
    assert(fv.take(i as int) =~= fv);
    res
}

/// The folder a compressed file is shown under: its parent directory, or `.`
/// for files directly in the analysed folder.
pub open spec fn parent_display(path: Seq<char>) -> Seq<char> {
    match parent(parse(path)) {
        Some(q) => if path_text(q).len() > 0 {
            path_text(q)
        } else {
            "."@
        },
        None => "."@,
    }
}

/// Totals of the compressed files under one folder.
pub struct FolderTotals {
    pub path: Seq<char>,
    pub count: nat,
    pub logical_size: u64,
    pub physical_size: u64,
}

/// Index of the totals for `key`, or -1.
pub open spec fn find_group(groups: Seq<FolderTotals>, key: Seq<char>) -> int
    decreases groups.len(),
{
    if groups.len() == 0 {
        -1
    } else if groups.last().path == key {
        groups.len() - 1
    } else {
        find_group(groups.drop_last(), key)
    }
}

/// Totals after counting `fi` under `key` (sizes add saturating).
pub open spec fn add_to_groups(groups: Seq<FolderTotals>, key: Seq<char>, fi: FileInfo) -> Seq<FolderTotals> {
    let i = find_group(groups, key);
    if i < 0 {
        groups.push(FolderTotals { path: key, count: 1, logical_size: fi.logical_size, physical_size: fi.physical_size })
    } else {
        let g = groups[i];
        groups.update(i, FolderTotals {
            path: key,
            count: g.count + 1,
            logical_size: g.logical_size.saturating_add(fi.logical_size),
            physical_size: g.physical_size.saturating_add(fi.physical_size),
        })
    }
}

/// Totals per folder, in order of each folder's first file.
pub open spec fn groups_of(files: Seq<FileInfo>) -> Seq<FolderTotals>
    decreases files.len(),
{
    if files.len() == 0 {
        seq![]
    } else {
        add_to_groups(groups_of(files.drop_last()), parent_display(files.last().path@), files.last())
    }
}

/// The viewer row of a folder's totals.
pub open spec fn folder_item_matches(it: CompressedViewItem, g: FolderTotals) -> bool {
    it matches CompressedViewItem::Folder { path, count, logical_size, physical_size } && path@ == g.path
        && count == g.count && logical_size == g.logical_size && physical_size == g.physical_size
}

/// The rows whose paths match the query, in order.
pub open spec fn matching_items(items: Seq<CompressedViewItem>, query: Seq<char>) -> Seq<CompressedViewItem>
    decreases items.len(),
{
    if items.len() == 0 {
        seq![]
    } else {
        matching_items(items.drop_last(), query) + if matches_query(item_path(items.last()), query) {
            seq![items.last()]
        } else {
            seq![]
        }
    }
}

/// The viewer's folder rows: `rows` are the per-folder totals (one row per
/// folder, in order of first appearance); the result is these rows sorted by
/// path and filtered by the query.
pub open spec fn folder_items_spec(rows: Seq<CompressedViewItem>, query: Seq<char>) -> Seq<CompressedViewItem> {
    matching_items(sort_by_path(rows), query)
}

/// `rows` are the viewer rows of the given totals, one for one.
pub open spec fn rows_of(rows: Seq<CompressedViewItem>, groups: Seq<FolderTotals>) -> bool {
    rows.len() == groups.len() && forall|k: int| 0 <= k < rows.len() ==> folder_item_matches(#[trigger] rows[k], groups[k])
}

struct TotalsRow {
    path: Vec<char>,
    count: usize,
    logical_size: u64,
    physical_size: u64,
}

spec fn rows_view(rows: Seq<TotalsRow>) -> Seq<FolderTotals> {
    rows.map_values(|r: TotalsRow| FolderTotals { path: r.path@, count: r.count as nat, logical_size: r.logical_size, physical_size: r.physical_size })
}

fn find_row(rows: &Vec<TotalsRow>, key: &Vec<char>) -> (res: Option<usize>)
    ensures
        match res {
            Some(i) => find_group(rows_view(rows@), key@) == i as int && i < rows@.len(),
            None => find_group(rows_view(rows@), key@) == -1,
        },
{
    let mut k: usize = rows.len();
    let ghost rv = rows_view(rows@);
    assert(rv.take(k as int) =~= rv);
    while k > 0
        invariant
            k <= rows.len(),
            rv == rows_view(rows@),
            find_group(rv, key@) == find_group(rv.take(k as int), key@),
        decreases k,
    {
        assert(rv.take(k as int).drop_last() =~= rv.take(k - 1 as int));
        assert(rv.take(k as int).last() == rv[k - 1]);
        if crate::text::chars_equal(&rows[k - 1].path, key) {
            return Some(k - 1);
        }
        k = k - 1;
    }
    None
}

fn parent_display_exec(path: &String) -> (res: Vec<char>)
    ensures
        res@ == parent_display(path@),
{
    let c = chars_of(path.as_str());
    let p = parse_path(&c);
    match crate::paths::parent_path(&p) {
        Some(q) => {
            let r = crate::paths::text_of(&q);
            if r.len() > 0 {
                r
            } else {
                chars_of(".")
            }
        },
        None => chars_of("."),
    }
}

/// The viewer's folder rows: the compressed files grouped by their folder with
/// count and size totals, sorted by path, keeping the folders whose paths
/// match the query.
pub fn compressed_folder_items(folder: &FolderInfo, query: &str) -> (res: Vec<CompressedViewItem>)
    ensures
        exists|rows: Seq<CompressedViewItem>| rows_of(rows, groups_of(folder@.compressed.files))
            && res@ == #[trigger] folder_items_spec(rows, query@),
{
    let files = &folder.compressed.files;
    let ghost fv = files@;
    let mut rows: Vec<TotalsRow> = Vec::new();
    let mut i: usize = 0;
    while i < files.len()
        invariant
            fv == folder@.compressed.files,
            files@ == fv,
            i <= fv.len(),
            rows_view(rows@) == groups_of(fv.take(i as int)),
            forall|k: int| 0 <= k < rows@.len() ==> #[trigger] rows@[k].count <= i,
        decreases fv.len() - i,
    {
        let fi = &files[i];
        assert(fv.take(i + 1 as int).drop_last() =~= fv.take(i as int));
        assert(fv.take(i + 1 as int).last() == *fi);
        let key = parent_display_exec(&fi.path);
        let ghost before = rows@;
        match find_row(&rows, &key) {
            Some(j) => {
                let old_row = &rows[j];
                let row = TotalsRow {
                    path: key,
                    count: old_row.count + 1,
                    logical_size: old_row.logical_size.saturating_add(fi.logical_size),
                    physical_size: old_row.physical_size.saturating_add(fi.physical_size),
                };
                rows.set(j, row);
                assert(rows_view(rows@) =~= add_to_groups(rows_view(before), parent_display(fi.path@), *fi));
            },
            None => {
                let row = TotalsRow {
                    path: key,
                    count: 1,
                    logical_size: fi.logical_size,
                    physical_size: fi.physical_size,
                };
                rows.push(row);
                assert(rows_view(rows@) =~= add_to_groups(rows_view(before), parent_display(fi.path@), *fi));
            },
        }
        i = i + 1;
    }
    assert(fv.take(i as int) =~= fv);
    let ghost groups = rows_view(rows@);
    let mut sorted: Vec<CompressedViewItem> = Vec::new();
    let ghost mut unsorted: Seq<CompressedViewItem> = seq![];
    let mut k: usize = 0;
    while k < rows.len()
        invariant
            k <= rows.len(),
            groups == rows_view(rows@),
            unsorted.len() == k,
            forall|q: int| 0 <= q < k ==> folder_item_matches(#[trigger] unsorted[q], groups[q]),
            sorted@ == sort_by_path(unsorted),
        decreases rows.len() - k,
    {
        let r = &rows[k];
        let it = CompressedViewItem::Folder {
            path: crate::text::string_from(&r.path),
            count: r.count,
            logical_size: r.logical_size,
            physical_size: r.physical_size,
        };
        proof {
            assert(unsorted.push(it).drop_last() =~= unsorted);
            unsorted = unsorted.push(it);
        }
        insert_sorted(&mut sorted, it);
        k = k + 1;
    }
    assert(rows_of(unsorted, groups));
    let ghost sv = sorted@;
    let mut res: Vec<CompressedViewItem> = Vec::new();
    let mut m: usize = 0;
    while m < sorted.len()
        invariant
            sv == sorted@,
            m <= sv.len(),
            res@ == matching_items(sv.take(m as int), query@),
        decreases sv.len() - m,
    {
        let it = &sorted[m];
        assert(sv.take(m + 1 as int).drop_last() =~= sv.take(m as int));
        assert(sv.take(m + 1 as int).last() == *it);
        if path_matches_query(item_path_str(it).as_str(), query) {
            let c = copy_item(it);
            res.push(c);
        }
        m = m + 1;
    }
    assert(sv.take(m as int) =~= sv);
    assert(res@ == folder_items_spec(unsorted, query@));
    res
}

fn copy_item(it: &CompressedViewItem) -> (res: CompressedViewItem)
    ensures
        res == *it,
{
    match it {
        CompressedViewItem::File { path, logical_size, physical_size } => CompressedViewItem::File {
            path: path.clone(),
            logical_size: *logical_size,
            physical_size: *physical_size,
        },
        CompressedViewItem::Folder { path, count, logical_size, physical_size } => CompressedViewItem::Folder {
            path: path.clone(),
            count: *count,
            logical_size: *logical_size,
            physical_size: *physical_size,
        },
    }
}

/// Rows per page of the viewer of compressed files.
pub const COMPRESSED_VIEW_PAGE_SIZE: usize = 100;

/// The number of pages for `total` rows: at least one.
pub open spec fn page_count(total: int) -> int {
    if total == 0 {
        1
    } else {
        (total + COMPRESSED_VIEW_PAGE_SIZE - 1) / (COMPRESSED_VIEW_PAGE_SIZE as int)
    }
}

/// The page shown for a requested page: clamped to the last page.
pub open spec fn clamp_page(page: int, total: int) -> int {
    if page < page_count(total) - 1 {
        page
    } else {
        page_count(total) - 1
    }
}

/// Cuts the rows into pages of 100: returns the page shown (the requested one,
/// clamped to the last page), the number of pages, the number of rows, and the
/// rows of the page shown.
pub fn paginate_compressed_items(items: Vec<CompressedViewItem>, page: usize) -> (res: (usize, usize, usize, Vec<CompressedViewItem>))
    ensures
        res.2 == items@.len(),
        res.1 == page_count(items@.len() as int),
        res.0 == clamp_page(page as int, items@.len() as int),
        res.0 < res.1,
        res.3@ == items@.skip(res.0 * COMPRESSED_VIEW_PAGE_SIZE).take(
            if items@.len() - res.0 * COMPRESSED_VIEW_PAGE_SIZE < COMPRESSED_VIEW_PAGE_SIZE {
                items@.len() - res.0 * COMPRESSED_VIEW_PAGE_SIZE
            } else {
                COMPRESSED_VIEW_PAGE_SIZE as int
            },
        ),
{
    let total = items.len();
    let pages = if total == 0 {
        1
    } else {
        total / COMPRESSED_VIEW_PAGE_SIZE + if total % COMPRESSED_VIEW_PAGE_SIZE != 0 { 1 } else { 0 }
    };
    assert(pages == page_count(total as int)) by {
        if total > 0 {
            assert((total + 99) / 100 == total / 100 + if total % 100 != 0 { 1int } else { 0int });
        }
    }
    let page = if page < pages - 1 { page } else { pages - 1 };
    assert(page * 100 <= total) by {
        if total > 0 {
            assert(page <= (total + 99) / 100 - 1);
            assert(((total + 99) / 100 - 1) * 100 < total) by (nonlinear_arith)
                requires total > 0;
            assert(page * 100 <= ((total + 99) / 100 - 1) * 100) by (nonlinear_arith)
                requires page <= (total + 99) / 100 - 1, page >= 0;
        }
    }
    let start = page * COMPRESSED_VIEW_PAGE_SIZE;
    let mut items = items;
    let ghost all = items@;
    let mut rest = items.split_off(start);
    assert(rest@ == all.skip(start as int));
    if rest.len() > COMPRESSED_VIEW_PAGE_SIZE {
        rest.truncate(COMPRESSED_VIEW_PAGE_SIZE);
    }
    assert(rest@ =~= all.skip(start as int).take(
        if all.len() - start < COMPRESSED_VIEW_PAGE_SIZE { all.len() - start } else { COMPRESSED_VIEW_PAGE_SIZE as int },
    ));
    (page, pages, total, rest)
}

/// What the viewer of compressed files shows.
pub struct CompressedView {
    pub root: String,
    pub view: String,
    pub query: String,
    pub page: usize,
    pub pages: usize,
    pub total: usize,
    pub compressed_count: usize,
    pub logical_size: u64,
    pub physical_size: u64,
    pub items: Vec<CompressedViewItem>,
}

/// The rows of one page, as [`paginate_compressed_items`] cuts them.
pub open spec fn page_of(items: Seq<CompressedViewItem>, page: int) -> Seq<CompressedViewItem> {
    let p = clamp_page(page, items.len() as int);
    let start = p * COMPRESSED_VIEW_PAGE_SIZE;
    items.skip(start).take(
        if items.len() - start < COMPRESSED_VIEW_PAGE_SIZE {
            items.len() - start
        } else {
            COMPRESSED_VIEW_PAGE_SIZE as int
        },
    )
}

/// The viewer of compressed files: the query is trimmed and matched
/// lower-cased; the view is `folders` when asked for (ignoring ASCII case) and
/// `files` otherwise; the rows are paginated; the totals are those of the
/// compressed group.
pub fn compressed_view(folder: &FolderInfo, view: &str, query: &str, page: usize) -> (res: CompressedView)
    ensures
        res.root@ == folder@.path,
        res.query@ == crate::text::trim(query@),
        res.view@ == if crate::text::eq_ignore_case(view@, "folders"@) { "folders"@ } else { "files"@ },
        res.compressed_count == folder@.compressed.count,
        res.logical_size == folder@.compressed.logical_size,
        res.physical_size == folder@.compressed.physical_size,
        exists|rows: Seq<CompressedViewItem>| {
            &&& res.total == rows.len()
            &&& res.pages == page_count(rows.len() as int)
            &&& res.page == clamp_page(page as int, rows.len() as int)
            &&& res.items@ == page_of(rows, page as int)
            &&& if crate::text::eq_ignore_case(view@, "folders"@) {
                exists|groups: Seq<CompressedViewItem>| rows_of(groups, groups_of(folder@.compressed.files))
                    && rows == #[trigger] folder_items_spec(groups, unicode_lowercase(crate::text::trim(query@)))
            } else {
                rows == file_items_spec(folder@, unicode_lowercase(crate::text::trim(query@)))
            }
        },
{
    let qc = chars_of(query);
    let qt = crate::text::trim_chars(&qc);
    let q = crate::text::string_from(&qt);
    let query_match = to_lowercase(q.as_str());
    let vc = chars_of(view);
    let folders = crate::text::matches_literal_ignore_case(&vc, "folders");
    let items = if folders {
        compressed_folder_items(folder, query_match.as_str())
    } else {
        compressed_file_items(folder, query_match.as_str())
    };
    let ghost rows = items@;
    let (page, pages, total, items) = paginate_compressed_items(items, page);
    let summary = folder.compressed.summary();
    let view_name = if folders { "folders".to_string() } else { "files".to_string() };
    CompressedView {
        root: folder.path.clone(),
        view: view_name,
        query: q,
        page,
        pages,
        total,
        compressed_count: summary.count,
        logical_size: summary.logical_size,
        physical_size: summary.physical_size,
        items,
    }
}

/// What `humansize` prints for a size in binary units (KiB, MiB, ...).
pub uninterp spec fn binary_size_text(size: u64) -> Seq<char>;

/// What `humansize` prints for a size in decimal units (KB, MB, ...).
pub uninterp spec fn decimal_size_text(size: u64) -> Seq<char>;

/// Calls `FileSize::file_size` of `humansize` with `file_size_opts::BINARY`, which
/// for an unsigned size always succeeds (its source returns `Ok` for unsigned
/// integers).  Claims: the text depends on the size alone.
#[verifier::external_body]
fn binary_size(size: u64) -> (res: String)
    ensures
        res@ == binary_size_text(size),
{
    size.file_size(humansize::file_size_opts::BINARY).unwrap_or_default()
}

/// Calls `FileSize::file_size` of `humansize` with `file_size_opts::DECIMAL`, which
/// for an unsigned size always succeeds.  Claims: the text depends on the size alone.
#[verifier::external_body]
fn decimal_size(size: u64) -> (res: String)
    ensures
        res@ == decimal_size_text(size),
{
    size.file_size(humansize::file_size_opts::DECIMAL).unwrap_or_default()
}

/// A size for display, in decimal or binary units.
pub fn format_size(size: u64, decimal: bool) -> (res: String)
    ensures
        res@ == if decimal { decimal_size_text(size) } else { binary_size_text(size) },
{
    if decimal {
        decimal_size(size)
    } else {
        binary_size(size)
    }
}

/// Decompression workers: the storage-aware count used for XPRESS16K, capped at
/// 8 when threads are automatic.
pub open spec fn decompression_worker_count_spec(
    cpus: usize,
    incurs_seek_penalty: Option<bool>,
    max_threads: usize,
    hdd_single_thread: bool,
) -> int {
    let w = compression_worker_count_spec(
        cpus,
        incurs_seek_penalty,
        Compression::Xpress16k,
        max_threads,
        hdd_single_thread,
    );
    if max_threads == 0 && w > AUTO_MAX_DECOMPRESSION_THREADS {
        AUTO_MAX_DECOMPRESSION_THREADS as int
    } else {
        w
    }
}

/// Decompression workers (see [`decompression_worker_count_spec`]).
pub fn decompression_worker_count_for_path(
    cpus: usize,
    incurs_seek_penalty: Option<bool>,
    max_threads: usize,
    hdd_single_thread: bool,
) -> (res: usize)
    ensures
        res == decompression_worker_count_spec(cpus, incurs_seek_penalty, max_threads, hdd_single_thread),
        1 <= res <= MAX_CONFIGURED_THREADS,
        max_threads == 0 ==> res <= AUTO_MAX_DECOMPRESSION_THREADS,
{
    let storage_workers = compression_worker_count(
        cpus,
        incurs_seek_penalty,
        Compression::Xpress16k,
        max_threads,
        hdd_single_thread,
    );
    if max_threads == 0 {
        let capped = if storage_workers < AUTO_MAX_DECOMPRESSION_THREADS {
            storage_workers
        } else {
            AUTO_MAX_DECOMPRESSION_THREADS
        };
        if capped < 1 { 1 } else { capped }
    } else {
        if storage_workers < 1 { 1 } else { storage_workers }
    }
}

/// Adds `path` to the exclusions unless an exclusion already names it
/// (trimmed, ignoring ASCII case): `Ok(false)` and no change when one does;
/// otherwise the settings with `path` appended must validate, and they
/// replace the current ones (`Ok(true)`), or the settings stay as they were
/// and the validation message is returned.
pub fn add_folder_exclusion(settings: &mut Settings, path: &str) -> (res: Result<bool, String>)
    ensures
        final(settings).decimal == old(settings).decimal,
        final(settings).compression == old(settings).compression,
        final(settings).max_threads == old(settings).max_threads,
        final(settings).hdd_single_thread == old(settings).hdd_single_thread,
        final(settings).compression_priority == old(settings).compression_priority,
        has_exclusion(views_of(old(settings).excludes@), path@) ==> res == Ok::<bool, String>(false)
            && final(settings).excludes@ == old(settings).excludes@,
        !has_exclusion(views_of(old(settings).excludes@), path@) ==> match settings_error(
            old(settings).max_threads,
            views_of(old(settings).excludes@).push(path@),
        ) {
            Some(e) => res matches Err(m) && m@ == e && final(settings).excludes@ == old(settings).excludes@,
            None => res == Ok::<bool, String>(true) && views_of(final(settings).excludes@) == views_of(
                old(settings).excludes@,
            ).push(path@),
        },
{
    let display = chars_of(path);
    let mut i: usize = 0;
    while i < settings.excludes.len()
        invariant
            i <= settings.excludes.len(),
            forall|k: int| 0 <= k < i ==> !eq_ignore_case(trim(#[trigger] views_of(settings.excludes@)[k]), path@),
            display@ == path@,
        decreases settings.excludes.len() - i,
    {
        let e = chars_of(settings.excludes[i].as_str());
        let t = trim_chars(&e);
        if eq_ignore_ascii_case(&t, &display) {
            assert(eq_ignore_case(trim(views_of(settings.excludes@)[i as int]), path@));
            return Ok(false);
        }
        i = i + 1;
    }
    let ghost before = settings.excludes@;
    settings.excludes.push(path.to_string());
    assert(views_of(settings.excludes@) =~= views_of(before).push(path@));
    match settings.validate() {
        Ok(()) => Ok(true),
        Err(e) => {
            settings.excludes.pop();
            assert(settings.excludes@ =~= before);
            Err(e)
        },
    }
}

/// How many files are probed for WOF support before an operation.
pub const WOF_PREFLIGHT_SAMPLE_FILES: usize = 8;

/// Why an operation cannot start: a dialog title and message.
pub struct Refusal {
    pub title: String,
    pub message: String,
}

/// The probe results that count: those of the first eight files.
pub open spec fn first_probe_verdict(probes: Seq<Option<bool>>) -> Option<bool>
    decreases probes.len(),
{
    if probes.len() == 0 {
        None
    } else {
        match probes[0] {
            Some(b) => Some(b),
            None => first_probe_verdict(probes.drop_first()),
        }
    }
}

/// The preflight decision: refuse when the system reports no WOF support or
/// cannot be asked; otherwise the first of the first eight file probes that
/// gave an answer decides, and the operation proceeds when none did.
/// `None` means proceed; `Some((title, message))` refuses.
pub open spec fn preflight_spec(system: Result<bool, String>, probes: Seq<Option<bool>>) -> Option<(Seq<char>, Seq<char>)> {
    match system {
        Ok(false) => Some(("WOF compression unavailable"@, "This version of Windows does not report WOF filesystem compression support."@)),
        Err(e) => Some(("WOF compression unavailable"@, "Unable to initialise Windows WOF support: "@ + e@)),
        Ok(true) => {
            let sample = if probes.len() <= WOF_PREFLIGHT_SAMPLE_FILES { probes } else { probes.take(WOF_PREFLIGHT_SAMPLE_FILES as int) };
            match first_probe_verdict(sample) {
                Some(false) => Some(("WOF unavailable on this drive"@, "Windows Overlay Filter (Wof.sys) is not available for this NTFS volume, so WOF compression cannot be used here."@)),
                _ => None,
            }
        },
    }
}

/// Decides whether a compression or decompression may start, from the
/// system's WOF support and the probes of the operation's first files
/// (`Some(supported)`, or `None` where a probe failed, e.g. on a locked file).
pub fn wof_preflight(system: Result<bool, String>, probes: &Vec<Option<bool>>) -> (res: Result<(), Refusal>)
    ensures
        match preflight_spec(system, probes@) {
            None => res is Ok,
            Some((t, m)) => res matches Err(r) && r.title@ == t && r.message@ == m,
        },
{
    match system {
        Ok(false) => {
            return Err(Refusal {
                title: "WOF compression unavailable".to_string(),
                message: "This version of Windows does not report WOF filesystem compression support.".to_string(),
            });
        },
        Err(e) => {
            let mut v = chars_of("Unable to initialise Windows WOF support: ");
            let ec = chars_of(e.as_str());
            crate::paths::append_chars(&mut v, &ec);
            return Err(Refusal { title: "WOF compression unavailable".to_string(), message: crate::text::string_from(&v) });
        },
        Ok(true) => {},
    }
    let n = if probes.len() <= WOF_PREFLIGHT_SAMPLE_FILES { probes.len() } else { WOF_PREFLIGHT_SAMPLE_FILES };
    let ghost sample = if probes@.len() <= WOF_PREFLIGHT_SAMPLE_FILES { probes@ } else { probes@.take(WOF_PREFLIGHT_SAMPLE_FILES as int) };
    assert(sample =~= probes@.take(n as int));
    let mut i: usize = 0;
    assert(sample.skip(0) =~= sample);
    while i < n
        invariant
            i <= n,
            n <= probes.len(),
            sample == probes@.take(n as int),
            sample == (if probes@.len() <= WOF_PREFLIGHT_SAMPLE_FILES { probes@ } else { probes@.take(WOF_PREFLIGHT_SAMPLE_FILES as int) }),
            system == Ok::<bool, String>(true),
            first_probe_verdict(sample) == first_probe_verdict(sample.skip(i as int)),
        decreases n - i,
    {
        assert(sample.skip(i as int)[0] == probes@[i as int]);
        assert(sample.skip(i as int).drop_first() =~= sample.skip(i + 1 as int));
        match probes[i] {
            Some(true) => {
                return Ok(());
            },
            Some(false) => {
                return Err(Refusal {
                    title: "WOF unavailable on this drive".to_string(),
                    message: "Windows Overlay Filter (Wof.sys) is not available for this NTFS volume, so WOF compression cannot be used here.".to_string(),
                });
            },
            None => {},
        }
        i = i + 1;
    }
    assert(sample.skip(i as int).len() == 0);
    Ok(())
}

/// What is learnt about a file after a WOF operation succeeded: its new
/// allocation and its length and modification time, when they could be read.
pub struct FileUpdate {
    pub size_on_disk: Option<u64>,
    pub metadata: Option<(u64, u64)>,
}

/// The outcome of compressing one file.
pub enum CompactResult {
    /// WOF compressed the file.
    Compressed(FileUpdate),
    /// The file was not worth compressing.
    NotWorthIt,
    /// The operation failed.
    Failed,
}

/// The file after a successful WOF operation: the new allocation (or
/// `fallback` when it could not be read) becomes its physical and estimated
/// size, its estimate is no longer valid, and its length and modification time
/// are refreshed when they could be read.
pub open spec fn refreshed(fi: FileInfo, u: FileUpdate, fallback: u64) -> FileInfo {
    let physical = match u.size_on_disk {
        Some(s) => s,
        None => fallback,
    };
    match u.metadata {
        Some((len, mtime)) => FileInfo {
            physical_size: physical,
            estimated_physical_size: physical,
            estimate_valid: false,
            content_len: len,
            logical_size: len,
            modified_time: mtime,
            ..fi
        },
        None => FileInfo { physical_size: physical, estimated_physical_size: physical, estimate_valid: false, ..fi },
    }
}

fn refresh(fi: FileInfo, u: &FileUpdate, fallback: u64) -> (res: FileInfo)
    ensures
        res == refreshed(fi, *u, fallback),
{
    let mut fi = fi;
    let physical = match u.size_on_disk {
        Some(s) => s,
        None => fallback,
    };
    fi.physical_size = physical;
    fi.estimated_physical_size = physical;
    fi.estimate_valid = false;
    match u.metadata {
        Some((len, mtime)) => {
            fi.content_len = len;
            fi.logical_size = len;
            fi.modified_time = mtime;
        },
        None => {},
    }
    fi
}

/// Where a file goes after its compression result, and whether it is to be
/// remembered as incompressible: a compressed file that still occupies at least
/// its length, or a file not worth compressing, is skipped and remembered; a
/// failed file is skipped with its estimate dropped; otherwise it is compressed.
pub open spec fn compression_result_spec(f: FolderView, fi: FileInfo, r: CompactResult) -> (FolderView, bool) {
    match r {
        CompactResult::Compressed(u) => {
            let g = refreshed(fi, u, fi.physical_size);
            if g.physical_size >= g.logical_size {
                (f.pushed(FileKind::Skipped, g), true)
            } else {
                (f.pushed(FileKind::Compressed, g), false)
            }
        },
        CompactResult::NotWorthIt => (
            f.pushed(FileKind::Skipped, FileInfo { estimated_physical_size: fi.physical_size, estimate_valid: false, ..fi }),
            true,
        ),
        CompactResult::Failed => (
            f.pushed(FileKind::Skipped, FileInfo { estimated_physical_size: fi.physical_size, ..fi }),
            false,
        ),
    }
}

/// Records the result of compressing `fi` (see [`compression_result_spec`]);
/// returns whether the file is to be remembered as incompressible.
pub fn record_compression_result(folder: &mut FolderInfo, fi: FileInfo, result: CompactResult) -> (res: bool)
    ensures
        (final(folder)@, res) == compression_result_spec(old(folder)@, fi, result),
{
    match result {
        CompactResult::Compressed(u) => {
            let fallback = fi.physical_size;
            let g = refresh(fi, &u, fallback);
            if g.physical_size >= g.logical_size {
                folder.push(FileKind::Skipped, g);
                true
            } else {
                folder.push(FileKind::Compressed, g);
                false
            }
        },
        CompactResult::NotWorthIt => {
            let mut fi = fi;
            fi.estimated_physical_size = fi.physical_size;
            fi.estimate_valid = false;
            folder.push(FileKind::Skipped, fi);
            true
        },
        CompactResult::Failed => {
            let mut fi = fi;
            fi.estimated_physical_size = fi.physical_size;
            folder.push(FileKind::Skipped, fi);
            false
        },
    }
}

/// Records the result of decompressing `fi`: on success (`Some`) the refreshed
/// file (allocation falling back to its length) becomes compressible; on
/// failure the file, with its estimate dropped, is returned to be put back
/// among the compressed files once the run ends.
pub fn record_decompression_result(folder: &mut FolderInfo, fi: FileInfo, result: Option<FileUpdate>) -> (res: Option<FileInfo>)
    ensures
        match result {
            Some(u) => res is None && final(folder)@ == old(folder)@.pushed(
                FileKind::Compressible,
                refreshed(fi, u, fi.logical_size),
            ),
            None => res == Some(FileInfo { estimated_physical_size: fi.physical_size, estimate_valid: false, ..fi })
                && final(folder)@ == old(folder)@,
        },
{
    match result {
        Some(u) => {
            let fallback = fi.logical_size;
            let g = refresh(fi, &u, fallback);
            folder.push(FileKind::Compressible, g);
            None
        },
        None => {
            let mut fi = fi;
            fi.estimated_physical_size = fi.physical_size;
            fi.estimate_valid = false;
            Some(fi)
        },
    }
}

/// The pause/stop state of a compression or decompression run.
#[derive(Debug, Clone, Copy, PartialEq, Eq, Structural)]
pub struct RunControl {
    pub paused: bool,
    pub stopped: bool,
}

/// A request from the user during a run.
#[derive(Debug, Clone, Copy, PartialEq, Eq, Structural)]
pub enum RunRequest {
    Pause,
    Resume,
    Stop,
    Other,
}

/// What a request changes: pausing and resuming are announced, stopping is
/// reported with a status line, other requests (and requests that do not
/// apply in the current state) change nothing.
#[derive(Debug, Clone, Copy, PartialEq, Eq, Structural)]
pub enum RunEffect {
    Paused,
    Resumed,
    Stopping,
    Nothing,
}

/// The run state after a request: pausing needs a running, unstopped run;
/// resuming a paused, unstopped one; stopping an unstopped one.
pub open spec fn run_step(c: RunControl, r: RunRequest) -> (RunControl, RunEffect) {
    match r {
        RunRequest::Pause => if !c.paused && !c.stopped {
            (RunControl { paused: true, ..c }, RunEffect::Paused)
        } else {
            (c, RunEffect::Nothing)
        },
        RunRequest::Resume => if c.paused && !c.stopped {
            (RunControl { paused: false, ..c }, RunEffect::Resumed)
        } else {
            (c, RunEffect::Nothing)
        },
        RunRequest::Stop => if !c.stopped {
            (RunControl { stopped: true, ..c }, RunEffect::Stopping)
        } else {
            (c, RunEffect::Nothing)
        },
        RunRequest::Other => (c, RunEffect::Nothing),
    }
}

impl RunControl {
    /// A run that is neither paused nor stopped.
    pub fn new() -> (res: RunControl)
        ensures
            !res.paused && !res.stopped,
    {
        RunControl { paused: false, stopped: false }
    }

    /// Applies a request (see [`run_step`]).
    pub fn apply(&mut self, r: RunRequest) -> (res: RunEffect)
        ensures
            (*final(self), res) == run_step(*old(self), r),
    {
        match r {
            RunRequest::Pause => if !self.paused && !self.stopped {
                self.paused = true;
                RunEffect::Paused
            } else {
                RunEffect::Nothing
            },
            RunRequest::Resume => if self.paused && !self.stopped {
                self.paused = false;
                RunEffect::Resumed
            } else {
                RunEffect::Nothing
            },
            RunRequest::Stop => if !self.stopped {
                self.stopped = true;
                RunEffect::Stopping
            } else {
                RunEffect::Nothing
            },
            RunRequest::Other => RunEffect::Nothing,
        }
    }

    /// Whether more files may be handed to the workers: the run is neither
    /// paused nor stopped, fewer than `workers` files are pending, and files remain.
    pub fn may_dispatch(&self, pending: usize, workers: usize, no_more_files: bool) -> (res: bool)
        ensures
            res == (!self.paused && !self.stopped && pending < workers && !no_more_files),
    {
        !self.paused && !self.stopped && pending < workers && !no_more_files
    }

    /// Whether the run is over: no file is pending and either none remain or the run was stopped.
    pub fn finished(&self, pending: usize, no_more_files: bool) -> (res: bool)
        ensures
            res == ((no_more_files || self.stopped) && pending == 0),
    {
        (no_more_files || self.stopped) && pending == 0
    }
}

/// A stopped run stays as it is, with no effect, whatever the user asks next.
pub proof fn law_stop_is_final(c: RunControl, r: RunRequest)
    requires
        c.stopped,
    ensures
        run_step(c, r) == (c, RunEffect::Nothing),
{
}

/// The status line while files are in flight: pausing or stopping (waiting for
/// active files when some are pending), or the operation and the file.
pub open spec fn run_status_spec(c: RunControl, pending_empty: bool, verb: Seq<char>, path: Seq<char>) -> Seq<char> {
    if c.paused {
        if pending_empty { "Paused"@ } else { "Pausing after active files finish"@ }
    } else if c.stopped {
        if pending_empty { "Stopping"@ } else { "Stopping after active files finish"@ }
    } else {
        verb + ": "@ + path
    }
}

/// The status line while files are in flight (see [`run_status_spec`]).
pub fn run_status(c: &RunControl, pending_empty: bool, verb: &str, path: &str) -> (res: String)
    ensures
        res@ == run_status_spec(*c, pending_empty, verb@, path@),
{
    if c.paused {
        if pending_empty { "Paused".to_string() } else { "Pausing after active files finish".to_string() }
    } else if c.stopped {
        if pending_empty { "Stopping".to_string() } else { "Stopping after active files finish".to_string() }
    } else {
        let mut v = chars_of(verb);
        let sep = chars_of(": ");
        crate::paths::append_chars(&mut v, &sep);
        let p = chars_of(path);
        crate::paths::append_chars(&mut v, &p);
        crate::text::string_from(&v)
    }
}

/// The status line announcing what a request changed: pausing (or waiting for
/// active files first), the operation's name on resuming, stopping (or waiting
/// for active files first); nothing when the request changed nothing.
pub open spec fn effect_status_spec(e: RunEffect, pending_empty: bool, verb: Seq<char>) -> Option<Seq<char>> {
    match e {
        RunEffect::Paused => Some(if pending_empty { "Paused"@ } else { "Pausing after active files finish"@ }),
        RunEffect::Resumed => Some(verb),
        RunEffect::Stopping => Some(if pending_empty { "Stopping"@ } else { "Stopping after active files finish"@ }),
        RunEffect::Nothing => None,
    }
}

/// The status line announcing what a request changed (see [`effect_status_spec`]).
pub fn effect_status(e: RunEffect, pending_empty: bool, verb: &str) -> (res: Option<String>)
    ensures
        match effect_status_spec(e, pending_empty, verb@) {
            Some(t) => res matches Some(r) && r@ == t,
            None => res is None,
        },
{
    match e {
        RunEffect::Paused => Some(
            if pending_empty { "Paused".to_string() } else { "Pausing after active files finish".to_string() },
        ),
        RunEffect::Resumed => Some(verb.to_string()),
        RunEffect::Stopping => Some(
            if pending_empty { "Stopping".to_string() } else { "Stopping after active files finish".to_string() },
        ),
        RunEffect::Nothing => None,
    }
}

/// What happens during an analysis: a request from the user, the loss of the
/// connection to the user interface, the end of the analysis (successful or
/// not), or no news while it runs.
#[derive(Debug, Clone, Copy, PartialEq, Eq, Structural)]
pub enum ScanEvent {
    Request(RunRequest),
    Disconnected,
    Finished { ok: bool },
    Running,
}

/// What the backend does about an analysis event: pause, resume or cancel the
/// analysis, ignore the request, report the analysis as complete or as
/// stopped, or report its progress.
#[derive(Debug, Clone, Copy, PartialEq, Eq, Structural)]
pub enum ScanAction {
    Pause,
    Resume,
    Cancel,
    Ignore,
    Scanned,
    Stopped,
    Progress,
}

/// Pausing, resuming and stopping are passed on to the analysis; a lost
/// connection cancels it; other requests are ignored.  A finished analysis
/// is reported as scanned when it completed and as stopped otherwise; while
/// it runs, its progress is reported.
pub open spec fn scan_step_spec(e: ScanEvent) -> ScanAction {
    match e {
        ScanEvent::Request(RunRequest::Pause) => ScanAction::Pause,
        ScanEvent::Request(RunRequest::Resume) => ScanAction::Resume,
        ScanEvent::Request(RunRequest::Stop) => ScanAction::Cancel,
        ScanEvent::Request(RunRequest::Other) => ScanAction::Ignore,
        ScanEvent::Disconnected => ScanAction::Cancel,
        ScanEvent::Finished { ok } => if ok { ScanAction::Scanned } else { ScanAction::Stopped },
        ScanEvent::Running => ScanAction::Progress,
    }
}

/// Decides what an analysis event leads to (see [`scan_step_spec`]).
pub fn scan_step(e: ScanEvent) -> (res: ScanAction)
    ensures
        res == scan_step_spec(e),
{
    match e {
        ScanEvent::Request(RunRequest::Pause) => ScanAction::Pause,
        ScanEvent::Request(RunRequest::Resume) => ScanAction::Resume,
        ScanEvent::Request(RunRequest::Stop) => ScanAction::Cancel,
        ScanEvent::Request(RunRequest::Other) => ScanAction::Ignore,
        ScanEvent::Disconnected => ScanAction::Cancel,
        ScanEvent::Finished { ok } => if ok { ScanAction::Scanned } else { ScanAction::Stopped },
        ScanEvent::Running => ScanAction::Progress,
    }
}

/// The requests the backend acts on.
#[derive(Debug, Clone, Copy, PartialEq, Eq, Structural)]
pub enum BackendRequest {
    ChooseFolder,
    Analyse,
    ViewCompressed,
    Compress,
    Decompress,
    DecompressAndExclude,
    Other,
}

/// What the backend does for a request.
#[derive(Debug, Clone, Copy, PartialEq, Eq, Structural)]
pub enum BackendAction {
    ChooseFolder,
    Analyse,
    ViewCompressed,
    Compress,
    Decompress { exclude_after: bool },
    Ignore,
}

/// Routing of requests: choosing a folder always applies; every other
/// operation needs an analysed folder, and is ignored without one.
pub open spec fn route_spec(r: BackendRequest, has_info: bool) -> BackendAction {
    match r {
        BackendRequest::ChooseFolder => BackendAction::ChooseFolder,
        BackendRequest::Analyse => if has_info { BackendAction::Analyse } else { BackendAction::Ignore },
        BackendRequest::ViewCompressed => if has_info { BackendAction::ViewCompressed } else { BackendAction::Ignore },
        BackendRequest::Compress => if has_info { BackendAction::Compress } else { BackendAction::Ignore },
        BackendRequest::Decompress => if has_info {
            BackendAction::Decompress { exclude_after: false }
        } else {
            BackendAction::Ignore
        },
        BackendRequest::DecompressAndExclude => if has_info {
            BackendAction::Decompress { exclude_after: true }
        } else {
            BackendAction::Ignore
        },
        BackendRequest::Other => BackendAction::Ignore,
    }
}

/// Routes a request (see [`route_spec`]).
pub fn route_request(r: BackendRequest, has_info: bool) -> (res: BackendAction)
    ensures
        res == route_spec(r, has_info),
{
    match r {
        BackendRequest::ChooseFolder => BackendAction::ChooseFolder,
        BackendRequest::Analyse => if has_info { BackendAction::Analyse } else { BackendAction::Ignore },
        BackendRequest::ViewCompressed => if has_info { BackendAction::ViewCompressed } else { BackendAction::Ignore },
        BackendRequest::Compress => if has_info { BackendAction::Compress } else { BackendAction::Ignore },
        BackendRequest::Decompress => if has_info {
            BackendAction::Decompress { exclude_after: false }
        } else {
            BackendAction::Ignore
        },
        BackendRequest::DecompressAndExclude => if has_info {
            BackendAction::Decompress { exclude_after: true }
        } else {
            BackendAction::Ignore
        },
        BackendRequest::Other => BackendAction::Ignore,
    }
}

/// Stop always takes effect on a run that has not stopped yet, whether it is
/// paused or not: the run becomes stopped and nothing else about it changes.
/// Pausing a running run and resuming a paused one take effect likewise.
pub proof fn law_requests_take_effect(c: RunControl)
    ensures
        !c.stopped ==> run_step(c, RunRequest::Stop) == (RunControl { paused: c.paused, stopped: true }, RunEffect::Stopping),
        !c.stopped && !c.paused ==> run_step(c, RunRequest::Pause) == (RunControl { paused: true, stopped: false }, RunEffect::Paused),
        !c.stopped && c.paused ==> run_step(c, RunRequest::Resume) == (RunControl { paused: false, stopped: false }, RunEffect::Resumed),
        run_step(c, RunRequest::Other) == (c, RunEffect::Nothing),
{
}

/// Of the requests on an analysed folder, exactly the two decompress requests
/// decompress, and the folder is excluded afterwards exactly when the request
/// was to decompress and exclude.
pub proof fn law_only_decompress_and_exclude_excludes(r: BackendRequest)
    ensures
        route_spec(r, true) is Decompress <==> (r == BackendRequest::Decompress || r == BackendRequest::DecompressAndExclude),
        route_spec(r, true) matches BackendAction::Decompress { exclude_after } ==> (exclude_after <==> r
            == BackendRequest::DecompressAndExclude),
        route_spec(BackendRequest::Decompress, true) == (BackendAction::Decompress { exclude_after: false }),
        route_spec(BackendRequest::DecompressAndExclude, true) == (BackendAction::Decompress { exclude_after: true }),
        r != BackendRequest::ChooseFolder ==> route_spec(r, false) == BackendAction::Ignore,
{
}

} // verus!
