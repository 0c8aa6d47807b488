//! Finding the game directories that ship the DirectStorage runtime, so that
//! their files can be kept out of WOF compression.
use vstd::prelude::*;

use crate::paths::{file_name, component_count, component_count_of, ancestor, copy_chars, copy_path, is_under_chars, normalized_chars, text_of, path_text, ends_view, is_under_spec, lowered_name, lower_name, normalized_spec, parent, parent_path, parse, parse_path, PathView, WinPath};
use crate::text::{ascii_lower, chars_equal, chars_of, eq_ignore_case, equals_literal,
    matches_literal_ignore_case, string_from};

verus! {

/// File names of the DirectStorage runtime.
pub open spec fn is_runtime_name(n: Seq<char>) -> bool {
    n == "dstorage.dll"@ || n == "dstoragecore.dll"@
}

/// Library/container directories that hold many games rather than one.
pub open spec fn is_container_name(n: Seq<char>) -> bool {
    ||| n == "steamapps"@
    ||| n == "xboxgames"@
    ||| n == "windowsapps"@
    ||| n == "program files"@
    ||| n == "program files (x86)"@
    ||| n == "program files (arm)"@
    ||| n == "programdata"@
    ||| n == "epic games"@
    ||| n == "epicgames"@
    ||| n == "egs"@
    ||| n == "gog galaxy"@
    ||| n == "gog galaxy games"@
    ||| n == "gog games"@
    ||| n == "ubisoft"@
    ||| n == "ubisoft game launcher"@
    ||| n == "origin games"@
    ||| n == "origin"@
    ||| n == "ea games"@
    ||| n == "electronic arts"@
    ||| n == "battle.net"@
    ||| n == "riot games"@
    ||| n == "games"@
    ||| n == "my games"@
    ||| n == "common files"@
    ||| n == "amazon games"@
}

/// Directories that are always too broad to exclude.
pub open spec fn is_too_broad_name(n: Seq<char>) -> bool {
    n == "windows"@ || n == "users"@ || n == "appdata"@
}

/// A path with no parent (a drive root, or a path without parts).
pub open spec fn is_drive_root_spec(p: PathView) -> bool {
    parent(p) is None
}

/// The lower-case name of the parent, empty when there is no parent.
pub open spec fn parent_lower_name(p: PathView) -> Seq<char> {
    match parent(p) {
        Some(q) => lowered_name(q),
        None => seq![],
    }
}

/// A library/container directory: a known container name, `steamapps\common`
/// or `amazon games\library`.
pub open spec fn is_library_container_spec(p: PathView) -> bool {
    ||| is_container_name(lowered_name(p))
    ||| (lowered_name(p) == "common"@ && parent_lower_name(p) == "steamapps"@)
    ||| (lowered_name(p) == "library"@ && parent_lower_name(p) == "amazon games"@)
}

/// Too wide to be excluded as one game's directory.
pub open spec fn too_wide_to_skip_spec(p: PathView) -> bool {
    is_drive_root_spec(p) || is_library_container_spec(p) || is_too_broad_name(lowered_name(p))
}

/// Searches the ancestors of `p` with at most `j` parts, deepest first, for an
/// Unreal Engine `Engine\Binaries\ThirdParty\Windows\DirectStorage` layout and
/// yields the directory holding `Engine`.  The search gives up (`None`) at the
/// first `DirectStorage` ancestor that has fewer than four ancestors above it.
pub open spec fn unreal_root_from(p: PathView, j: int) -> Option<PathView>
    decreases j + 1,
{
    if j < 0 {
        None
    } else if !eq_ignore_case(lowered_name(ancestor(p, j)), "directstorage"@) {
        unreal_root_from(p, j - 1)
    } else if j < 4 {
        None
    } else if lowered_name(ancestor(p, j - 1)) == "windows"@ && lowered_name(ancestor(p, j - 2))
        == "thirdparty"@ && lowered_name(ancestor(p, j - 3)) == "binaries"@ && lowered_name(
        ancestor(p, j - 4),
    ) == "engine"@ {
        parent(ancestor(p, j - 4))
    } else {
        unreal_root_from(p, j - 1)
    }
}

/// The Unreal project directory above a runtime directory, if there is one.
pub open spec fn unreal_project_root_spec(p: PathView) -> Option<PathView> {
    unreal_root_from(p, p.parts.len() as int)
}

/// `candidate` when it lies under the scanned folder and is not too wide;
/// otherwise the runtime's own directory when that lies under the scanned
/// folder, and the scanned folder itself as the last resort.
pub open spec fn safe_root_spec(candidate: PathView, dll: PathView, scan: Seq<char>) -> Seq<char> {
    if !is_under_spec(path_text(candidate), scan) || too_wide_to_skip_spec(candidate) {
        match parent(dll) {
            Some(q) => if is_under_spec(path_text(q), scan) {
                path_text(q)
            } else {
                scan
            },
            None => scan,
        }
    } else {
        path_text(candidate)
    }
}

/// The choice made once the upward walk stops without finding a container child.
pub open spec fn fallback_root_spec(
    dp: PathView,
    dll: PathView,
    scan: Seq<char>,
    nearest: Option<PathView>,
) -> Seq<char> {
    if !too_wide_to_skip_spec(parse(scan)) {
        scan
    } else {
        match nearest {
            Some(e) => safe_root_spec(e, dll, scan),
            None => safe_root_spec(dp, dll, scan),
        }
    }
}

/// The upward walk from the ancestor of `dp` with `j` parts.  It remembers the
/// nearest ancestor holding an executable; it stops at a library container
/// (answering with the container's child on the way up, if any), at a directory
/// that is too broad, at the scanned folder, or at the top.
pub open spec fn walk(
    dp: PathView,
    dll: PathView,
    scan: Seq<char>,
    exes: Seq<Seq<char>>,
    j: int,
    nearest: Option<PathView>,
) -> Seq<char>
    decreases j,
{
    let cur = ancestor(dp, j);
    let nearest2 = if nearest is None && exes.contains(normalized_spec(path_text(cur))) {
        Some(cur)
    } else {
        nearest
    };
    if j < 0 {
        fallback_root_spec(dp, dll, scan, nearest)
    } else if is_library_container_spec(cur) {
        if j < dp.parts.len() {
            safe_root_spec(ancestor(dp, j + 1), dll, scan)
        } else {
            fallback_root_spec(dp, dll, scan, nearest2)
        }
    } else if is_too_broad_name(lowered_name(cur)) {
        fallback_root_spec(dp, dll, scan, nearest2)
    } else if normalized_spec(path_text(cur)) == normalized_spec(scan) {
        fallback_root_spec(dp, dll, scan, nearest2)
    } else if j == 0 {
        fallback_root_spec(dp, dll, scan, nearest2)
    } else {
        walk(dp, dll, scan, exes, j - 1, nearest2)
    }
}

/// The directory holding the runtime (the scanned folder when the runtime path has no parent).
pub open spec fn runtime_dir(dll: Seq<char>, scan: Seq<char>) -> PathView {
    match parent(parse(dll)) {
        Some(q) => q,
        None => parse(scan),
    }
}

/// The game directory to protect for the runtime at `dll`, found while scanning `scan`.
pub open spec fn game_root_spec(dll: Seq<char>, scan: Seq<char>, exes: Seq<Seq<char>>) -> Seq<char> {
    let dp = runtime_dir(dll, scan);
    match unreal_project_root_spec(dp) {
        Some(r) => safe_root_spec(r, parse(dll), scan),
        None => walk(dp, parse(dll), scan, exes, dp.parts.len() as int, None),
    }
}

/// Whether the path names the DirectStorage runtime (`dstorage.dll` or `dstoragecore.dll`).
pub open spec fn is_runtime_spec(path: Seq<char>) -> bool {
    is_runtime_name(lowered_name(parse(path)))
}

fn is_runtime_name_exec(n: &Vec<char>) -> (res: bool)
    ensures
        res == is_runtime_name(n@),
{
    equals_literal(n, "dstorage.dll") || equals_literal(n, "dstoragecore.dll")
}

/// Whether `path` names the DirectStorage runtime (case-insensitively).
pub fn is_direct_storage_runtime(path: &str) -> (res: bool)
    ensures
        res == is_runtime_spec(path@),
{
    let p = chars_of(path);
    let m = parse_path(&p);
    let n = lower_name(&m);
    is_runtime_name_exec(&n)
}

fn is_container_name_exec(n: &Vec<char>) -> (res: bool)
    ensures
        res == is_container_name(n@),
{
    equals_literal(n, "steamapps") || equals_literal(n, "xboxgames") || equals_literal(
        n,
        "windowsapps",
    ) || equals_literal(n, "program files") || equals_literal(n, "program files (x86)")
        || equals_literal(n, "program files (arm)") || equals_literal(n, "programdata")
        || equals_literal(n, "epic games") || equals_literal(n, "epicgames") || equals_literal(
        n,
        "egs",
    ) || equals_literal(n, "gog galaxy") || equals_literal(n, "gog galaxy games")
        || equals_literal(n, "gog games") || equals_literal(n, "ubisoft") || equals_literal(
        n,
        "ubisoft game launcher",
    ) || equals_literal(n, "origin games") || equals_literal(n, "origin") || equals_literal(
        n,
        "ea games",
    ) || equals_literal(n, "electronic arts") || equals_literal(n, "battle.net")
        || equals_literal(n, "riot games") || equals_literal(n, "games") || equals_literal(
        n,
        "my games",
    ) || equals_literal(n, "common files") || equals_literal(n, "amazon games")
}

fn is_too_broad_name_exec(n: &Vec<char>) -> (res: bool)
    ensures
        res == is_too_broad_name(n@),
{
    equals_literal(n, "windows") || equals_literal(n, "users") || equals_literal(n, "appdata")
}

fn is_drive_root(p: &WinPath) -> (res: bool)
    ensures
        res == is_drive_root_spec(p@),
{
    p.parts.len() == 0
}

fn parent_lower_name_of(p: &WinPath) -> (res: Vec<char>)
    ensures
        res@ == parent_lower_name(p@),
{
    match parent_path(p) {
        Some(q) => lower_name(&q),
        None => Vec::new(),
    }
}

fn is_library_container(p: &WinPath) -> (res: bool)
    ensures
        res == is_library_container_spec(p@),
{
    let name = lower_name(p);
    if is_container_name_exec(&name) {
        return true;
    }
    let parent = parent_lower_name_of(p);
    (equals_literal(&name, "common") && equals_literal(&parent, "steamapps")) || (equals_literal(
        &name,
        "library",
    ) && equals_literal(&parent, "amazon games"))
}

fn too_wide_to_skip(p: &WinPath) -> (res: bool)
    ensures
        res == too_wide_to_skip_spec(p@),
{
    let name = lower_name(p);
    is_drive_root(p) || is_library_container(p) || is_too_broad_name_exec(&name)
}

/// The ancestor of `p` with its first `n` parts.
fn ancestor_path(p: &WinPath, n: usize) -> (res: WinPath)
    requires
        n <= p@.parts.len(),
    ensures
        res@ == ancestor(p@, n as int),
{
    let mut parts: Vec<Vec<char>> = Vec::new();
    let mut i: usize = 0;
    while i < n
        invariant
            i <= n,
            n <= p@.parts.len(),
            parts@.map_values(|q: Vec<char>| q@) == p@.parts.take(i as int),
        decreases n - i,
    {
        let c = copy_chars(&p.parts[i]);
        let ghost before = parts@;
        parts.push(c);
        assert(parts@.map_values(|q: Vec<char>| q@) =~= before.map_values(|q: Vec<char>| q@).push(c@));
        assert(p@.parts.take(i + 1 as int) =~= p@.parts.take(i as int).push(p@.parts[i as int]));
        i = i + 1;
    }
    let ends = crate::paths::take_ends_upto(&p.ends, n);
    assert(ends_view(ends@) =~= crate::paths::ends_upto(ends_view(p.ends@), n as int));
    WinPath { prefix: copy_chars(&p.prefix), rooted: p.rooted, parts, text: copy_chars(&p.text), ends, root_end: p.root_end }
}

proof fn lemma_ancestor_full(p: PathView)
    requires
        p.ends.len() <= p.parts.len(),
    ensures
        ancestor(p, p.parts.len() as int) == p,
{
    assert(p.parts.take(p.parts.len() as int) =~= p.parts);
    assert(crate::paths::ends_upto(p.ends, p.parts.len() as int) =~= p.ends);
}

/// The Unreal project directory above `dll_parent`, if there is one.
fn unreal_project_root(dll_parent: &WinPath) -> (res: Option<WinPath>)
    ensures
        res matches Some(r) ==> unreal_project_root_spec(dll_parent@) == Some(r@),
        res is None ==> unreal_project_root_spec(dll_parent@) is None,
{
    let len = dll_parent.parts.len();
    let mut j: usize = len;
    loop
        invariant
            j <= len,
            len == dll_parent@.parts.len(),
            unreal_project_root_spec(dll_parent@) == unreal_root_from(dll_parent@, j as int),
        decreases j,
    {
        let cur = ancestor_path(dll_parent, j);
        let name = lower_name(&cur);
        if !matches_literal_ignore_case(&name, "directstorage") {
            if j == 0 {
                return None;
            }
            j = j - 1;
            continue;
        }
        if j < 4 {
            return None;
        }
        let windows = ancestor_path(dll_parent, j - 1);
        let third_party = ancestor_path(dll_parent, j - 2);
        let binaries = ancestor_path(dll_parent, j - 3);
        let engine = ancestor_path(dll_parent, j - 4);
        if equals_literal(&lower_name(&windows), "windows") && equals_literal(
            &lower_name(&third_party),
            "thirdparty",
        ) && equals_literal(&lower_name(&binaries), "binaries") && equals_literal(
            &lower_name(&engine),
            "engine",
        ) {
            return parent_path(&engine);
        }
        j = j - 1;
    }
}

/// The view of an optional path.
pub open spec fn opt_view(o: Option<WinPath>) -> Option<PathView> {
    match o {
        Some(p) => Some(p@),
        None => None,
    }
}

/// The views of a list of character vectors.
pub open spec fn seqs_of(v: Seq<Vec<char>>) -> Seq<Seq<char>> {
    v.map_values(|x: Vec<char>| x@)
}

/// Whether `x` is one of the entries of `list`.
pub fn contains_entry(list: &Vec<Vec<char>>, x: &Vec<char>) -> (res: bool)
    ensures
        res == seqs_of(list@).contains(x@),
{
    let mut i: usize = 0;
    while i < list.len()
        invariant
            i <= list.len(),
            forall|k: int| 0 <= k < i ==> seqs_of(list@)[k] != x@,
        decreases list.len() - i,
    {
        if chars_equal(&list[i], x) {
            assert(seqs_of(list@)[i as int] == x@);
            return true;
        }
        i = i + 1;
    }
    assert forall|k: int| 0 <= k < seqs_of(list@).len() implies seqs_of(list@)[k] != x@ by {}
    false
}

fn safe_root(candidate: &WinPath, dll: &WinPath, scan: &Vec<char>) -> (res: Vec<char>)
    ensures
        res@ == safe_root_spec(candidate@, dll@, scan@),
{
    let rendered = text_of(candidate);
    if !is_under_chars(&rendered, scan) || too_wide_to_skip(candidate) {
        match parent_path(dll) {
            Some(q) => {
                let rq = text_of(&q);
                if is_under_chars(&rq, scan) {
                    rq
                } else {
                    copy_chars(scan)
                }
            },
            None => copy_chars(scan),
        }
    } else {
        rendered
    }
}

fn fallback_root(dp: &WinPath, dll: &WinPath, scan: &Vec<char>, nearest: &Option<WinPath>) -> (res: Vec<char>)
    ensures
        res@ == fallback_root_spec(dp@, dll@, scan@, opt_view(*nearest)),
{
    let scan_path = parse_path(scan);
    if !too_wide_to_skip(&scan_path) {
        return copy_chars(scan);
    }
    match nearest {
        Some(e) => safe_root(e, dll, scan),
        None => safe_root(dp, dll, scan),
    }
}

/// The game directory to protect for the runtime at `dll_path` found while
/// scanning `scan_root`; `exe_dirs` holds the normalized directories that
/// contain an executable.
pub fn game_root_chars(dll_path: &Vec<char>, scan_root: &Vec<char>, exe_dirs: &Vec<Vec<char>>) -> (res: Vec<char>)
    ensures
        res@ == game_root_spec(dll_path@, scan_root@, seqs_of(exe_dirs@)),
{
    let dll = parse_path(dll_path);
    let dp = match parent_path(&dll) {
        Some(q) => q,
        None => parse_path(scan_root),
    };
    if let Some(root) = unreal_project_root(&dp) {
        return safe_root(&root, &dll, scan_root);
    }
    let len = dp.parts.len();
    let mut j: usize = len;
    let mut nearest: Option<WinPath> = None;
    let nscan = normalized_chars(scan_root);
    let ghost exes = seqs_of(exe_dirs@);
    proof {
        crate::paths::lemma_parse_ends(dll_path@);
        crate::paths::lemma_parse_ends(scan_root@);
        lemma_ancestor_full(dp@);
    }
    loop
        invariant
            j <= len,
            len == dp@.parts.len(),
            dp@ == runtime_dir(dll_path@, scan_root@),
            dll@ == parse(dll_path@),
            nscan@ == normalized_spec(scan_root@),
            exes == seqs_of(exe_dirs@),
            unreal_project_root_spec(dp@) is None,
            game_root_spec(dll_path@, scan_root@, exes) == walk(dp@, dll@, scan_root@, exes, j as int, opt_view(nearest)),
        decreases j,
    {
        let cur = ancestor_path(&dp, j);
        let ncur = normalized_chars(&text_of(&cur));
        if nearest.is_none() && contains_entry(exe_dirs, &ncur) {
            nearest = Some(copy_path(&cur));
        }
        if is_library_container(&cur) {
            if j < len {
                let child = ancestor_path(&dp, j + 1);
                return safe_root(&child, &dll, scan_root);
            }
            return fallback_root(&dp, &dll, scan_root, &nearest);
        }
        let name = lower_name(&cur);
        if is_too_broad_name_exec(&name) {
            return fallback_root(&dp, &dll, scan_root, &nearest);
        }
        if chars_equal(&ncur, &nscan) {
            return fallback_root(&dp, &dll, scan_root, &nearest);
        }
        if j == 0 {
            return fallback_root(&dp, &dll, scan_root, &nearest);
        }
        j = j - 1;
    }
}

/// The game directory to protect for the DirectStorage runtime at `dll_path`,
/// found while scanning `scan_root`.  `exe_dirs` lists the normalized
/// directories (see [`crate::paths::normalized`]) that hold an executable.
pub fn infer_game_root(dll_path: &str, scan_root: &str, exe_dirs: &Vec<String>) -> (res: String)
    ensures
        res@ == game_root_spec(dll_path@, scan_root@, exe_dirs@.map_values(|e: String| e@)),
{
    let dll = chars_of(dll_path);
    let scan = chars_of(scan_root);
    let mut exes: Vec<Vec<char>> = Vec::new();
    let mut i: usize = 0;
    while i < exe_dirs.len()
        invariant
            i <= exe_dirs.len(),
            seqs_of(exes@) == exe_dirs@.take(i as int).map_values(|e: String| e@),
        decreases exe_dirs.len() - i,
    {
        let c = chars_of(exe_dirs[i].as_str());
        let ghost before = exes@;
        exes.push(c);
        assert(seqs_of(exes@) =~= seqs_of(before).push(c@));
        assert(exe_dirs@.take(i + 1 as int).map_values(|e: String| e@) =~= exe_dirs@.take(i as int).map_values(|e: String| e@).push(exe_dirs@[i as int]@));
        i = i + 1;
    }
    assert(exe_dirs@.take(i as int) =~= exe_dirs@);
    let r = game_root_chars(&dll, &scan, &exes);
    string_from(&r)
}

proof fn lemma_safe_root_under(candidate: PathView, dll: PathView, scan: Seq<char>)
    ensures
        is_under_spec(safe_root_spec(candidate, dll, scan), scan),
{
}

proof fn lemma_fallback_under(dp: PathView, dll: PathView, scan: Seq<char>, nearest: Option<PathView>)
    ensures
        is_under_spec(fallback_root_spec(dp, dll, scan, nearest), scan),
{
    lemma_safe_root_under(dp, dll, scan);
    if let Some(e) = nearest {
        lemma_safe_root_under(e, dll, scan);
    }
}

proof fn lemma_walk_under(
    dp: PathView,
    dll: PathView,
    scan: Seq<char>,
    exes: Seq<Seq<char>>,
    j: int,
    nearest: Option<PathView>,
)
    ensures
        is_under_spec(walk(dp, dll, scan, exes, j, nearest), scan),
    decreases j,
{
    let cur = ancestor(dp, j);
    let nearest2 = if nearest is None && exes.contains(normalized_spec(path_text(cur))) {
        Some(cur)
    } else {
        nearest
    };
    lemma_fallback_under(dp, dll, scan, nearest);
    lemma_fallback_under(dp, dll, scan, nearest2);
    lemma_safe_root_under(ancestor(dp, j + 1), dll, scan);
    if j > 0 {
        lemma_walk_under(dp, dll, scan, exes, j - 1, nearest2);
    }
}

/// The directory protected for a DirectStorage runtime always lies at or below
/// the scanned folder: protection never reaches outside the folder the user chose.
pub proof fn law_game_root_within_scan(dll: Seq<char>, scan: Seq<char>, exes: Seq<Seq<char>>)
    ensures
        is_under_spec(game_root_spec(dll, scan, exes), scan),
{
    let dp = runtime_dir(dll, scan);
    match unreal_project_root_spec(dp) {
        Some(r) => lemma_safe_root_under(r, parse(dll), scan),
        None => lemma_walk_under(dp, parse(dll), scan, exes, dp.parts.len() as int, None),
    }
}

/// The sort key of a root: its number of components (saturating at `usize::MAX`).
pub open spec fn depth(r: Seq<char>) -> int {
    let c = component_count(parse(r));
    if c > usize::MAX {
        usize::MAX as int
    } else {
        c
    }
}

/// The roots of depth `d`, in the order given.
pub open spec fn with_depth(roots: Seq<Seq<char>>, d: int) -> Seq<Seq<char>>
    decreases roots.len(),
{
    if roots.len() == 0 {
        seq![]
    } else {
        with_depth(roots.drop_last(), d) + if depth(roots.last()) == d {
            seq![roots.last()]
        } else {
            seq![]
        }
    }
}

/// The roots of depth at most `d`, shallowest first, stable within one depth.
pub open spec fn sorted_upto(roots: Seq<Seq<char>>, d: int) -> Seq<Seq<char>>
    decreases d + 1,
{
    if d < 0 {
        seq![]
    } else {
        sorted_upto(roots, d - 1) + with_depth(roots, d)
    }
}

/// The greatest depth among the roots (0 for none).
pub open spec fn max_depth(roots: Seq<Seq<char>>) -> int
    decreases roots.len(),
{
    if roots.len() == 0 {
        0
    } else {
        let m = max_depth(roots.drop_last());
        if depth(roots.last()) > m {
            depth(roots.last())
        } else {
            m
        }
    }
}

/// The roots stably sorted by depth (`sort_by_key` on the component count).
pub open spec fn by_depth(roots: Seq<Seq<char>>) -> Seq<Seq<char>> {
    sorted_upto(roots, max_depth(roots))
}

/// Keeps, in order, each root that does not lie under a root kept before it.
pub open spec fn keep_outermost(sorted: Seq<Seq<char>>) -> Seq<Seq<char>>
    decreases sorted.len(),
{
    if sorted.len() == 0 {
        seq![]
    } else {
        let k = keep_outermost(sorted.drop_last());
        if exists|i: int| 0 <= i < k.len() && is_under_spec(sorted.last(), #[trigger] k[i]) {
            k
        } else {
            k.push(sorted.last())
        }
    }
}

/// Nested roots collapsed into their outermost ones.
pub open spec fn collapse_spec(roots: Seq<Seq<char>>) -> Seq<Seq<char>> {
    keep_outermost(by_depth(roots))
}

fn depth_of(r: &Vec<char>) -> (res: usize)
    ensures
        res == depth(r@),
{
    let p = parse_path(r);
    component_count_of(&p)
}

/// Whether `r` lies under one of `kept`.
fn under_any(r: &Vec<char>, kept: &Vec<Vec<char>>) -> (res: bool)
    ensures
        res == exists|i: int| 0 <= i < kept@.len() && is_under_spec(r@, #[trigger] seqs_of(kept@)[i]),
{
    let mut i: usize = 0;
    while i < kept.len()
        invariant
            i <= kept.len(),
            forall|k: int| 0 <= k < i ==> !is_under_spec(r@, #[trigger] seqs_of(kept@)[k]),
        decreases kept.len() - i,
    {
        if is_under_chars(r, &kept[i]) {
            assert(is_under_spec(r@, seqs_of(kept@)[i as int]));
            return true;
        }
        i = i + 1;
    }
    false
}

/// Collapses nested roots: sorts them by depth (stably) and keeps each root
/// that does not lie under one kept before it.
pub fn collapse_root_chars(roots: &Vec<Vec<char>>) -> (res: Vec<Vec<char>>)
    ensures
        seqs_of(res@) == collapse_spec(seqs_of(roots@)),
{
    let ghost rs = seqs_of(roots@);
    let n = roots.len();
    let mut depths: Vec<usize> = Vec::new();
    let mut maxd: usize = 0;
    let mut i: usize = 0;
    while i < n
        invariant
            n == roots.len(),
            rs == seqs_of(roots@),
            i <= n,
            depths@.len() == i,
            forall|k: int| 0 <= k < i ==> depths@[k] == depth(#[trigger] rs[k]),
            maxd == max_depth(rs.take(i as int)),
        decreases n - i,
    {
        let d = depth_of(&roots[i]);
        assert(rs.take(i + 1 as int).drop_last() =~= rs.take(i as int));
        depths.push(d);
        if d > maxd {
            maxd = d;
        }
        i = i + 1;
    }
    assert(rs.take(n as int) =~= rs);
    let mut sorted: Vec<Vec<char>> = Vec::new();
    let mut d: usize = 0;
    loop
        invariant_except_break
            seqs_of(sorted@) == sorted_upto(rs, d - 1),
        invariant
            n == roots.len(),
            rs == seqs_of(roots@),
            depths@.len() == n,
            forall|k: int| 0 <= k < n ==> depths@[k] == depth(#[trigger] rs[k]),
            maxd == max_depth(rs),
            d <= maxd,
        ensures
            seqs_of(sorted@) == sorted_upto(rs, maxd as int),
        decreases maxd - d,
    {
        let mut k: usize = 0;
        let ghost base = seqs_of(sorted@);
        while k < n
            invariant
                n == roots.len(),
                rs == seqs_of(roots@),
                depths@.len() == n,
                forall|q: int| 0 <= q < n ==> depths@[q] == depth(#[trigger] rs[q]),
                k <= n,
                seqs_of(sorted@) == base + with_depth(rs.take(k as int), d as int),
            decreases n - k,
        {
            assert(rs.take(k + 1 as int).drop_last() =~= rs.take(k as int));
            if depths[k] == d {
                let c = copy_chars(&roots[k]);
                let ghost before = sorted@;
                sorted.push(c);
                assert(seqs_of(sorted@) =~= seqs_of(before).push(c@));
                assert(seqs_of(sorted@) =~= base + with_depth(rs.take(k + 1 as int), d as int));
            } else {
                assert(with_depth(rs.take(k + 1 as int), d as int) =~= with_depth(rs.take(k as int), d as int));
            }
            k = k + 1;
        }
        assert(rs.take(n as int) =~= rs);
        assert(seqs_of(sorted@) == sorted_upto(rs, d as int));
        if d == maxd {
            break;
        }
        d = d + 1;
    }
    let mut kept: Vec<Vec<char>> = Vec::new();
    let ghost srt = seqs_of(sorted@);
    let mut m: usize = 0;
    while m < sorted.len()
        invariant
            srt == seqs_of(sorted@),
            m <= sorted.len(),
            seqs_of(kept@) == keep_outermost(srt.take(m as int)),
        decreases sorted.len() - m,
    {
        assert(srt.take(m + 1 as int).drop_last() =~= srt.take(m as int));
        if !under_any(&sorted[m], &kept) {
            let c = copy_chars(&sorted[m]);
            let ghost before = kept@;
            kept.push(c);
            assert(seqs_of(kept@) =~= seqs_of(before).push(c@));
        }
        m = m + 1;
    }
    assert(srt.take(m as int) =~= srt);
    kept
}

proof fn lemma_with_depth_has(roots: Seq<Seq<char>>, i: int)
    requires
        0 <= i < roots.len(),
    ensures
        with_depth(roots, depth(roots[i])).contains(roots[i]),
    decreases roots.len(),
{
    let w = with_depth(roots, depth(roots[i]));
    let w0 = with_depth(roots.drop_last(), depth(roots[i]));
    if i == roots.len() - 1 {
        assert(w[w.len() - 1] == roots[i]);
    } else {
        lemma_with_depth_has(roots.drop_last(), i);
        assert(roots.drop_last()[i] == roots[i]);
        let k = choose|k: int| 0 <= k < w0.len() && w0[k] == roots[i];
        assert(w[k] == roots[i]);
    }
}

proof fn lemma_with_depth_members(roots: Seq<Seq<char>>, d: int, x: Seq<char>)
    requires
        with_depth(roots, d).contains(x),
    ensures
        roots.contains(x),
    decreases roots.len(),
{
    let w0 = with_depth(roots.drop_last(), d);
    let w = with_depth(roots, d);
    let k = choose|k: int| 0 <= k < w.len() && w[k] == x;
    if k < w0.len() {
        assert(w[k] == w0[k]);
        lemma_with_depth_members(roots.drop_last(), d, x);
        let j = choose|j: int| 0 <= j < roots.drop_last().len() && roots.drop_last()[j] == x;
        assert(roots[j] == x);
    } else {
        assert(x == roots.last());
        assert(roots[roots.len() - 1] == x);
    }
}

proof fn lemma_max_depth_bounds(roots: Seq<Seq<char>>, i: int)
    requires
        0 <= i < roots.len(),
    ensures
        0 <= depth(roots[i]) <= max_depth(roots),
    decreases roots.len(),
{
    if i < roots.len() - 1 {
        lemma_max_depth_bounds(roots.drop_last(), i);
        assert(roots.drop_last()[i] == roots[i]);
    }
}

proof fn lemma_sorted_upto_has(roots: Seq<Seq<char>>, d: int, e: int, x: Seq<char>)
    requires
        0 <= e <= d,
        with_depth(roots, e).contains(x),
    ensures
        sorted_upto(roots, d).contains(x),
    decreases d + 1,
{
    let s0 = sorted_upto(roots, d - 1);
    let w = with_depth(roots, d);
    let s = sorted_upto(roots, d);
    if e == d {
        let k = choose|k: int| 0 <= k < w.len() && w[k] == x;
        assert(s[s0.len() + k] == x);
    } else {
        lemma_sorted_upto_has(roots, d - 1, e, x);
        let k = choose|k: int| 0 <= k < s0.len() && s0[k] == x;
        assert(s[k] == x);
    }
}

proof fn lemma_sorted_upto_members(roots: Seq<Seq<char>>, d: int, x: Seq<char>)
    requires
        sorted_upto(roots, d).contains(x),
    ensures
        roots.contains(x),
    decreases d + 1,
{
    if d >= 0 {
        let s0 = sorted_upto(roots, d - 1);
        let w = with_depth(roots, d);
        let s = sorted_upto(roots, d);
        let k = choose|k: int| 0 <= k < s.len() && s[k] == x;
        if k < s0.len() {
            assert(s0[k] == x);
            lemma_sorted_upto_members(roots, d - 1, x);
        } else {
            assert(w[k - s0.len()] == x);
            lemma_with_depth_members(roots, d, x);
        }
    }
}

proof fn lemma_keep_covers(sorted: Seq<Seq<char>>, x: Seq<char>)
    requires
        sorted.contains(x),
    ensures
        exists|k: int| 0 <= k < keep_outermost(sorted).len() && is_under_spec(x, #[trigger] keep_outermost(sorted)[k]),
    decreases sorted.len(),
{
    let k0 = keep_outermost(sorted.drop_last());
    let res = keep_outermost(sorted);
    let i = choose|i: int| 0 <= i < sorted.len() && sorted[i] == x;
    if i == sorted.len() - 1 {
        if exists|q: int| 0 <= q < k0.len() && is_under_spec(sorted.last(), #[trigger] k0[q]) {
            let q = choose|q: int| 0 <= q < k0.len() && is_under_spec(sorted.last(), #[trigger] k0[q]);
            assert(res[q] == k0[q]);
        } else {
            assert(res[res.len() - 1] == x);
        }
    } else {
        assert(sorted.drop_last()[i] == x);
        lemma_keep_covers(sorted.drop_last(), x);
        let q = choose|q: int| 0 <= q < k0.len() && is_under_spec(x, #[trigger] k0[q]);
        assert(res[q] == k0[q]);
    }
}

proof fn lemma_keep_members(sorted: Seq<Seq<char>>, x: Seq<char>)
    requires
        keep_outermost(sorted).contains(x),
    ensures
        sorted.contains(x),
    decreases sorted.len(),
{
    let k0 = keep_outermost(sorted.drop_last());
    let res = keep_outermost(sorted);
    let q = choose|q: int| 0 <= q < res.len() && res[q] == x;
    if q < k0.len() {
        assert(k0[q] == x);
        lemma_keep_members(sorted.drop_last(), x);
        let i = choose|i: int| 0 <= i < sorted.drop_last().len() && sorted.drop_last()[i] == x;
        assert(sorted[i] == x);
    } else {
        assert(sorted[sorted.len() - 1] == x);
    }
}

proof fn lemma_keep_antichain(sorted: Seq<Seq<char>>)
    ensures
        forall|i: int, j: int|
            0 <= i < j < keep_outermost(sorted).len() ==> !is_under_spec(
                #[trigger] keep_outermost(sorted)[j],
                #[trigger] keep_outermost(sorted)[i],
            ),
    decreases sorted.len(),
{
    if sorted.len() > 0 {
        lemma_keep_antichain(sorted.drop_last());
        let k0 = keep_outermost(sorted.drop_last());
        let res = keep_outermost(sorted);
        assert forall|i: int, j: int| 0 <= i < j < res.len() implies !is_under_spec(
            #[trigger] res[j],
            #[trigger] res[i],
        ) by {
            if j < k0.len() {
                assert(res[j] == k0[j] && res[i] == k0[i]);
            } else {
                assert(res[i] == k0[i]);
            }
        }
    }
}

/// Collapsing loses no root: every given root lies under one of the roots kept.
pub proof fn law_collapse_covers_every_root(roots: Seq<Seq<char>>, r: Seq<char>)
    requires
        roots.contains(r),
    ensures
        exists|k: int|
            0 <= k < collapse_spec(roots).len() && is_under_spec(r, #[trigger] collapse_spec(roots)[k]),
{
    let i = choose|i: int| 0 <= i < roots.len() && roots[i] == r;
    lemma_with_depth_has(roots, i);
    lemma_max_depth_bounds(roots, i);
    lemma_sorted_upto_has(roots, max_depth(roots), depth(r), r);
    lemma_keep_covers(by_depth(roots), r);
    let kept = keep_outermost(by_depth(roots));
    let k = choose|k: int| 0 <= k < kept.len() && is_under_spec(r, #[trigger] kept[k]);
    assert(collapse_spec(roots)[k] == kept[k]);
}

/// Collapsing keeps only given roots, and none of the kept roots lies under
/// a root kept before it.
pub proof fn law_collapse_keeps_outermost(roots: Seq<Seq<char>>)
    ensures
        forall|x: Seq<char>| collapse_spec(roots).contains(x) ==> roots.contains(x),
        forall|i: int, j: int|
            0 <= i < j < collapse_spec(roots).len() ==> !is_under_spec(
                #[trigger] collapse_spec(roots)[j],
                #[trigger] collapse_spec(roots)[i],
            ),
{
    lemma_keep_antichain(by_depth(roots));
    assert forall|x: Seq<char>| collapse_spec(roots).contains(x) implies roots.contains(x) by {
        lemma_keep_members(by_depth(roots), x);
        lemma_sorted_upto_members(roots, max_depth(roots), x);
    }
}

/// The views of a list of strings.
pub open spec fn strs_of(v: Seq<String>) -> Seq<Seq<char>> {
    v.map_values(|x: String| x@)
}

fn chars_list(v: &Vec<String>) -> (res: Vec<Vec<char>>)
    ensures
        seqs_of(res@) == strs_of(v@),
{
    let mut res: Vec<Vec<char>> = Vec::new();
    let mut i: usize = 0;
    while i < v.len()
        invariant
            i <= v.len(),
            seqs_of(res@) == strs_of(v@.take(i as int)),
        decreases v.len() - i,
    {
        let c = chars_of(v[i].as_str());
        let ghost before = res@;
        res.push(c);
        assert(seqs_of(res@) =~= seqs_of(before).push(c@));
        assert(strs_of(v@.take(i + 1 as int)) =~= strs_of(v@.take(i as int)).push(v@[i as int]@));
        i = i + 1;
    }
    assert(v@.take(i as int) =~= v@);
    res
}

fn strings_list(v: &Vec<Vec<char>>) -> (res: Vec<String>)
    ensures
        strs_of(res@) == seqs_of(v@),
{
    let mut res: Vec<String> = Vec::new();
    let mut i: usize = 0;
    while i < v.len()
        invariant
            i <= v.len(),
            strs_of(res@) == seqs_of(v@.take(i as int)),
        decreases v.len() - i,
    {
        let c = string_from(&v[i]);
        let ghost before = res@;
        res.push(c);
        assert(strs_of(res@) =~= strs_of(before).push(c@));
        assert(seqs_of(v@.take(i + 1 as int)) =~= seqs_of(v@.take(i as int)).push(v@[i as int]@));
        i = i + 1;
    }
    assert(v@.take(i as int) =~= v@);
    res
}

/// Collapses nested roots into their outermost ones (see [`collapse_spec`]).
pub fn collapse_roots(roots: &Vec<String>) -> (res: Vec<String>)
    ensures
        strs_of(res@) == collapse_spec(strs_of(roots@)),
{
    let r = chars_list(roots);
    let c = collapse_root_chars(&r);
    strings_list(&c)
}

/// Index of the last `.` in `n`.
pub open spec fn last_dot(n: Seq<char>) -> Option<int>
    decreases n.len(),
{
    if n.len() == 0 {
        None
    } else if n.last() == '.' {
        Some(n.len() - 1)
    } else {
        last_dot(n.drop_last())
    }
}

/// `Path::extension` equals `exe`, ignoring ASCII case.
pub open spec fn has_exe_extension(f: Seq<char>) -> bool {
    match file_name(parse(f)) {
        Some(n) => match last_dot(n) {
            Some(i) => i > 0 && eq_ignore_case(n.skip(i + 1), "exe"@),
            None => false,
        },
        None => false,
    }
}

/// The files that are DirectStorage runtimes, in order.
pub open spec fn runtime_files(files: Seq<Seq<char>>) -> Seq<Seq<char>>
    decreases files.len(),
{
    if files.len() == 0 {
        seq![]
    } else {
        runtime_files(files.drop_last()) + if is_runtime_spec(files.last()) {
            seq![files.last()]
        } else {
            seq![]
        }
    }
}

/// The normalized directories of the executables among `files`.
pub open spec fn exe_dirs_of(files: Seq<Seq<char>>) -> Seq<Seq<char>>
    decreases files.len(),
{
    if files.len() == 0 {
        seq![]
    } else {
        let f = files.last();
        exe_dirs_of(files.drop_last()) + if has_exe_extension(f) && parent(parse(f)) is Some {
            seq![normalized_spec(path_text(parent(parse(f))->0))]
        } else {
            seq![]
        }
    }
}

/// The game roots for a list of runtimes.
pub open spec fn game_roots(dlls: Seq<Seq<char>>, scan: Seq<char>, exes: Seq<Seq<char>>) -> Seq<Seq<char>> {
    Seq::new(dlls.len(), |i: int| game_root_spec(dlls[i], scan, exes))
}

/// The directories to protect for the files found under `scan`.
pub open spec fn direct_storage_roots_spec(scan: Seq<char>, files: Seq<Seq<char>>) -> Seq<Seq<char>> {
    collapse_spec(game_roots(runtime_files(files), scan, exe_dirs_of(files)))
}

fn last_dot_exec(n: &Vec<char>) -> (res: Option<usize>)
    ensures
        match res {
            Some(i) => last_dot(n@) == Some(i as int),
            None => last_dot(n@) is None,
        },
        res matches Some(i) ==> i < n@.len(),
{
    let mut k: usize = n.len();
    assert(n@.take(n.len() as int) =~= n@);
    while k > 0
        invariant
            k <= n.len(),
            last_dot(n@) == last_dot(n@.take(k as int)),
        decreases k,
    {
        assert(n@.take(k as int).drop_last() =~= n@.take(k - 1 as int));
        if n[k - 1] == '.' {
            return Some(k - 1);
        }
        k = k - 1;
    }
    None
}

fn has_exe_extension_exec(f: &Vec<char>) -> (res: bool)
    ensures
        res == has_exe_extension(f@),
{
    let p = parse_path(f);
    let len = p.parts.len();
    if len == 0 {
        return false;
    }
    let name = &p.parts[len - 1];
    assert(p@.parts.last() == name@);
    if name.len() == 2 && name[0] == '.' && name[1] == '.' {
        assert(name@ =~= seq!['.', '.']);
        return false;
    }
    assert(name@ != seq!['.', '.']) by {
        if name@ == seq!['.', '.'] {
            assert(name@.len() == 2 && name@[0] == '.' && name@[1] == '.');
        }
    }
    match last_dot_exec(name) {
        Some(i) => {
            if i == 0 {
                return false;
            }
            let mut ext: Vec<char> = Vec::new();
            let mut k: usize = i + 1;
            while k < name.len()
                invariant
                    i < k <= name.len(),
                    ext@ == name@.subrange(i + 1, k as int),
                decreases name.len() - k,
            {
                ext.push(name[k]);
                assert(name@.subrange(i + 1, k + 1 as int) =~= name@.subrange(i + 1, k as int).push(name@[k as int]));
                k = k + 1;
            }
            assert(ext@ =~= name@.skip(i + 1));
            matches_literal_ignore_case(&ext, "exe")
        },
        None => false,
    }
}

/// The directories to protect, given the scanned folder and the files found
/// below it: for each DirectStorage runtime its game directory (see
/// [`infer_game_root`]), with nested directories collapsed.
pub fn direct_storage_roots(scan_root: &str, files: &Vec<String>) -> (res: Vec<String>)
    ensures
        strs_of(res@) == direct_storage_roots_spec(scan_root@, strs_of(files@)),
{
    let fs = chars_list(files);
    let ghost fv = seqs_of(fs@);
    let scan = chars_of(scan_root);
    let mut dlls: Vec<Vec<char>> = Vec::new();
    let mut exes: Vec<Vec<char>> = Vec::new();
    let mut i: usize = 0;
    while i < fs.len()
        invariant
            fv == seqs_of(fs@),
            i <= fs.len(),
            seqs_of(dlls@) == runtime_files(fv.take(i as int)),
            seqs_of(exes@) == exe_dirs_of(fv.take(i as int)),
        decreases fs.len() - i,
    {
        assert(fv.take(i + 1 as int).drop_last() =~= fv.take(i as int));
        let f = &fs[i];
        let fstr = string_from(f);
        if is_direct_storage_runtime(fstr.as_str()) {
            let ghost before = dlls@;
            dlls.push(copy_chars(f));
            assert(seqs_of(dlls@) =~= seqs_of(before).push(f@));
        }
        if has_exe_extension_exec(f) {
            let p = parse_path(f);
            match parent_path(&p) {
                Some(q) => {
                    let nq = normalized_chars(&text_of(&q));
                    let ghost before = exes@;
                    exes.push(nq);
                    assert(seqs_of(exes@) =~= seqs_of(before).push(nq@));
                },
                None => {},
            }
        }
        i = i + 1;
    }
    assert(fv.take(i as int) =~= fv);
    let mut roots: Vec<Vec<char>> = Vec::new();
    let ghost dv = seqs_of(dlls@);
    let ghost ev = seqs_of(exes@);
    let mut k: usize = 0;
    while k < dlls.len()
        invariant
            dv == seqs_of(dlls@),
            ev == seqs_of(exes@),
            k <= dlls.len(),
            seqs_of(roots@) == game_roots(dv.take(k as int), scan@, ev),
        decreases dlls.len() - k,
    {
        let g = game_root_chars(&dlls[k], &scan, &exes);
        let ghost before = roots@;
        roots.push(g);
        assert(seqs_of(roots@) =~= seqs_of(before).push(g@));
        assert(game_roots(dv.take(k + 1 as int), scan@, ev) =~= game_roots(dv.take(k as int), scan@, ev).push(g@));
        k = k + 1;
    }
    assert(dv.take(k as int) =~= dv);
    let c = collapse_root_chars(&roots);
    strings_list(&c)
}

/// Every directory protected for DirectStorage lies within the scanned folder.
pub proof fn law_protected_roots_within_scan(scan: Seq<char>, files: Seq<Seq<char>>, r: Seq<char>)
    requires
        direct_storage_roots_spec(scan, files).contains(r),
    ensures
        is_under_spec(r, scan),
{
    let roots = game_roots(runtime_files(files), scan, exe_dirs_of(files));
    law_collapse_keeps_outermost(roots);
    assert(collapse_spec(roots).contains(r));
    assert(roots.contains(r));
    let i = choose|i: int| 0 <= i < roots.len() && roots[i] == r;
    law_game_root_within_scan(runtime_files(files)[i], scan, exe_dirs_of(files));
    assert(roots[i] == game_root_spec(runtime_files(files)[i], scan, exe_dirs_of(files)));
}


/// `e` is one of the ancestors of `p` above `p` itself: the ancestor with as
/// many parts as `e` has.
pub open spec fn is_proper_ancestor(e: PathView, p: PathView) -> bool {
    e.parts.len() < p.parts.len() && e == ancestor(p, e.parts.len() as int)
}

proof fn lemma_ancestor_shape(p: PathView, k: int)
    requires
        0 <= k <= p.parts.len(),
        p.ends.len() == p.parts.len(),
    ensures
        ancestor(p, k).parts.len() == k,
        ancestor(p, k).ends.len() == k,
{
}

proof fn lemma_ancestor_of_ancestor(p: PathView, m: int, k: int)
    requires
        0 <= k <= m <= p.parts.len(),
        p.ends.len() == p.parts.len(),
    ensures
        ancestor(ancestor(p, m), k) == ancestor(p, k),
{
    assert(p.parts.take(m).take(k) =~= p.parts.take(k));
    assert(p.ends.take(m).take(k) =~= p.ends.take(k));
}

proof fn lemma_parent_is_ancestor(p: PathView)
    requires
        p.parts.len() > 0,
        p.ends.len() == p.parts.len(),
    ensures
        parent(p) == Some(ancestor(p, p.parts.len() - 1)),
{
    assert(p.parts.drop_last() =~= p.parts.take(p.parts.len() - 1));
}

proof fn lemma_ancestor_contains(dll: Seq<char>, k: int)
    requires
        1 <= k <= parse(dll).parts.len(),
    ensures
        is_under_spec(dll, path_text(ancestor(parse(dll), k))),
{
    crate::paths::lemma_parse_ends(dll);
    let p = parse(dll);
    let e = p.ends[k - 1];
    assert(0 <= e <= dll.len() && (e == dll.len() || crate::paths::is_sep(dll[e])));
    let a = ancestor(p, k);
    assert(a.ends.last() == e);
    assert(path_text(a) == dll.take(e));
    crate::paths::lemma_under_prefix(dll, e);
}

proof fn lemma_safe_root_contains(cand: PathView, dll: Seq<char>, scan: Seq<char>)
    requires
        parse(dll).parts.len() >= 1,
        is_under_spec(dll, scan),
        is_proper_ancestor(cand, parse(dll)),
    ensures
        is_under_spec(dll, safe_root_spec(cand, parse(dll), scan)),
{
    let p = parse(dll);
    crate::paths::lemma_parse_ends(dll);
    let n = p.parts.len() as int;
    lemma_parent_is_ancestor(p);
    let q = ancestor(p, n - 1);
    lemma_ancestor_shape(p, n - 1);
    if !is_under_spec(path_text(cand), scan) || too_wide_to_skip_spec(cand) {
        if is_under_spec(path_text(q), scan) {
            if n - 1 >= 1 {
                lemma_ancestor_contains(dll, n - 1);
            } else {
                assert(path_text(q) == dll.take(p.root_end));
                crate::paths::lemma_root_text_contains(dll, scan);
            }
        }
    } else {
        assert(cand.parts.len() >= 1);
        lemma_ancestor_contains(dll, cand.parts.len() as int);
    }
}

proof fn lemma_fallback_contains(dll: Seq<char>, scan: Seq<char>, nearest: Option<PathView>)
    requires
        parse(dll).parts.len() >= 1,
        is_under_spec(dll, scan),
        nearest matches Some(e) ==> is_proper_ancestor(e, parse(dll)),
    ensures
        is_under_spec(dll, fallback_root_spec(parent(parse(dll))->0, parse(dll), scan, nearest)),
{
    let p = parse(dll);
    crate::paths::lemma_parse_ends(dll);
    let n = p.parts.len() as int;
    lemma_parent_is_ancestor(p);
    lemma_ancestor_shape(p, n - 1);
    let dp = ancestor(p, n - 1);
    lemma_safe_root_contains(dp, dll, scan);
    if let Some(e) = nearest {
        lemma_safe_root_contains(e, dll, scan);
    }
}

proof fn lemma_walk_contains(dll: Seq<char>, scan: Seq<char>, exes: Seq<Seq<char>>, j: int, nearest: Option<PathView>)
    requires
        parse(dll).parts.len() >= 1,
        is_under_spec(dll, scan),
        j <= parse(dll).parts.len() - 1,
        nearest matches Some(e) ==> is_proper_ancestor(e, parse(dll)),
    ensures
        is_under_spec(dll, walk(parent(parse(dll))->0, parse(dll), scan, exes, j, nearest)),
    decreases j,
{
    let p = parse(dll);
    crate::paths::lemma_parse_ends(dll);
    let n = p.parts.len() as int;
    lemma_parent_is_ancestor(p);
    lemma_ancestor_shape(p, n - 1);
    let dp = ancestor(p, n - 1);
    lemma_fallback_contains(dll, scan, nearest);
    if j >= 0 {
        let cur = ancestor(dp, j);
        lemma_ancestor_of_ancestor(p, n - 1, j);
        lemma_ancestor_shape(p, j);
        assert(is_proper_ancestor(cur, p));
        let nearest2 = if nearest is None && exes.contains(normalized_spec(path_text(cur))) {
            Some(cur)
        } else {
            nearest
        };
        lemma_fallback_contains(dll, scan, nearest2);
        if j < dp.parts.len() {
            lemma_ancestor_of_ancestor(p, n - 1, j + 1);
            lemma_ancestor_shape(p, j + 1);
            lemma_safe_root_contains(ancestor(dp, j + 1), dll, scan);
        }
        if j > 0 {
            lemma_walk_contains(dll, scan, exes, j - 1, nearest2);
        }
    }
}

proof fn lemma_unreal_proper(dll: Seq<char>, j: int)
    requires
        parse(dll).parts.len() >= 1,
        j <= parse(dll).parts.len() - 1,
    ensures
        unreal_root_from(parent(parse(dll))->0, j) matches Some(r) ==> is_proper_ancestor(r, parse(dll)),
    decreases j + 1,
{
    let p = parse(dll);
    crate::paths::lemma_parse_ends(dll);
    let n = p.parts.len() as int;
    lemma_parent_is_ancestor(p);
    lemma_ancestor_shape(p, n - 1);
    let dp = ancestor(p, n - 1);
    if j >= 0 {
        lemma_unreal_proper(dll, j - 1);
        if j >= 5 {
            lemma_ancestor_of_ancestor(p, n - 1, j - 4);
            lemma_ancestor_shape(p, j - 4);
            lemma_parent_is_ancestor(ancestor(p, j - 4));
            lemma_ancestor_of_ancestor(p, j - 4, j - 5);
            lemma_ancestor_shape(p, j - 5);
        }
    }
}

/// Whenever the runtime has a parent directory and lies under the scanned
/// folder, the directory protected for it contains it.
pub proof fn law_game_root_contains_runtime(dll: Seq<char>, scan: Seq<char>, exes: Seq<Seq<char>>)
    requires
        parent(parse(dll)) is Some,
        is_under_spec(dll, scan),
    ensures
        is_under_spec(dll, game_root_spec(dll, scan, exes)),
{
    let p = parse(dll);
    crate::paths::lemma_parse_ends(dll);
    let dp = parent(p)->0;
    assert(runtime_dir(dll, scan) == dp);
    lemma_parent_is_ancestor(p);
    lemma_ancestor_shape(p, p.parts.len() - 1);
    lemma_unreal_proper(dll, dp.parts.len() as int);
    match unreal_project_root_spec(dp) {
        Some(r) => lemma_safe_root_contains(r, dll, scan),
        None => lemma_walk_contains(dll, scan, exes, dp.parts.len() as int, None),
    }
}

/// The library and store folders that hold many games: each is a container,
/// whatever the case of its name.
pub proof fn law_library_container_names(p: PathView)
    ensures
        ({
            let n = lowered_name(p);
            (n == "steamapps"@ || n == "xboxgames"@ || n == "windowsapps"@ || n == "program files"@
                || n == "program files (x86)"@ || n == "program files (arm)"@ || n == "programdata"@
                || n == "epic games"@ || n == "epicgames"@ || n == "egs"@ || n == "gog galaxy"@
                || n == "gog galaxy games"@ || n == "gog games"@ || n == "ubisoft"@
                || n == "ubisoft game launcher"@ || n == "origin games"@ || n == "origin"@
                || n == "ea games"@ || n == "electronic arts"@ || n == "battle.net"@
                || n == "riot games"@ || n == "games"@ || n == "my games"@ || n == "common files"@
                || n == "amazon games"@) ==> is_library_container_spec(p) && too_wide_to_skip_spec(p)
        }),
{
}

proof fn lemma_walk_to_container_child(
    dll: Seq<char>,
    scan: Seq<char>,
    exes: Seq<Seq<char>>,
    k: int,
    j: int,
    nearest: Option<PathView>,
)
    requires
        parse(dll).parts.len() >= k + 2,
        0 <= k <= j <= parse(dll).parts.len() - 1,
        is_library_container_spec(ancestor(parse(dll), k)),
        forall|i: int| k < i <= parse(dll).parts.len() - 1 ==> {
            &&& !is_library_container_spec(#[trigger] ancestor(parse(dll), i))
            &&& !is_too_broad_name(lowered_name(ancestor(parse(dll), i)))
            &&& normalized_spec(path_text(ancestor(parse(dll), i))) != normalized_spec(scan)
        },
        is_under_spec(path_text(ancestor(parse(dll), k + 1)), scan),
    ensures
        walk(parent(parse(dll))->0, parse(dll), scan, exes, j, nearest) == path_text(ancestor(parse(dll), k + 1)),
    decreases j,
{
    let p = parse(dll);
    crate::paths::lemma_parse_ends(dll);
    let n = p.parts.len() as int;
    lemma_parent_is_ancestor(p);
    lemma_ancestor_shape(p, n - 1);
    let dp = ancestor(p, n - 1);
    lemma_ancestor_of_ancestor(p, n - 1, j);
    lemma_ancestor_of_ancestor(p, n - 1, k + 1);
    lemma_ancestor_shape(p, k + 1);
    let child = ancestor(p, k + 1);
    assert(!is_library_container_spec(child));
    assert(parent(child) is Some);
    assert(!too_wide_to_skip_spec(child));
    if j > k {
        let cur = ancestor(dp, j);
        let nearest2 = if nearest is None && exes.contains(normalized_spec(path_text(cur))) {
            Some(cur)
        } else {
            nearest
        };
        lemma_walk_to_container_child(dll, scan, exes, k, j - 1, nearest2);
    }
}

/// A runtime found inside a game folder directly below a library container
/// (such as `XboxGames` or `steamapps\common`), with no Unreal Engine layout
/// above it and no other container, too-broad folder or the scanned folder
/// between, protects that game folder: the container's child on the way to the
/// runtime, never the whole library.
pub proof fn law_container_protects_only_its_game(dll: Seq<char>, scan: Seq<char>, exes: Seq<Seq<char>>, k: int)
    requires
        parse(dll).parts.len() >= k + 2,
        0 <= k,
        is_library_container_spec(ancestor(parse(dll), k)),
        forall|i: int| k < i <= parse(dll).parts.len() - 1 ==> {
            &&& !is_library_container_spec(#[trigger] ancestor(parse(dll), i))
            &&& !is_too_broad_name(lowered_name(ancestor(parse(dll), i)))
            &&& normalized_spec(path_text(ancestor(parse(dll), i))) != normalized_spec(scan)
        },
        is_under_spec(path_text(ancestor(parse(dll), k + 1)), scan),
        unreal_project_root_spec(parent(parse(dll))->0) is None,
    ensures
        game_root_spec(dll, scan, exes) == path_text(ancestor(parse(dll), k + 1)),
{
    let p = parse(dll);
    crate::paths::lemma_parse_ends(dll);
    let n = p.parts.len() as int;
    lemma_parent_is_ancestor(p);
    lemma_ancestor_shape(p, n - 1);
    let dp = parent(p)->0;
    assert(runtime_dir(dll, scan) == dp);
    lemma_walk_to_container_child(dll, scan, exes, k, n - 1, None);
}

} // verus!
