//! A model of Windows paths as the library reads them, following how the
//! standard library reads paths on Windows: a prefix (`C:`, `\\?\C:`,
//! `\\?\UNC\server\share`, `\\?\name`, `\\.\device` or `\\server\share`),
//! a root separator (implied after a network share or a device), and the
//! named parts between separators.  `\` and `/` separate parts, except in
//! verbatim (`\\?\`) paths, where only `\` does; empty parts are dropped, and
//! `.` parts too, except in verbatim paths and at the very start of a
//! relative path.  The model also keeps the text it was read from, with the
//! position where each part ends, so that an ancestor's text is the input's
//! own text up to the end of the ancestor's last part.
use vstd::prelude::*;

use crate::text::{
    ascii_lower, chars_equal, chars_of, lower_char, starts_with_chars, string_from,
    to_ascii_lowercase,
};

verus! {

/// A path separator on Windows.
pub open spec fn is_sep(c: char) -> bool {
    c == '\\' || c == '/'
}

/// A separator inside a path: in a verbatim path only `\` separates.
pub open spec fn is_sep_in(c: char, verbatim: bool) -> bool {
    c == '\\' || (!verbatim && c == '/')
}

/// An ASCII letter, as a drive letter must be.
pub open spec fn is_ascii_alpha(c: char) -> bool {
    ('a' <= c && c <= 'z') || ('A' <= c && c <= 'Z')
}

/// The kinds of path prefix.
#[derive(Debug, Clone, Copy, PartialEq, Eq, Structural)]
pub enum PrefixKind {
    /// `C:`
    Disk,
    /// `\\?\C:`
    VerbatimDisk,
    /// `\\?\name`
    Verbatim,
    /// `\\?\UNC\server\share`
    VerbatimUnc,
    /// `\\.\device`
    DeviceNs,
    /// `\\server\share`
    Unc,
}

/// Position of the first separator of `s` at or after `i`, or the length of `s`.
pub open spec fn next_sep(s: Seq<char>, i: int, verbatim: bool) -> int
    decreases s.len() - i,
{
    if i < 0 || i >= s.len() {
        s.len() as int
    } else if is_sep_in(s[i], verbatim) {
        i
    } else {
        next_sep(s, i + 1, verbatim)
    }
}

/// The prefix at the start of `s`, with its length.
pub open spec fn prefix_of(s: Seq<char>) -> Option<(PrefixKind, int)> {
    if s.len() >= 2 && is_sep(s[0]) && is_sep(s[1]) {
        if s.len() >= 4 && s[0] == '\\' && s[1] == '\\' && s[2] == '?' && s[3] == '\\' {
            if s.len() >= 8 && s[4] == 'U' && s[5] == 'N' && s[6] == 'C' && is_sep(s[7]) {
                let i1 = next_sep(s, 8, true);
                let i2 = if i1 < s.len() { next_sep(s, i1 + 1, true) } else { s.len() as int };
                Some((PrefixKind::VerbatimUnc, if i1 < s.len() && i2 > i1 + 1 { i2 } else { i1 }))
            } else if s.len() >= 6 && is_ascii_alpha(s[4]) && s[5] == ':' && (s.len() == 6 || s[6]
                == '\\') {
                Some((PrefixKind::VerbatimDisk, 6))
            } else {
                Some((PrefixKind::Verbatim, next_sep(s, 4, true)))
            }
        } else if s.len() >= 4 && s[2] == '.' && is_sep(s[3]) {
            Some((PrefixKind::DeviceNs, next_sep(s, 4, false)))
        } else {
            let i1 = next_sep(s, 2, false);
            let i2 = if i1 < s.len() { next_sep(s, i1 + 1, false) } else { s.len() as int };
            if i1 > 2 && i1 < s.len() && i2 > i1 + 1 {
                Some((PrefixKind::Unc, i2))
            } else {
                None
            }
        }
    } else if s.len() >= 2 && is_ascii_alpha(s[0]) && s[1] == ':' {
        Some((PrefixKind::Disk, 2))
    } else {
        None
    }
}

/// Length of the prefix at the start of `s` (0 without one).
pub open spec fn prefix_len(s: Seq<char>) -> int {
    match prefix_of(s) {
        Some((_, l)) => l,
        None => 0,
    }
}

/// The path is verbatim (`\\?\`).
pub open spec fn is_verbatim(s: Seq<char>) -> bool {
    match prefix_of(s) {
        Some((k, _)) => k == PrefixKind::VerbatimDisk || k == PrefixKind::Verbatim || k
            == PrefixKind::VerbatimUnc,
        None => false,
    }
}

/// The prefix implies a root (network shares and devices).
pub open spec fn implicit_root(s: Seq<char>) -> bool {
    match prefix_of(s) {
        Some((k, _)) => k == PrefixKind::Unc || k == PrefixKind::DeviceNs,
        None => false,
    }
}

/// A separator follows the prefix.
pub open spec fn physical_root(s: Seq<char>) -> bool {
    prefix_len(s) < s.len() && is_sep(s[prefix_len(s)])
}

/// A relative path that starts with a `.` part, which is kept.
pub open spec fn leading_dot(s: Seq<char>) -> bool {
    let pl = prefix_len(s);
    &&& !is_verbatim(s)
    &&& !physical_root(s)
    &&& pl < s.len()
    &&& s[pl] == '.'
    &&& (pl + 1 == s.len() || is_sep_in(s[pl + 1], false))
}

/// A part being collected is kept when it is not empty, and, outside
/// verbatim paths, not `.`.
pub open spec fn keep_part(cur: Seq<char>, verbatim: bool) -> bool {
    cur.len() > 0 && (verbatim || cur != seq!['.'])
}

/// Reads `s` from the left: the parts completed so far, the part being
/// collected, and the position just after each completed part.
pub open spec fn scan_parts(s: Seq<char>, verbatim: bool) -> (Seq<Seq<char>>, Seq<char>, Seq<int>)
    decreases s.len(),
{
    if s.len() == 0 {
        (seq![], seq![], seq![])
    } else {
        let (done, cur, ends) = scan_parts(s.drop_last(), verbatim);
        if is_sep_in(s.last(), verbatim) {
            if keep_part(cur, verbatim) {
                (done.push(cur), seq![], ends.push(s.len() - 1))
            } else {
                (done, seq![], ends)
            }
        } else {
            (done, cur.push(s.last()), ends)
        }
    }
}

/// The parts of `s` and the position just after each.
pub open spec fn split_parts(s: Seq<char>, verbatim: bool) -> (Seq<Seq<char>>, Seq<int>) {
    let (done, cur, ends) = scan_parts(s, verbatim);
    if keep_part(cur, verbatim) {
        (done.push(cur), ends.push(s.len() as int))
    } else {
        (done, ends)
    }
}

/// The model of a path: prefix, root, named parts, and the text it was read
/// from with the position just after each part and after the root.
pub struct PathView {
    pub prefix: Seq<char>,
    pub rooted: bool,
    pub parts: Seq<Seq<char>>,
    pub text: Seq<char>,
    pub ends: Seq<int>,
    pub root_end: int,
}

/// Where the parts start: after the root separator, or after the prefix.
pub open spec fn body_start(s: Seq<char>) -> int {
    if physical_root(s) {
        prefix_len(s) + 1
    } else if leading_dot(s) {
        prefix_len(s) + 1
    } else {
        prefix_len(s)
    }
}

/// How the library reads a path string.
pub open spec fn parse(s: Seq<char>) -> PathView {
    let pl = prefix_len(s);
    let start = body_start(s);
    let (ps, es) = split_parts(s.skip(start), is_verbatim(s));
    let shifted = es.map_values(|e: int| e + start);
    PathView {
        prefix: s.take(pl),
        rooted: physical_root(s) || implicit_root(s),
        parts: if leading_dot(s) { seq![seq!['.']] + ps } else { ps },
        text: s,
        ends: if leading_dot(s) { seq![pl + 1] + shifted } else { shifted },
        root_end: if physical_root(s) { pl + 1 } else { pl },
    }
}

/// The text of a path as the model holds it: the text it was read from, up
/// to the end of its last part (up to the end of its root without parts).
pub open spec fn path_text(p: PathView) -> Seq<char> {
    let e = if p.parts.len() > 0 && p.ends.len() > 0 { p.ends.last() } else { p.root_end };
    p.text.take(if e < 0 { 0 } else if e > p.text.len() { p.text.len() as int } else { e })
}

/// Parts joined with `\`.
pub open spec fn join_parts(parts: Seq<Seq<char>>) -> Seq<char>
    decreases parts.len(),
{
    if parts.len() == 0 {
        seq![]
    } else if parts.len() == 1 {
        parts[0]
    } else {
        join_parts(parts.drop_last()) + seq!['\\'] + parts.last()
    }
}

/// The string form of a path model, with `\` as the separator.
pub open spec fn render(p: PathView) -> Seq<char> {
    p.prefix + (if p.rooted { seq!['\\'] } else { seq![] }) + join_parts(p.parts)
}

/// The first `n` positions, or all of them when there are fewer.
pub open spec fn ends_upto(ends: Seq<int>, n: int) -> Seq<int> {
    if n <= ends.len() {
        ends.take(n)
    } else {
        ends
    }
}

/// `Path::parent`: the path without its last part, if it has one.
pub open spec fn parent(p: PathView) -> Option<PathView> {
    if p.parts.len() > 0 {
        Some(PathView { parts: p.parts.drop_last(), ends: ends_upto(p.ends, p.parts.len() - 1), ..p })
    } else {
        None
    }
}

/// The first `n` parts of `p` (an ancestor of `p` for `n <= p.parts.len()`).
pub open spec fn ancestor(p: PathView, n: int) -> PathView {
    PathView { parts: p.parts.take(n), ends: ends_upto(p.ends, n), ..p }
}

/// `Path::file_name`: the last part, unless the path ends in `.` or `..` or has no parts.
pub open spec fn file_name(p: PathView) -> Option<Seq<char>> {
    if p.parts.len() > 0 && p.parts.last() != seq!['.', '.'] && p.parts.last() != seq!['.'] {
        Some(p.parts.last())
    } else {
        None
    }
}

/// The ASCII-lowercase file name, or the empty sequence when there is none.
pub open spec fn lowered_name(p: PathView) -> Seq<char> {
    match file_name(p) {
        Some(n) => ascii_lower(n),
        None => seq![],
    }
}

/// `Path::components().count()`: prefix, root and each part count once.
pub open spec fn component_count(p: PathView) -> int {
    (if p.prefix.len() > 0 { 1int } else { 0int }) + (if p.rooted { 1int } else { 0int }) + p.parts.len()
}

/// `PathBuf::join`: a part list with its own drive replaces `base`; a rooted
/// part list keeps only the drive of `base`; otherwise the parts are appended.
pub open spec fn join(base: PathView, rel: PathView) -> PathView {
    if rel.prefix.len() > 0 {
        rel
    } else if rel.rooted {
        PathView { prefix: base.prefix, ..rel }
    } else {
        PathView { parts: base.parts + rel.parts, ends: base.ends + rel.ends, ..base }
    }
}

/// `/` replaced by `\`.
pub open spec fn backslashed(s: Seq<char>) -> Seq<char> {
    Seq::new(s.len(), |i: int| if s[i] == '/' { '\\' } else { s[i] })
}

/// `s` without trailing `\` characters.
pub open spec fn trim_trailing_backslashes(s: Seq<char>) -> Seq<char>
    decreases s.len(),
{
    if s.len() > 0 && s.last() == '\\' {
        trim_trailing_backslashes(s.drop_last())
    } else {
        s
    }
}

/// The comparison form of a path string: `/` turned into `\`, trailing `\`
/// removed, ASCII letters lower-cased.
pub open spec fn normalized_spec(s: Seq<char>) -> Seq<char> {
    ascii_lower(trim_trailing_backslashes(backslashed(s)))
}

/// `n` is `root`, or `root` followed by `\` and more.
pub open spec fn same_or_below(n: Seq<char>, root: Seq<char>) -> bool {
    n == root || (n.len() > root.len() && n.take(root.len() as int) == root && n[root.len() as int]
        == '\\')
}

/// `path` lies at or below `root`, comparing normalized strings.
pub open spec fn is_under_spec(path: Seq<char>, root: Seq<char>) -> bool {
    same_or_below(normalized_spec(path), normalized_spec(root))
}

/// A path in its model form.
pub struct WinPath {
    pub prefix: Vec<char>,
    pub rooted: bool,
    pub parts: Vec<Vec<char>>,
    pub text: Vec<char>,
    pub ends: Vec<usize>,
    pub root_end: usize,
}

/// The positions as integers.
pub open spec fn ends_view(ends: Seq<usize>) -> Seq<int> {
    ends.map_values(|e: usize| e as int)
}

impl View for WinPath {
    type V = PathView;

    open spec fn view(&self) -> PathView {
        PathView {
            prefix: self.prefix@,
            rooted: self.rooted,
            parts: self.parts@.map_values(|p: Vec<char>| p@),
            text: self.text@,
            ends: ends_view(self.ends@),
            root_end: self.root_end as int,
        }
    }
}

/// Copies a character vector.
pub fn copy_chars(s: &Vec<char>) -> (res: Vec<char>)
    ensures
        res@ == s@,
{
    let mut res: Vec<char> = Vec::new();
    let mut i: usize = 0;
    while i < s.len()
        invariant
            i <= s.len(),
            res@ == s@.take(i as int),
        decreases s.len() - i,
    {
        res.push(s[i]);
        assert(s@.take(i + 1 as int) =~= s@.take(i as int).push(s@[i as int]));
        i = i + 1;
    }
    assert(s@.take(i as int) =~= s@);
    res
}

fn is_ascii_alpha_exec(c: char) -> (res: bool)
    ensures
        res == is_ascii_alpha(c),
{
    ('a' <= c && c <= 'z') || ('A' <= c && c <= 'Z')
}

fn is_dot(cur: &Vec<char>) -> (res: bool)
    ensures
        res == (cur@ == seq!['.']),
{
    if cur.len() == 1 && cur[0] == '.' {
        assert(cur@ =~= seq!['.']);
        true
    } else {
        false
    }
}

/// Copies a list of parts.
pub fn copy_parts(parts: &Vec<Vec<char>>) -> (res: Vec<Vec<char>>)
    ensures
        res@.map_values(|p: Vec<char>| p@) == parts@.map_values(|p: Vec<char>| p@),
{
    let mut res: Vec<Vec<char>> = Vec::new();
    let mut i: usize = 0;
    while i < parts.len()
        invariant
            i <= parts.len(),
            res@.map_values(|p: Vec<char>| p@) == parts@.take(i as int).map_values(|p: Vec<char>| p@),
        decreases parts.len() - i,
    {
        let c = copy_chars(&parts[i]);
        res.push(c);
        assert(parts@.take(i + 1 as int).map_values(|p: Vec<char>| p@) =~= parts@.take(i as int).map_values(|p: Vec<char>| p@).push(parts@[i as int]@));
        assert(res@.map_values(|p: Vec<char>| p@) =~= res@.drop_last().map_values(|p: Vec<char>| p@).push(res@.last()@));
        i = i + 1;
    }
    assert(parts@.take(i as int) =~= parts@);
    res
}

/// Copies a list of positions.
fn copy_ends(e: &Vec<usize>) -> (res: Vec<usize>)
    ensures
        res@ == e@,
{
    let mut res: Vec<usize> = Vec::new();
    let mut i: usize = 0;
    while i < e.len()
        invariant
            i <= e.len(),
            res@ == e@.take(i as int),
        decreases e.len() - i,
    {
        res.push(e[i]);
        assert(e@.take(i + 1 as int) =~= e@.take(i as int).push(e@[i as int]));
        i = i + 1;
    }
    assert(e@.take(i as int) =~= e@);
    res
}

/// The first `n` positions of a list.
fn take_ends(e: &Vec<usize>, n: usize) -> (res: Vec<usize>)
    requires
        n <= e.len(),
    ensures
        res@ == e@.take(n as int),
{
    let mut res: Vec<usize> = Vec::new();
    let mut i: usize = 0;
    while i < n
        invariant
            i <= n,
            n <= e.len(),
            res@ == e@.take(i as int),
        decreases n - i,
    {
        res.push(e[i]);
        assert(e@.take(i + 1 as int) =~= e@.take(i as int).push(e@[i as int]));
        i = i + 1;
    }
    res
}

/// The first `n` positions of a list, or all of them when it is shorter.
pub fn take_ends_upto(e: &Vec<usize>, n: usize) -> (res: Vec<usize>)
    ensures
        res@ == if n <= e.len() { e@.take(n as int) } else { e@ },
{
    if n <= e.len() {
        take_ends(e, n)
    } else {
        copy_ends(e)
    }
}

/// Copies a path.
pub fn copy_path(p: &WinPath) -> (res: WinPath)
    ensures
        res@ == p@,
{
    WinPath {
        prefix: copy_chars(&p.prefix),
        rooted: p.rooted,
        parts: copy_parts(&p.parts),
        text: copy_chars(&p.text),
        ends: copy_ends(&p.ends),
        root_end: p.root_end,
    }
}

fn is_sep_in_exec(c: char, verbatim: bool) -> (res: bool)
    ensures
        res == is_sep_in(c, verbatim),
{
    c == '\\' || (!verbatim && c == '/')
}

fn is_sep_exec(c: char) -> (res: bool)
    ensures
        res == is_sep(c),
{
    c == '\\' || c == '/'
}

/// Position of the first separator of `s` at or after `i` (see [`next_sep`]).
fn next_sep_exec(s: &Vec<char>, i: usize, verbatim: bool) -> (res: usize)
    ensures
        res == next_sep(s@, i as int, verbatim),
        res <= s.len(),
{
    let mut k = i;
    if k >= s.len() {
        return s.len();
    }
    while k < s.len() && !is_sep_in_exec(s[k], verbatim)
        invariant
            i <= k,
            k <= s.len() || k == i,
            next_sep(s@, i as int, verbatim) == next_sep(s@, k as int, verbatim),
        decreases s.len() - k,
    {
        k = k + 1;
    }
    if k >= s.len() {
        s.len()
    } else {
        k
    }
}

/// The prefix at the start of `s` (see [`prefix_of`]).
pub fn prefix_of_exec(s: &Vec<char>) -> (res: Option<(PrefixKind, usize)>)
    ensures
        match prefix_of(s@) {
            Some((k, l)) => res == Some((k, l as usize)) && 0 <= l <= s.len(),
            None => res is None,
        },
{
    let n = s.len();
    if n >= 2 && is_sep_exec(s[0]) && is_sep_exec(s[1]) {
        if n >= 4 && s[0] == '\\' && s[1] == '\\' && s[2] == '?' && s[3] == '\\' {
            if n >= 8 && s[4] == 'U' && s[5] == 'N' && s[6] == 'C' && is_sep_exec(s[7]) {
                let i1 = next_sep_exec(s, 8, true);
                let i2 = if i1 < n { next_sep_exec(s, i1 + 1, true) } else { n };
                Some((PrefixKind::VerbatimUnc, if i1 < n && i2 > i1 + 1 { i2 } else { i1 }))
            } else if n >= 6 && is_ascii_alpha_exec(s[4]) && s[5] == ':' && (n == 6 || s[6] == '\\') {
                Some((PrefixKind::VerbatimDisk, 6))
            } else {
                Some((PrefixKind::Verbatim, next_sep_exec(s, 4, true)))
            }
        } else if n >= 4 && s[2] == '.' && is_sep_exec(s[3]) {
            Some((PrefixKind::DeviceNs, next_sep_exec(s, 4, false)))
        } else {
            let i1 = next_sep_exec(s, 2, false);
            let i2 = if i1 < n { next_sep_exec(s, i1 + 1, false) } else { n };
            if i1 > 2 && i1 < n && i2 > i1 + 1 {
                Some((PrefixKind::Unc, i2))
            } else {
                None
            }
        }
    } else if n >= 2 && is_ascii_alpha_exec(s[0]) && s[1] == ':' {
        Some((PrefixKind::Disk, 2))
    } else {
        None
    }
}

proof fn lemma_next_sep_bounds(s: Seq<char>, i: int, verbatim: bool)
    ensures
        0 <= next_sep(s, i, verbatim) <= s.len(),
        i >= 0 && i <= s.len() ==> i <= next_sep(s, i, verbatim),
    decreases s.len() - i,
{
    if i >= 0 && i < s.len() && !is_sep_in(s[i], verbatim) {
        lemma_next_sep_bounds(s, i + 1, verbatim);
    }
}

proof fn lemma_scan_ends(s: Seq<char>, verbatim: bool)
    ensures
        scan_parts(s, verbatim).0.len() == scan_parts(s, verbatim).2.len(),
        forall|i: int| 0 <= i < scan_parts(s, verbatim).2.len() ==> 0 <= #[trigger] scan_parts(s, verbatim).2[i]
            < s.len() && is_sep_in(s[scan_parts(s, verbatim).2[i]], verbatim),
    decreases s.len(),
{
    if s.len() > 0 {
        lemma_scan_ends(s.drop_last(), verbatim);
        let (d, c, e) = scan_parts(s.drop_last(), verbatim);
        assert forall|i: int| 0 <= i < e.len() implies s[e[i]] == s.drop_last()[e[i]] by {}
    }
}

/// The positions in the model of `s` lie within `s`, and each is the end of
/// `s` or a separator.
pub proof fn lemma_parse_ends(s: Seq<char>)
    ensures
        parse(s).ends.len() == parse(s).parts.len(),
        0 <= parse(s).root_end <= s.len(),
        forall|i: int| 0 <= i < parse(s).ends.len() ==> 0 <= #[trigger] parse(s).ends[i] <= s.len()
            && (parse(s).ends[i] == s.len() || is_sep(s[parse(s).ends[i]])),
{
    let pl = prefix_len(s);
    lemma_prefix_bounds(s);
    let start = body_start(s);
    let t = s.skip(start);
    let v = is_verbatim(s);
    lemma_scan_ends(t, v);
    let (ps, es) = split_parts(t, v);
    assert forall|i: int| 0 <= i < es.len() implies 0 <= #[trigger] es[i] <= t.len() && (es[i] == t.len()
        || is_sep_in(t[es[i]], v)) by {}
    let shifted = es.map_values(|e: int| e + start);
    assert forall|i: int| 0 <= i < shifted.len() implies 0 <= #[trigger] shifted[i] <= s.len() && (shifted[i]
        == s.len() || is_sep(s[shifted[i]])) by {
        if es[i] < t.len() {
            assert(t[es[i]] == s[es[i] + start]);
        }
    }
    if leading_dot(s) {
        let all = seq![pl + 1] + shifted;
        assert forall|i: int| 0 <= i < all.len() implies 0 <= #[trigger] all[i] <= s.len() && (all[i] == s.len()
            || is_sep(s[all[i]])) by {
            if i > 0 {
                assert(all[i] == shifted[i - 1]);
            }
        }
    }
}

pub proof fn lemma_prefix_bounds(s: Seq<char>)
    ensures
        0 <= prefix_len(s) <= s.len(),
{
    lemma_next_sep_bounds(s, 8, true);
    lemma_next_sep_bounds(s, 4, true);
    lemma_next_sep_bounds(s, 4, false);
    lemma_next_sep_bounds(s, 2, false);
    let i1 = next_sep(s, 8, true);
    lemma_next_sep_bounds(s, i1 + 1, true);
    let j1 = next_sep(s, 2, false);
    lemma_next_sep_bounds(s, j1 + 1, false);
}

/// Reads a path string into its model.
pub fn parse_path(s: &Vec<char>) -> (res: WinPath)
    ensures
        res@ == parse(s@),
{
    proof {
        lemma_prefix_bounds(s@);
    }
    let kind = prefix_of_exec(s);
    let pl: usize = match kind {
        Some((_, l)) => l,
        None => 0,
    };
    let verbatim = match kind {
        Some((k, _)) => k == PrefixKind::VerbatimDisk || k == PrefixKind::Verbatim || k == PrefixKind::VerbatimUnc,
        None => false,
    };
    let implicit = match kind {
        Some((k, _)) => k == PrefixKind::Unc || k == PrefixKind::DeviceNs,
        None => false,
    };
    assert(pl == prefix_len(s@));
    assert(verbatim == is_verbatim(s@));
    assert(implicit == implicit_root(s@));
    let mut prefix: Vec<char> = Vec::new();
    let mut i: usize = 0;
    while i < pl
        invariant
            pl == prefix_len(s@),
            pl <= s.len(),
            i <= pl,
            prefix@ == s@.take(i as int),
        decreases pl - i,
    {
        prefix.push(s[i]);
        assert(s@.take(i + 1 as int) =~= s@.take(i as int).push(s@[i as int]));
        i = i + 1;
    }
    let physical = pl < s.len() && is_sep_exec(s[pl]);
    let dot = !verbatim && !physical && pl < s.len() && s[pl] == '.' && (pl + 1 == s.len() || is_sep_in_exec(s[pl + 1], false));
    assert(physical == physical_root(s@));
    assert(dot == leading_dot(s@));
    let start: usize = if physical || dot { pl + 1 } else { pl };
    assert(start == body_start(s@));
    let mut done: Vec<Vec<char>> = Vec::new();
    let mut ends: Vec<usize> = Vec::new();
    let mut cur: Vec<char> = Vec::new();
    let ghost rest = s@.skip(start as int);
    let mut j: usize = start;
    assert(rest.take(0) =~= Seq::<char>::empty());
    assert(ends_view(ends@) =~= Seq::<int>::empty().map_values(|e: int| e + start));
    while j < s.len()
        invariant
            start <= j <= s.len(),
            rest == s@.skip(start as int),
            (done@.map_values(|p: Vec<char>| p@), cur@) == (scan_parts(rest.take(j - start), verbatim).0, scan_parts(rest.take(j - start), verbatim).1),
            ends@.len() == done@.len(),
            ends_view(ends@) == scan_parts(rest.take(j - start), verbatim).2.map_values(|e: int| e + start),
        decreases s.len() - j,
    {
        let c = s[j];
        let ghost before = rest.take(j - start);
        assert(rest.take(j + 1 - start).drop_last() =~= before);
        assert(rest.take(j + 1 - start).last() == c);
        if is_sep_in_exec(c, verbatim) {
            if cur.len() > 0 && (verbatim || !is_dot(&cur)) {
                let ghost old_done = done@;
                let ghost old_ends = ends@;
                done.push(cur);
                ends.push(j);
                assert(done@.map_values(|p: Vec<char>| p@) =~= old_done.map_values(|p: Vec<char>| p@).push(cur@));
                assert(ends_view(ends@) =~= ends_view(old_ends).push(j as int));
                assert(ends_view(ends@) =~= scan_parts(rest.take(j + 1 - start), verbatim).2.map_values(|e: int| e + start));
            }
            cur = Vec::new();
            assert(cur@ =~= Seq::<char>::empty());
        } else {
            cur.push(c);
        }
        j = j + 1;
    }
    assert(rest.take(j - start) =~= rest);
    if cur.len() > 0 && (verbatim || !is_dot(&cur)) {
        let ghost old_done = done@;
        let ghost old_ends = ends@;
        done.push(cur);
        ends.push(s.len());
        assert(done@.map_values(|p: Vec<char>| p@) =~= old_done.map_values(|p: Vec<char>| p@).push(cur@));
        assert(ends_view(ends@) =~= ends_view(old_ends).push(s.len() as int));
    }
    let ghost es = split_parts(rest, verbatim).1;
    assert(ends_view(ends@) =~= es.map_values(|e: int| e + start));
    let root_end = if physical { pl + 1 } else { pl };
    if dot {
        let mut parts: Vec<Vec<char>> = Vec::new();
        let mut d: Vec<char> = Vec::new();
        d.push('.');
        parts.push(d);
        let mut all: Vec<usize> = Vec::new();
        all.push(pl + 1);
        let mut k: usize = 0;
        let ghost ds = done@.map_values(|p: Vec<char>| p@);
        let ghost ev = ends_view(ends@);
        assert(parts@.map_values(|p: Vec<char>| p@) =~= seq![seq!['.']] + ds.take(0));
        assert(ends_view(all@) =~= seq![(pl + 1) as int] + ev.take(0));
        while k < done.len()
            invariant
                k <= done.len(),
                ends.len() == done.len(),
                ds == done@.map_values(|p: Vec<char>| p@),
                ev == ends_view(ends@),
                parts@.map_values(|p: Vec<char>| p@) == seq![seq!['.']] + ds.take(k as int),
                ends_view(all@) == seq![(pl + 1) as int] + ev.take(k as int),
            decreases done.len() - k,
        {
            let ghost bp = parts@;
            let ghost ba = all@;
            parts.push(copy_chars(&done[k]));
            all.push(ends[k]);
            assert(parts@.map_values(|p: Vec<char>| p@) =~= bp.map_values(|p: Vec<char>| p@).push(ds[k as int]));
            assert(ds.take(k + 1 as int) =~= ds.take(k as int).push(ds[k as int]));
            assert(ends_view(all@) =~= ends_view(ba).push(ev[k as int]));
            assert(ev.take(k + 1 as int) =~= ev.take(k as int).push(ev[k as int]));
            k = k + 1;
        }
        assert(ds.take(k as int) =~= ds);
        assert(ev.take(k as int) =~= ev);
        WinPath { prefix, rooted: physical || implicit, parts, text: copy_chars(s), ends: all, root_end }
    } else {
        WinPath { prefix, rooted: physical || implicit, parts: done, text: copy_chars(s), ends, root_end }
    }
}

/// Appends `src` to `dst`.
pub fn append_chars(dst: &mut Vec<char>, src: &Vec<char>)
    ensures
        final(dst)@ == old(dst)@ + src@,
{
    let mut i: usize = 0;
    while i < src.len()
        invariant
            i <= src.len(),
            dst@ == old(dst)@ + src@.take(i as int),
        decreases src.len() - i,
    {
        dst.push(src[i]);
        assert(src@.take(i + 1 as int) =~= src@.take(i as int).push(src@[i as int]));
        i = i + 1;
    }
    assert(src@.take(i as int) =~= src@);
}

proof fn lemma_join_parts_push(parts: Seq<Seq<char>>, p: Seq<char>)
    ensures
        join_parts(parts.push(p)) == if parts.len() == 0 {
            p
        } else {
            join_parts(parts) + seq!['\\'] + p
        },
{
    assert(parts.push(p).drop_last() =~= parts);
}

/// The string form of a path.
pub fn render_path(p: &WinPath) -> (res: Vec<char>)
    ensures
        res@ == render(p@),
{
    let mut res = copy_chars(&p.prefix);
    if p.rooted {
        res.push('\\');
    }
    let ghost head = res@;
    let ghost parts = p@.parts;
    let mut i: usize = 0;
    while i < p.parts.len()
        invariant
            i <= p.parts.len(),
            parts == p@.parts,
            parts.len() == p.parts.len(),
            head == p@.prefix + (if p@.rooted { seq!['\\'] } else { seq![] }),
            res@ == head + join_parts(parts.take(i as int)),
        decreases p.parts.len() - i,
    {
        proof {
            lemma_join_parts_push(parts.take(i as int), parts[i as int]);
            assert(parts.take(i as int).push(parts[i as int]) =~= parts.take(i + 1 as int));
        }
        if i > 0 {
            res.push('\\');
        }
        append_chars(&mut res, &p.parts[i]);
        assert(res@ =~= head + join_parts(parts.take(i + 1 as int)));
        i = i + 1;
    }
    assert(parts.take(i as int) =~= parts);
    assert(render(p@) =~= head + join_parts(parts));
    res
}

/// `Path::parent`.
pub fn parent_path(p: &WinPath) -> (res: Option<WinPath>)
    ensures
        res matches Some(q) ==> parent(p@) == Some(q@),
        res is None ==> parent(p@) is None,
{
    if p.parts.len() == 0 {
        return None;
    }
    let mut parts = copy_parts(&p.parts);
    let ghost before = parts@;
    parts.pop();
    assert(parts@.map_values(|q: Vec<char>| q@) =~= before.map_values(|q: Vec<char>| q@).drop_last());
    let n = p.parts.len() - 1;
    let ends = take_ends_upto(&p.ends, n);
    assert(ends_view(ends@) =~= ends_upto(ends_view(p.ends@), n as int));
    Some(WinPath { prefix: copy_chars(&p.prefix), rooted: p.rooted, parts, text: copy_chars(&p.text), ends, root_end: p.root_end })
}

/// The text of a path (see [`path_text`]).
pub fn text_of(p: &WinPath) -> (res: Vec<char>)
    ensures
        res@ == path_text(p@),
{
    let e = if p.parts.len() > 0 && p.ends.len() > 0 { p.ends[p.ends.len() - 1] } else { p.root_end };
    let n = if e > p.text.len() { p.text.len() } else { e };
    let mut res: Vec<char> = Vec::new();
    let mut i: usize = 0;
    while i < n
        invariant
            i <= n,
            n <= p.text.len(),
            res@ == p.text@.take(i as int),
        decreases n - i,
    {
        res.push(p.text[i]);
        assert(p.text@.take(i + 1 as int) =~= p.text@.take(i as int).push(p.text@[i as int]));
        i = i + 1;
    }
    res
}

/// The ASCII-lowercase file name of a path, empty when there is none.
pub fn lower_name(p: &WinPath) -> (res: Vec<char>)
    ensures
        res@ == lowered_name(p@),
{
    let n = p.parts.len();
    if n == 0 {
        return Vec::new();
    }
    let last = &p.parts[n - 1];
    assert(p@.parts.last() == last@);
    if last.len() == 2 && last[0] == '.' && last[1] == '.' {
        assert(last@ =~= seq!['.', '.']);
        return Vec::new();
    }
    if is_dot(last) {
        return Vec::new();
    }
    assert(last@ != seq!['.', '.']) by {
        if last@ == seq!['.', '.'] {
            assert(last@.len() == 2 && last@[0] == '.' && last@[1] == '.');
        }
    }
    to_ascii_lowercase(last)
}

/// Number of components of a path, as a `usize` (saturating at `usize::MAX`).
pub fn component_count_of(p: &WinPath) -> (res: usize)
    ensures
        res == if component_count(p@) > usize::MAX { usize::MAX as int } else { component_count(p@) },
{
    let mut n: usize = 0;
    if p.prefix.len() > 0 {
        n = 1;
    }
    if p.rooted {
        n = n + 1;
    }
    n.saturating_add(p.parts.len())
}

fn backslashed_exec(s: &Vec<char>) -> (res: Vec<char>)
    ensures
        res@ == backslashed(s@),
{
    let mut res: Vec<char> = Vec::new();
    let mut i: usize = 0;
    while i < s.len()
        invariant
            i <= s.len(),
            res@ == backslashed(s@.take(i as int)),
        decreases s.len() - i,
    {
        let c = if s[i] == '/' { '\\' } else { s[i] };
        res.push(c);
        assert(backslashed(s@.take(i + 1 as int)) =~= backslashed(s@.take(i as int)).push(c));
        i = i + 1;
    }
    assert(s@.take(i as int) =~= s@);
    res
}

proof fn lemma_trim_trailing_stable(s: Seq<char>)
    requires
        s.len() == 0 || s.last() != '\\',
    ensures
        trim_trailing_backslashes(s) == s,
{
}

/// The comparison form of a path string (see [`normalized_spec`]).
pub fn normalized_chars(s: &Vec<char>) -> (res: Vec<char>)
    ensures
        res@ == normalized_spec(s@),
{
    let mut b = backslashed_exec(s);
    let ghost full = b@;
    while b.len() > 0 && b[b.len() - 1] == '\\'
        invariant
            trim_trailing_backslashes(full) == trim_trailing_backslashes(b@),
        decreases b.len(),
    {
        let ghost before = b@;
        b.pop();
        assert(b@ =~= before.drop_last());
    }
    proof {
        lemma_trim_trailing_stable(b@);
    }
    to_ascii_lowercase(&b)
}

/// Whether the normalized `n` is the normalized `root` or lies below it.
pub fn same_or_below_exec(n: &Vec<char>, root: &Vec<char>) -> (res: bool)
    ensures
        res == same_or_below(n@, root@),
{
    if chars_equal(n, root) {
        return true;
    }
    n.len() > root.len() && starts_with_chars(n, root) && n[root.len()] == '\\'
}

/// Whether `path` lies at or below `root` (see [`is_under_spec`]).
pub fn is_under_chars(path: &Vec<char>, root: &Vec<char>) -> (res: bool)
    ensures
        res == is_under_spec(path@, root@),
{
    let p = normalized_chars(path);
    let r = normalized_chars(root);
    same_or_below_exec(&p, &r)
}

/// `PathBuf::join` on path models.
pub fn join_path(base: &WinPath, rel: &WinPath) -> (res: WinPath)
    ensures
        res@ == join(base@, rel@),
{
    if rel.prefix.len() > 0 {
        copy_path(rel)
    } else if rel.rooted {
        WinPath {
            prefix: copy_chars(&base.prefix),
            rooted: true,
            parts: copy_parts(&rel.parts),
            text: copy_chars(&rel.text),
            ends: copy_ends(&rel.ends),
            root_end: rel.root_end,
        }
    } else {
        let mut parts = copy_parts(&base.parts);
        let mut i: usize = 0;
        let ghost bp = base@.parts;
        let ghost rp = rel@.parts;
        while i < rel.parts.len()
            invariant
                i <= rel.parts.len(),
                rp == rel@.parts,
                rp.len() == rel.parts.len(),
                parts@.map_values(|p: Vec<char>| p@) == bp + rp.take(i as int),
            decreases rel.parts.len() - i,
        {
            let c = copy_chars(&rel.parts[i]);
            let ghost before = parts@;
            parts.push(c);
            assert(parts@.map_values(|p: Vec<char>| p@) =~= before.map_values(|p: Vec<char>| p@).push(c@));
            assert(rp.take(i + 1 as int) =~= rp.take(i as int).push(rp[i as int]));
            assert(bp + rp.take(i + 1 as int) =~= (bp + rp.take(i as int)).push(rp[i as int]));
            i = i + 1;
        }
        assert(rp.take(i as int) =~= rp);
        let mut ends = copy_ends(&base.ends);
        let ghost be = ends@;
        let mut k: usize = 0;
        while k < rel.ends.len()
            invariant
                k <= rel.ends.len(),
                be == base.ends@,
                ends@ == be + rel.ends@.take(k as int),
            decreases rel.ends.len() - k,
        {
            ends.push(rel.ends[k]);
            assert(rel.ends@.take(k + 1 as int) =~= rel.ends@.take(k as int).push(rel.ends@[k as int]));
            k = k + 1;
        }
        assert(rel.ends@.take(k as int) =~= rel.ends@);
        assert(ends_view(ends@) =~= ends_view(base.ends@) + ends_view(rel.ends@));
        WinPath { prefix: copy_chars(&base.prefix), rooted: base.rooted, parts, text: copy_chars(&base.text), ends, root_end: base.root_end }
    }
}

/// The comparison form of a path: `/` turned into `\`, trailing `\` removed,
/// ASCII letters lower-cased.
pub fn normalized(path: &str) -> (res: String)
    ensures
        res@ == normalized_spec(path@),
{
    let p = chars_of(path);
    let n = normalized_chars(&p);
    string_from(&n)
}

/// Whether `path` is `root` or lies below it, comparing normalized paths.
pub fn is_under(path: &str, root: &str) -> (res: bool)
    ensures
        res == is_under_spec(path@, root@),
{
    let p = chars_of(path);
    let r = chars_of(root);
    is_under_chars(&p, &r)
}

proof fn lemma_trim_shape(x: Seq<char>)
    ensures
        trim_trailing_backslashes(x).len() <= x.len(),
        trim_trailing_backslashes(x) == x.take(trim_trailing_backslashes(x).len() as int),
        forall|i: int| trim_trailing_backslashes(x).len() <= i < x.len() ==> x[i] == '\\',
        trim_trailing_backslashes(x).len() == 0 || x[trim_trailing_backslashes(x).len() - 1] != '\\',
    decreases x.len(),
{
    if x.len() > 0 && x.last() == '\\' {
        lemma_trim_shape(x.drop_last());
        let t = trim_trailing_backslashes(x.drop_last());
        assert(x.drop_last().take(t.len() as int) =~= x.take(t.len() as int));
        assert forall|i: int| t.len() <= i < x.len() implies x[i] == '\\' by {
            if i < x.len() - 1 {
                assert(x[i] == x.drop_last()[i]);
            }
        }
        if t.len() > 0 {
            assert(x[t.len() - 1] == x.drop_last()[t.len() - 1]);
        }
    } else {
        assert(x.take(x.len() as int) =~= x);
    }
}

proof fn lemma_trim_prefix(x: Seq<char>, e: int)
    requires
        trim_trailing_backslashes(x).len() <= e <= x.len(),
    ensures
        trim_trailing_backslashes(x.take(e)) == trim_trailing_backslashes(x),
    decreases e,
{
    lemma_trim_shape(x);
    let t = trim_trailing_backslashes(x);
    if e > t.len() {
        assert(x.take(e).last() == x[e - 1]);
        assert(x.take(e).drop_last() =~= x.take(e - 1));
        lemma_trim_prefix(x, e - 1);
    } else {
        assert(x.take(e) =~= t);
        lemma_trim_trailing_stable(t);
    }
}

/// The text of `s` up to a separator (or up to its end) contains `s`.
pub proof fn lemma_under_prefix(s: Seq<char>, e: int)
    requires
        0 <= e <= s.len(),
        e == s.len() || is_sep(s[e]),
    ensures
        is_under_spec(s, s.take(e)),
{
    let bs = backslashed(s);
    assert(backslashed(s.take(e)) =~= bs.take(e));
    if e == s.len() {
        assert(s.take(e) =~= s);
    } else {
        assert(bs[e] == '\\');
        lemma_trim_shape(bs);
        let ts = trim_trailing_backslashes(bs);
        if ts.len() <= e {
            lemma_trim_prefix(bs, e);
        } else {
            let bt = bs.take(e);
            lemma_trim_shape(bt);
            let tt = trim_trailing_backslashes(bt);
            let l = tt.len() as int;
            assert(tt =~= bs.take(l));
            assert(ts.take(l) =~= bs.take(l));
            assert(ts[l] == bs[l]);
            if l < e {
                assert(bt[l] == '\\');
            }
            assert(ts[l] == '\\');
            let ns = ascii_lower(ts);
            let nt = ascii_lower(tt);
            assert(ns.take(l) =~= nt);
            assert(ns[l] == '\\');
        }
    }
}

/// Adding a separator to a text does not change its comparison form.
pub proof fn lemma_normalized_trailing_sep(s: Seq<char>, c: char)
    requires
        is_sep(c),
    ensures
        normalized_spec(s.push(c)) == normalized_spec(s),
{
    assert(backslashed(s.push(c)) =~= backslashed(s).push('\\'));
    assert(backslashed(s).push('\\').drop_last() =~= backslashed(s));
}

proof fn lemma_next_sep_is_sep(s: Seq<char>, i: int, verbatim: bool)
    ensures
        next_sep(s, i, verbatim) == s.len() || is_sep(s[next_sep(s, i, verbatim)]),
    decreases s.len() - i,
{
    if i >= 0 && i < s.len() && !is_sep_in(s[i], verbatim) {
        lemma_next_sep_is_sep(s, i + 1, verbatim);
    }
}

/// After a prefix other than a bare drive (`C:`) comes a separator or the end.
pub proof fn lemma_prefix_followed_by_sep(s: Seq<char>)
    ensures
        match prefix_of(s) {
            Some((k, l)) => k != PrefixKind::Disk ==> l == s.len() || is_sep(s[l]),
            None => true,
        },
{
    lemma_next_sep_is_sep(s, 8, true);
    lemma_next_sep_is_sep(s, 4, true);
    lemma_next_sep_is_sep(s, 4, false);
    lemma_next_sep_is_sep(s, 2, false);
    let i1 = next_sep(s, 8, true);
    lemma_next_sep_is_sep(s, i1 + 1, true);
    let j1 = next_sep(s, 2, false);
    lemma_next_sep_is_sep(s, j1 + 1, false);
}

/// A path with parts lies under the text of its root, whenever that text lies
/// under a folder that the path lies under too.
pub proof fn lemma_root_text_contains(s: Seq<char>, scan: Seq<char>)
    requires
        parse(s).parts.len() >= 1,
        is_under_spec(s, scan),
        is_under_spec(s.take(parse(s).root_end), scan),
    ensures
        is_under_spec(s, s.take(parse(s).root_end)),
{
    lemma_prefix_bounds(s);
    let pl = prefix_len(s);
    if physical_root(s) {
        assert(s.take(pl + 1) =~= s.take(pl).push(s[pl]));
        lemma_normalized_trailing_sep(s.take(pl), s[pl]);
        lemma_under_prefix(s, pl);
    } else {
        if pl == s.len() {
            assert(s.skip(body_start(s)).len() == 0);
            assert(scan_parts(s.skip(body_start(s)), is_verbatim(s)).0.len() == 0);
        }
        assert(pl < s.len());
        lemma_prefix_followed_by_sep(s);
        assert(!is_sep(s[pl]));
        assert(pl == 0 || pl == 2);
        let t = s.take(pl);
        assert(forall|i: int| 0 <= i < pl ==> t[i] != '\\' && t[i] != '/');
        assert(backslashed(t) =~= t);
        lemma_trim_trailing_stable(t);
        let nt = normalized_spec(t);
        assert(nt =~= ascii_lower(t));
        assert(forall|i: int| 0 <= i < pl ==> nt[i] != '\\');
        let bs = backslashed(s);
        lemma_trim_shape(bs);
        let ts = trim_trailing_backslashes(bs);
        assert(bs[pl] != '\\');
        assert(ts.len() > pl);
        assert(ts.take(pl) =~= bs.take(pl));
        assert(bs.take(pl) =~= t);
        let ns = normalized_spec(s);
        assert(ns.take(pl) =~= nt);
        assert(ns[pl] == lower_char(bs[pl]));
        assert(ns[pl] != '\\');
        let nscan = normalized_spec(scan);
        assert(nscan == nt) by {
            if nscan != nt {
                assert(nt[nscan.len() as int] == '\\');
            }
        }
        assert(!same_or_below(ns, nt)) by {
            assert(ns.len() > nt.len());
        }
    }
}

/// Every path lies under itself.
pub proof fn law_is_under_reflexive(path: Seq<char>)
    ensures
        is_under_spec(path, path),
{
}

/// Lying under is transitive: below a path that lies below a root is below that root.
pub proof fn law_is_under_transitive(a: Seq<char>, b: Seq<char>, c: Seq<char>)
    requires
        is_under_spec(a, b),
        is_under_spec(b, c),
    ensures
        is_under_spec(a, c),
{
    let na = normalized_spec(a);
    let nb = normalized_spec(b);
    let nc = normalized_spec(c);
    if na == nb || nb == nc {
    } else {
        assert(na.take(nc.len() as int) =~= nb.take(nc.len() as int));
        assert(na[nc.len() as int] == nb[nc.len() as int]);
    }
}

} // verus!
