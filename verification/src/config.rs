//! Settings: compression algorithm and worker priority, thread limits, and the
//! exclusion patterns, which are compiled into a case-insensitive glob set.
use vstd::prelude::*;

use globset::{Glob, GlobBuilder, GlobSet, GlobSetBuilder};

use crate::text::{ascii_lower, chars_of, eq_ignore_case, equals_literal, is_white_space,
    to_ascii_lowercase, trim, trim_chars, trim_end, trim_start};

verus! {

broadcast use vstd::string::group_string_axioms;

/// The WOF compression algorithms.
#[derive(Debug, Clone, Copy, PartialEq, Eq, Structural)]
pub enum Compression {
    Xpress4k,
    Xpress8k,
    Xpress16k,
    Lzx,
}

/// Scheduling priority of the compression and decompression workers.
#[derive(Debug, Clone, Copy, PartialEq, Eq, Structural)]
pub enum CompressionPriority {
    Lowest,
    BelowNormal,
    Normal,
    AboveNormal,
    Highest,
}

impl CompressionPriority {
    /// The display name of a priority.
    pub open spec fn name_spec(self) -> Seq<char> {
        match self {
            CompressionPriority::Lowest => "Lowest"@,
            CompressionPriority::BelowNormal => "BelowNormal"@,
            CompressionPriority::Normal => "Normal"@,
            CompressionPriority::AboveNormal => "AboveNormal"@,
            CompressionPriority::Highest => "Highest"@,
        }
    }

    /// The display name of a priority (what `Display` writes).
    pub fn name(&self) -> (res: String)
        ensures
            res@ == self.name_spec(),
    {
        match self {
            CompressionPriority::Lowest => "Lowest".to_string(),
            CompressionPriority::BelowNormal => "BelowNormal".to_string(),
            CompressionPriority::Normal => "Normal".to_string(),
            CompressionPriority::AboveNormal => "AboveNormal".to_string(),
            CompressionPriority::Highest => "Highest".to_string(),
        }
    }

    /// The default priority: below normal.
    pub fn default_priority() -> (res: CompressionPriority)
        ensures
            res == CompressionPriority::BelowNormal,
    {
        CompressionPriority::BelowNormal
    }
}

impl Default for CompressionPriority {
    fn default() -> (res: Self)
        ensures
            res == CompressionPriority::BelowNormal,
    {
        CompressionPriority::BelowNormal
    }
}

/// How a priority given as text is read: whitespace trimmed, ASCII case
/// ignored, and the two-word names accepted with or without a space or hyphen.
pub open spec fn parse_priority_spec(value: Seq<char>) -> Option<CompressionPriority> {
    let v = ascii_lower(trim(value));
    if v == "lowest"@ {
        Some(CompressionPriority::Lowest)
    } else if v == "belownormal"@ || v == "below normal"@ || v == "below-normal"@ {
        Some(CompressionPriority::BelowNormal)
    } else if v == "normal"@ {
        Some(CompressionPriority::Normal)
    } else if v == "abovenormal"@ || v == "above normal"@ || v == "above-normal"@ {
        Some(CompressionPriority::AboveNormal)
    } else if v == "highest"@ {
        Some(CompressionPriority::Highest)
    } else {
        None
    }
}

/// Reads a priority from text (see [`parse_priority_spec`]); `Err(())` for any other text.
pub fn parse_compression_priority(value: &str) -> (res: Result<CompressionPriority, ()>)
    ensures
        match parse_priority_spec(value@) {
            Some(p) => res == Ok::<CompressionPriority, ()>(p),
            None => res is Err,
        },
{
    let chars = chars_of(value);
    let trimmed = trim_chars(&chars);
    let v = to_ascii_lowercase(&trimmed);
    if equals_literal(&v, "lowest") {
        Ok(CompressionPriority::Lowest)
    } else if equals_literal(&v, "belownormal") || equals_literal(&v, "below normal")
        || equals_literal(&v, "below-normal") {
        Ok(CompressionPriority::BelowNormal)
    } else if equals_literal(&v, "normal") {
        Ok(CompressionPriority::Normal)
    } else if equals_literal(&v, "abovenormal") || equals_literal(&v, "above normal")
        || equals_literal(&v, "above-normal") {
        Ok(CompressionPriority::AboveNormal)
    } else if equals_literal(&v, "highest") {
        Ok(CompressionPriority::Highest)
    } else {
        Err(())
    }
}

impl std::str::FromStr for CompressionPriority {
    type Err = ();

    fn from_str(value: &str) -> (res: Result<Self, ()>)
        ensures
            match parse_priority_spec(value@) {
                Some(p) => res == Ok::<CompressionPriority, ()>(p),
                None => res is Err,
            },
    {
        parse_compression_priority(value)
    }
}

/// Reading back the display name of a priority gives that priority.
pub proof fn law_priority_name_round_trip(p: CompressionPriority)
    ensures
        parse_priority_spec(p.name_spec()) == Some(p),
{
    reveal_strlit("Lowest");
    reveal_strlit("BelowNormal");
    reveal_strlit("Normal");
    reveal_strlit("AboveNormal");
    reveal_strlit("Highest");
    reveal_strlit("lowest");
    reveal_strlit("belownormal");
    reveal_strlit("below normal");
    reveal_strlit("below-normal");
    reveal_strlit("normal");
    reveal_strlit("abovenormal");
    reveal_strlit("above normal");
    reveal_strlit("above-normal");
    reveal_strlit("highest");
    let n = p.name_spec();
    assert(trim(n) == n);
    match p {
        CompressionPriority::Lowest => {
            assert(ascii_lower(n) =~= "lowest"@);
        },
        CompressionPriority::BelowNormal => {
            assert(ascii_lower(n) =~= "belownormal"@);
            assert(ascii_lower(n) != "lowest"@);
        },
        CompressionPriority::Normal => {
            assert(ascii_lower(n) =~= "normal"@);
            assert(ascii_lower(n)[0] != "lowest"@[0]);
            assert(ascii_lower(n) != "belownormal"@);
            assert(ascii_lower(n) != "below normal"@);
            assert(ascii_lower(n) != "below-normal"@);
        },
        CompressionPriority::AboveNormal => {
            assert(ascii_lower(n) =~= "abovenormal"@);
            assert(ascii_lower(n) != "lowest"@);
            assert(ascii_lower(n)[0] != "belownormal"@[0]);
            assert(ascii_lower(n) != "below normal"@);
            assert(ascii_lower(n) != "below-normal"@);
            assert(ascii_lower(n) != "normal"@);
        },
        CompressionPriority::Highest => {
            assert(ascii_lower(n) =~= "highest"@);
            assert(ascii_lower(n) != "lowest"@);
            assert(ascii_lower(n) != "belownormal"@);
            assert(ascii_lower(n) != "below normal"@);
            assert(ascii_lower(n) != "below-normal"@);
            assert(ascii_lower(n) != "normal"@);
            assert(ascii_lower(n) != "abovenormal"@);
            assert(ascii_lower(n) != "above normal"@);
            assert(ascii_lower(n) != "above-normal"@);
        },
    }
}

/// A compiled glob pattern of the `globset` crate.
#[verifier::external_type_specification]
#[verifier::external_body]
pub struct ExGlob(Glob);

/// A builder of glob sets of the `globset` crate.
#[verifier::external_type_specification]
#[verifier::external_body]
pub struct ExGlobSetBuilder(GlobSetBuilder);

/// A compiled set of glob patterns of the `globset` crate.
#[verifier::external_type_specification]
#[verifier::external_body]
pub struct ExGlobSet(GlobSet);

/// The error message `globset` gives when `pattern` does not compile as a
/// case-insensitive glob in which `\` is an ordinary character; `None` when it compiles.
pub uninterp spec fn glob_error(pattern: Seq<char>) -> Option<Seq<char>>;

/// The pattern a compiled glob was built from.
pub uninterp spec fn glob_source(g: Glob) -> Seq<char>;

/// The patterns added to a glob set builder, in order.
pub uninterp spec fn builder_patterns(b: GlobSetBuilder) -> Seq<Seq<char>>;

/// The patterns a glob set was built from, in order.
pub uninterp spec fn set_patterns(s: GlobSet) -> Seq<Seq<char>>;

/// The error message `globset` gives when it cannot build a set from these
/// patterns; `None` when it can.
pub uninterp spec fn set_build_error(patterns: Seq<Seq<char>>) -> Option<Seq<char>>;

/// Whether the case-insensitive glob built from `pattern` matches `path`.
pub uninterp spec fn glob_matches(pattern: Seq<char>, path: Seq<char>) -> bool;

/// A pattern whose glob matches a path exactly when it matches the path with
/// its ASCII letters lower-cased.
pub open spec fn ignores_ascii_case(pattern: Seq<char>) -> bool {
    forall|path: Seq<char>| #[trigger] glob_matches(pattern, path) == glob_matches(pattern, ascii_lower(path))
}

/// Calls `GlobBuilder::new(pattern).case_insensitive(true).backslash_escape(false).build()`
/// (a backslash is a literal path character, as on Windows) and turns the error into its
/// message.  Claims: the result depends on the pattern alone, a compiled glob remembers
/// its pattern, and its matching ignores ASCII case (globset compiles a case-insensitive
/// glob to a byte regex with `(?-u)(?i)`, which folds ASCII letters only).
#[verifier::external_body]
fn compile_glob(pattern: &str) -> (res: Result<Glob, String>)
    ensures
        match res {
            Ok(g) => glob_error(pattern@) is None && glob_source(g) == pattern@ && ignores_ascii_case(pattern@),
            Err(e) => glob_error(pattern@) == Some(e@),
        },
{
    GlobBuilder::new(pattern).case_insensitive(true).backslash_escape(false).build().map_err(
        |e| e.to_string(),
    )
}

/// Calls `GlobSetBuilder::new`.  Claims: the new builder holds no pattern.
#[verifier::external_body]
fn new_set_builder() -> (res: GlobSetBuilder)
    ensures
        builder_patterns(res) == Seq::<Seq<char>>::empty(),
{
    GlobSetBuilder::new()
}

/// Calls `GlobSetBuilder::add`.  Claims: the glob's pattern is appended to the builder's.
#[verifier::external_body]
fn add_glob(b: &mut GlobSetBuilder, g: Glob)
    ensures
        builder_patterns(*final(b)) == builder_patterns(*old(b)).push(glob_source(g)),
{
    b.add(g);
}

/// Calls `GlobSetBuilder::build` and turns the error into its message.  Claims: the result
/// depends on the added patterns alone, and the set holds exactly those patterns.
#[verifier::external_body]
fn build_set(b: &GlobSetBuilder) -> (res: Result<GlobSet, String>)
    ensures
        match res {
            Ok(s) => set_build_error(builder_patterns(*b)) is None && set_patterns(s)
                == builder_patterns(*b),
            Err(e) => set_build_error(builder_patterns(*b)) == Some(e@),
        },
{
    b.build().map_err(|e| e.to_string())
}

/// Some pattern of the list matches `path`.
pub open spec fn any_pattern_matches(patterns: Seq<Seq<char>>, path: Seq<char>) -> bool {
    exists|i: int| 0 <= i < patterns.len() && glob_matches(#[trigger] patterns[i], path)
}

/// Calls `GlobSet::is_match`.  Claims what its documentation states: the path matches
/// when any glob of the set matches it.
#[verifier::external_body]
fn set_is_match(s: &GlobSet, path: &str) -> (res: bool)
    ensures
        res == (exists|i: int| 0 <= i < set_patterns(*s).len() && glob_matches(#[trigger] set_patterns(*s)[i], path@)),
{
    s.is_match(path)
}

/// The exclusion patterns in effect: each pattern trimmed, blank ones left out.
pub open spec fn active_patterns(excludes: Seq<Seq<char>>) -> Seq<Seq<char>>
    decreases excludes.len(),
{
    if excludes.len() == 0 {
        seq![]
    } else {
        let rest = active_patterns(excludes.drop_last());
        let t = trim(excludes.last());
        if t.len() == 0 {
            rest
        } else {
            rest.push(t)
        }
    }
}

/// A blank or whitespace-only exclusion, wherever it stands, changes none of
/// the exclusion patterns in effect.
pub proof fn law_blank_exclusions_are_ignored(before: Seq<Seq<char>>, blank: Seq<char>, after: Seq<Seq<char>>)
    requires
        trim(blank).len() == 0,
    ensures
        active_patterns(before + seq![blank] + after) == active_patterns(before + after),
    decreases after.len(),
{
    if after.len() == 0 {
        assert(before + seq![blank] + after =~= before.push(blank));
        assert(before.push(blank).drop_last() =~= before);
        assert(before + after =~= before);
    } else {
        law_blank_exclusions_are_ignored(before, blank, after.drop_last());
        assert((before + seq![blank] + after).drop_last() =~= before + seq![blank] + after.drop_last());
        assert((before + after).drop_last() =~= before + after.drop_last());
    }
}

proof fn lemma_trim_start_shape(x: Seq<char>)
    ensures
        trim_start(x).len() == 0 || !is_white_space(trim_start(x)[0]),
    decreases x.len(),
{
    if x.len() > 0 && is_white_space(x[0]) {
        lemma_trim_start_shape(x.drop_first());
    }
}

proof fn lemma_trim_end_shape(x: Seq<char>)
    ensures
        trim_end(x).len() <= x.len(),
        trim_end(x) == x.take(trim_end(x).len() as int),
        trim_end(x).len() == 0 || !is_white_space(trim_end(x).last()),
    decreases x.len(),
{
    if x.len() > 0 && is_white_space(x.last()) {
        lemma_trim_end_shape(x.drop_last());
        assert(x.drop_last().take(trim_end(x).len() as int) =~= x.take(trim_end(x).len() as int));
    } else {
        assert(x.take(x.len() as int) =~= x);
    }
}

/// Trimming a trimmed text changes nothing.
proof fn lemma_trim_idempotent(x: Seq<char>)
    ensures
        trim(trim(x)) == trim(x),
{
    let z = trim_start(x);
    lemma_trim_start_shape(x);
    lemma_trim_end_shape(z);
    let y = trim_end(z);
    if y.len() > 0 {
        assert(y[0] == z[0]);
    }
    assert(trim_start(y) == y);
    assert(trim_end(y) == y);
}

/// Replacing each exclusion by its trimmed form and leaving out the blank ones
/// gives the same patterns, and so the same compiled set or the same error.
pub proof fn law_trimmed_exclusions_compile_alike(excludes: Seq<Seq<char>>)
    ensures
        active_patterns(active_patterns(excludes)) == active_patterns(excludes),
        exclusions_error(active_patterns(excludes)) == exclusions_error(excludes),
    decreases excludes.len(),
{
    if excludes.len() > 0 {
        law_trimmed_exclusions_compile_alike(excludes.drop_last());
        let rest = active_patterns(excludes.drop_last());
        let t = trim(excludes.last());
        if t.len() > 0 {
            lemma_trim_idempotent(excludes.last());
            assert(rest.push(t).drop_last() =~= rest);
            assert(rest.push(t).last() == t);
        }
    }
}

/// The first pattern (in order) that does not compile, with its message.
pub open spec fn first_glob_error(patterns: Seq<Seq<char>>) -> Option<Seq<char>>
    decreases patterns.len(),
{
    if patterns.len() == 0 {
        None
    } else {
        match first_glob_error(patterns.drop_last()) {
            Some(e) => Some(e),
            None => glob_error(patterns.last()),
        }
    }
}

/// The outcome of compiling exclusion patterns: the first pattern error, else the
/// set-building error, else a set of the active patterns.
pub open spec fn exclusions_error(excludes: Seq<Seq<char>>) -> Option<Seq<char>> {
    let pats = active_patterns(excludes);
    match first_glob_error(pats) {
        Some(e) => Some(e),
        None => set_build_error(pats),
    }
}

/// A compiled set of exclusion patterns.
pub struct ExcludeSet {
    set: GlobSet,
}

/// Every pattern of the list ignores ASCII case.
pub open spec fn all_ignore_ascii_case(patterns: Seq<Seq<char>>) -> bool {
    forall|i: int| 0 <= i < patterns.len() ==> ignores_ascii_case(#[trigger] patterns[i])
}

impl ExcludeSet {
    /// The patterns of the set.
    pub closed spec fn patterns(&self) -> Seq<Seq<char>> {
        set_patterns(self.set)
    }

    /// Every pattern of the set was compiled case-insensitively.
    #[verifier::type_invariant]
    spec fn case_blind(self) -> bool {
        all_ignore_ascii_case(set_patterns(self.set))
    }

    /// Whether `path` matches any pattern of the set; matching ignores ASCII case.
    pub fn is_match(&self, path: &str) -> (res: bool)
        ensures
            res == any_pattern_matches(self.patterns(), path@),
            res == any_pattern_matches(self.patterns(), ascii_lower(path@)),
    {
        proof {
            use_type_invariant(self);
            assert(ascii_lower(ascii_lower(path@)) =~= ascii_lower(path@));
            law_exclusions_ignore_ascii_case(self.patterns(), path@, ascii_lower(path@));
        }
        set_is_match(&self.set, path)
    }
}

/// Exclusions ignore ASCII case: two paths that differ only in the case of
/// ASCII letters are excluded alike by case-insensitive patterns.
pub proof fn law_exclusions_ignore_ascii_case(patterns: Seq<Seq<char>>, a: Seq<char>, b: Seq<char>)
    requires
        all_ignore_ascii_case(patterns),
        eq_ignore_case(a, b),
    ensures
        any_pattern_matches(patterns, a) == any_pattern_matches(patterns, b),
{
    assert forall|i: int| 0 <= i < patterns.len() implies glob_matches(#[trigger] patterns[i], a) == glob_matches(patterns[i], b) by {
        assert(ignores_ascii_case(patterns[i]));
        assert(glob_matches(patterns[i], a) == glob_matches(patterns[i], ascii_lower(a)));
        assert(glob_matches(patterns[i], b) == glob_matches(patterns[i], ascii_lower(b)));
    }
}

/// The views of a list of strings.
pub open spec fn views_of(v: Seq<String>) -> Seq<Seq<char>> {
    v.map_values(|x: String| x@)
}

/// Compiles exclusion patterns: each is trimmed, blank ones are ignored, and
/// every other one must compile as a case-insensitive glob.
pub fn compile_excludes(excludes: &Vec<String>) -> (res: Result<ExcludeSet, String>)
    ensures
        match res {
            Ok(s) => exclusions_error(views_of(excludes@)) is None && s.patterns() == active_patterns(views_of(excludes@))
                && all_ignore_ascii_case(s.patterns()),
            Err(e) => exclusions_error(views_of(excludes@)) == Some(e@),
        },
{
    let ghost ex = views_of(excludes@);
    let mut builder = new_set_builder();
    let mut i: usize = 0;
    while i < excludes.len()
        invariant
            ex == views_of(excludes@),
            i <= excludes.len(),
            builder_patterns(builder) == active_patterns(ex.take(i as int)),
            all_ignore_ascii_case(builder_patterns(builder)),
            first_glob_error(active_patterns(ex.take(i as int))) is None,
        decreases excludes.len() - i,
    {
        assert(ex.take(i + 1 as int).drop_last() =~= ex.take(i as int));
        assert(ex.take(i + 1 as int).last() == excludes@[i as int]@);
        let chars = chars_of(excludes[i].as_str());
        let t = trim_chars(&chars);
        let ghost prev = active_patterns(ex.take(i as int));
        if t.len() > 0 {
            let ts = crate::text::string_from(&t);
            assert(active_patterns(ex.take(i + 1 as int)) == prev.push(t@));
            assert(prev.push(t@).drop_last() =~= prev);
            assert(prev.push(t@).last() == t@);
            match compile_glob(ts.as_str()) {
                Ok(g) => {
                    add_glob(&mut builder, g);
                },
                Err(e) => {
                    assert(first_glob_error(active_patterns(ex.take(i + 1 as int))) == Some(e@));
                    proof {
                        lemma_first_error_extends(ex, i as int, excludes.len() as int);
                    }
                    return Err(e);
                },
            }
        } else {
            assert(active_patterns(ex.take(i + 1 as int)) == prev);
        }
        i = i + 1;
    }
    assert(ex.take(i as int) =~= ex);
    match build_set(&builder) {
        Ok(set) => Ok(ExcludeSet { set }),
        Err(e) => Err(e),
    }
}

proof fn lemma_first_error_extends(ex: Seq<Seq<char>>, i: int, n: int)
    requires
        0 <= i < n,
        n == ex.len(),
        first_glob_error(active_patterns(ex.take(i + 1))) is Some,
    ensures
        first_glob_error(active_patterns(ex)) == first_glob_error(active_patterns(ex.take(i + 1))),
    decreases n - i,
{
    if i + 1 < n {
        let a = active_patterns(ex.take(i + 2));
        assert(ex.take(i + 2).drop_last() =~= ex.take(i + 1));
        if a.len() > active_patterns(ex.take(i + 1)).len() {
            assert(a.drop_last() == active_patterns(ex.take(i + 1)));
        }
        lemma_first_error_extends(ex, i + 1, n);
    } else {
        assert(ex.take(i + 1) =~= ex);
    }
}

/// The default for the maximum number of worker threads: 0, meaning automatic.
pub fn default_max_threads() -> (res: usize)
    ensures
        res == 0,
{
    0
}

/// The default for running a single worker on drives with a seek penalty: on.
pub fn default_hdd_single_thread() -> (res: bool)
    ensures
        res,
{
    true
}

/// The default worker priority: below normal.
pub fn default_compression_priority() -> (res: CompressionPriority)
    ensures
        res == CompressionPriority::BelowNormal,
{
    CompressionPriority::BelowNormal
}

/// The default exclusions: the Windows directory, `System Volume Information`
/// and the `$`-prefixed directories at the root of any drive.
pub open spec fn default_excludes() -> Seq<Seq<char>> {
    seq!["*:\\Windows*"@, "*:\\System Volume Information*"@, "*:\\$*"@]
}

/// The most worker threads a user may configure.
pub const MAX_CONFIGURED_THREADS: usize = 16;

/// The settings of the program other than the minimum-savings threshold.
pub struct Settings {
    pub decimal: bool,
    pub compression: Compression,
    pub max_threads: usize,
    pub hdd_single_thread: bool,
    pub compression_priority: CompressionPriority,
    pub excludes: Vec<String>,
}

/// What validating settings with these values answers: the thread-limit message,
/// else the exclusion-pattern message, else success.
pub open spec fn settings_error(max_threads: usize, excludes: Seq<Seq<char>>) -> Option<Seq<char>> {
    if max_threads > MAX_CONFIGURED_THREADS {
        Some("Maximum threads must be between 0 (Auto) and 16."@)
    } else {
        exclusions_error(excludes)
    }
}

/// Some exclusion, trimmed, equals `path` when ASCII case is ignored.
pub open spec fn has_exclusion(excludes: Seq<Seq<char>>, path: Seq<char>) -> bool {
    exists|i: int| 0 <= i < excludes.len() && eq_ignore_case(trim(#[trigger] excludes[i]), path)
}

impl Settings {
    /// The default settings: binary units, LZX, automatic threads, single
    /// worker on drives with a seek penalty, below-normal priority, and the
    /// default exclusions.
    pub fn new_default() -> (res: Settings)
        ensures
            !res.decimal,
            res.compression == Compression::Lzx,
            res.max_threads == 0,
            res.hdd_single_thread,
            res.compression_priority == CompressionPriority::BelowNormal,
            views_of(res.excludes@) == default_excludes(),
    {
        let mut excludes: Vec<String> = Vec::new();
        excludes.push("*:\\Windows*".to_string());
        excludes.push("*:\\System Volume Information*".to_string());
        excludes.push("*:\\$*".to_string());
        assert(views_of(excludes@) =~= default_excludes());
        Settings {
            decimal: false,
            compression: Compression::Lzx,
            max_threads: default_max_threads(),
            hdd_single_thread: default_hdd_single_thread(),
            compression_priority: default_compression_priority(),
            excludes,
        }
    }

    /// Compiles the exclusion patterns (see [`compile_excludes`]).
    pub fn globset(&self) -> (res: Result<ExcludeSet, String>)
        ensures
            match res {
                Ok(s) => exclusions_error(views_of(self.excludes@)) is None && s.patterns()
                    == active_patterns(views_of(self.excludes@)),
                Err(e) => exclusions_error(views_of(self.excludes@)) == Some(e@),
            },
    {
        compile_excludes(&self.excludes)
    }

    /// Checks the thread limit (at most 16) and the exclusion patterns.
    pub fn validate(&self) -> (res: Result<(), String>)
        ensures
            match settings_error(self.max_threads, views_of(self.excludes@)) {
                Some(e) => res matches Err(m) && m@ == e,
                None => res is Ok,
            },
    {
        if self.max_threads > MAX_CONFIGURED_THREADS {
            return Err("Maximum threads must be between 0 (Auto) and 16.".to_string());
        }
        match self.globset() {
            Ok(_) => Ok(()),
            Err(e) => Err(e),
        }
    }
}

impl Default for Settings {
    fn default() -> (res: Self)
        ensures
            !res.decimal,
            res.compression == Compression::Lzx,
            res.max_threads == 0,
            res.hdd_single_thread,
            res.compression_priority == CompressionPriority::BelowNormal,
            views_of(res.excludes@) == default_excludes(),
    {
        Settings::new_default()
    }
}

/// Once a path without surrounding whitespace has been added to the
/// exclusions, it is recognised as present, so adding it again changes nothing.
pub proof fn law_added_exclusion_is_present(excludes: Seq<Seq<char>>, path: Seq<char>)
    requires
        trim(path) == path,
    ensures
        has_exclusion(excludes.push(path), path),
{
    let e = excludes.push(path);
    assert(e[excludes.len() as int] == path);
    assert(eq_ignore_case(trim(e[excludes.len() as int]), path));
}

} // verus!
