//! Which files are crawled and how they are divided.
//!
//! A path is crawled if its suffix has a strategy and it is not excluded; a pattern to
//! keep takes an exclusion back, but never makes an unsupported file type crawled.
use crate::text;
use vstd::prelude::*;

verus! {

/// What is wrong with a pattern, if something is.
pub uninterp spec fn glob_error(pattern: Seq<char>) -> Option<Seq<char>>;

/// What is wrong with a set of patterns that are all right one by one, if something is.
pub uninterp spec fn glob_set_error(patterns: Seq<Seq<char>>) -> Option<Seq<char>>;

/// The pattern matches the path.
pub uninterp spec fn glob_matches(pattern: Seq<char>, path: Seq<char>) -> bool;

/// A set of patterns that is being put together.
#[verifier::external_type_specification]
#[verifier::external_body]
pub struct ExGlobSetBuilder(globset::GlobSetBuilder);

/// A set of patterns that paths are matched against.
#[verifier::external_type_specification]
#[verifier::external_body]
pub struct ExGlobSet(globset::GlobSet);

/// The patterns that a builder holds, in the order in which they came.
pub uninterp spec fn builder_patterns(builder: globset::GlobSetBuilder) -> Seq<Seq<char>>;

/// The patterns of a set.
pub uninterp spec fn set_patterns(globs: globset::GlobSet) -> Seq<Seq<char>>;

/// A character that means itself, or any text, wherever it stands in a pattern.
pub open spec fn plain_glob_char(c: char) -> bool {
    c != '[' && c != '{' && c != '}' && c != '\\'
}

/// `globset::Glob::new` reads a pattern; its error is given as text. Only classes,
/// alternatives and escapes can be wrong.
#[verifier::external_body]
fn check_glob(pattern: &str) -> (r: Option<String>)
    ensures
        text::view_opt(r) == glob_error(pattern@),
        (forall|i: int| 0 <= i < pattern@.len() ==> plain_glob_char(#[trigger] pattern@[i])) ==> r
            is None,
{
    globset::Glob::new(pattern).err().map(|e| e.to_string())
}

/// `globset::GlobSetBuilder::new`: a builder without patterns.
#[verifier::external_body]
fn new_builder() -> (r: globset::GlobSetBuilder)
    ensures
        builder_patterns(r) == Seq::<Seq<char>>::empty(),
{
    globset::GlobSetBuilder::new()
}

/// `globset::GlobSetBuilder::add` appends a pattern that can be read.
#[verifier::external_body]
fn add_glob(builder: &mut globset::GlobSetBuilder, pattern: &str)
    requires
        glob_error(pattern@) is None,
    ensures
        builder_patterns(*final(builder)) == builder_patterns(*old(builder)).push(pattern@),
{
    builder.add(globset::Glob::new(pattern).expect("the pattern was checked"));
}

/// `globset::GlobSetBuilder::build` makes a set of the patterns so far; its error is
/// given as text.
#[verifier::external_body]
fn build_globs(builder: &globset::GlobSetBuilder) -> (r: Result<globset::GlobSet, String>)
    ensures
        match r {
            Ok(globs) => glob_set_error(builder_patterns(*builder)) is None && set_patterns(globs)
                == builder_patterns(*builder),
            Err(e) => glob_set_error(builder_patterns(*builder)) == Some(e@),
        },
{
    builder.build().map_err(|e| e.to_string())
}

/// `globset::GlobSet::is_match`: whether any pattern of the set matches the path, on the
/// platform that the library is built for.
#[verifier::external_body]
fn globs_match(globs: &globset::GlobSet, path: &str) -> (r: bool)
    ensures
        r == (exists|i: int|
            0 <= i < set_patterns(*globs).len() && glob_matches(
                #[trigger] set_patterns(*globs)[i],
                path@,
            )),
{
    globs.is_match(path)
}

/// Which files are crawled and how they are divided.
#[derive(Debug)]
pub struct CrawlConfig {
    /// Version of the format; there is one so far.
    pub version: u32,
    /// Suffixes of file names, each with the strategy for such files.
    pub file_types: Vec<(String, String)>,
    /// Patterns of paths that are not crawled. A pattern that ends in a slash stands for
    /// all paths below a directory of that name.
    pub patterns_to_exclude: Vec<String>,
    /// Patterns of paths that are crawled although a pattern excludes them.
    pub patterns_to_keep: Vec<String>,
}

/// The mathematical counterpart of [`CrawlConfig`].
pub struct CrawlConfigView {
    pub version: u32,
    pub file_types: Seq<(Seq<char>, Seq<char>)>,
    pub patterns_to_exclude: Seq<Seq<char>>,
    pub patterns_to_keep: Seq<Seq<char>>,
}

/// The characters of pairs of strings.
pub open spec fn pair_views(pairs: Seq<(String, String)>) -> Seq<(Seq<char>, Seq<char>)> {
    pairs.map_values(|p: (String, String)| (p.0@, p.1@))
}

impl View for CrawlConfig {
    type V = CrawlConfigView;

    open spec fn view(&self) -> CrawlConfigView {
        CrawlConfigView {
            version: self.version,
            file_types: pair_views(self.file_types@),
            patterns_to_exclude: text::views(self.patterns_to_exclude@),
            patterns_to_keep: text::views(self.patterns_to_keep@),
        }
    }
}

fn copy_pairs(v: &Vec<(String, String)>) -> (r: Vec<(String, String)>)
    ensures
        pair_views(r@) == pair_views(v@),
{
    let mut out: Vec<(String, String)> = Vec::new();
    assert(pair_views(out@) =~= pair_views(v@).take(0));
    for i in 0..v.len()
        invariant
            pair_views(out@) == pair_views(v@).take(i as int),
    {
        let p = (v[i].0.clone(), v[i].1.clone());
        assert(pair_views(out@.push(p)) =~= pair_views(out@).push(pair_views(v@)[i as int]));
        assert(pair_views(v@).take(i + 1) =~= pair_views(v@).take(i as int).push(
            pair_views(v@)[i as int],
        ));
        out.push(p);
    }
    assert(pair_views(v@).take(v@.len() as int) =~= pair_views(v@));
    out
}

impl Clone for CrawlConfig {
    fn clone(&self) -> (r: Self)
        ensures
            r@ == self@,
    {
        let r = CrawlConfig {
            version: self.version,
            file_types: copy_pairs(&self.file_types),
            patterns_to_exclude: text::copy_strings(
                &self.patterns_to_exclude,
                0,
                self.patterns_to_exclude.len(),
            ),
            patterns_to_keep: text::copy_strings(
                &self.patterns_to_keep,
                0,
                self.patterns_to_keep.len(),
            ),
        };
        assert(r@.patterns_to_exclude =~= self@.patterns_to_exclude);
        assert(r@.patterns_to_keep =~= self@.patterns_to_keep);
        r
    }
}

/// What is wrong with a configuration.
#[derive(Debug)]
pub enum CrawlConfigError {
    UnsupportedVersion(u32),
    UnknownStrategy { strategy: String, suffix: String },
    InvalidSuffix(String),
    InvalidExcludePattern { pattern: String, reason: String },
    InvalidKeepPattern { pattern: String, reason: String },
    /// The patterns cannot be compiled; the reason as the pattern library gives it.
    Uncompilable(String),
}

/// The mathematical counterpart of [`CrawlConfigError`].
pub enum CrawlConfigErrorView {
    UnsupportedVersion(u32),
    UnknownStrategy { strategy: Seq<char>, suffix: Seq<char> },
    InvalidSuffix(Seq<char>),
    InvalidExcludePattern { pattern: Seq<char>, reason: Seq<char> },
    InvalidKeepPattern { pattern: Seq<char>, reason: Seq<char> },
    Uncompilable(Seq<char>),
}

impl View for CrawlConfigError {
    type V = CrawlConfigErrorView;

    open spec fn view(&self) -> CrawlConfigErrorView {
        match *self {
            CrawlConfigError::UnsupportedVersion(v) => CrawlConfigErrorView::UnsupportedVersion(v),
            CrawlConfigError::UnknownStrategy { strategy, suffix } =>
                CrawlConfigErrorView::UnknownStrategy { strategy: strategy@, suffix: suffix@ },
            CrawlConfigError::InvalidSuffix(suffix) => CrawlConfigErrorView::InvalidSuffix(suffix@),
            CrawlConfigError::InvalidExcludePattern { pattern, reason } =>
                CrawlConfigErrorView::InvalidExcludePattern {
                pattern: pattern@,
                reason: reason@,
            },
            CrawlConfigError::InvalidKeepPattern { pattern, reason } =>
                CrawlConfigErrorView::InvalidKeepPattern { pattern: pattern@, reason: reason@ },
            CrawlConfigError::Uncompilable(reason) => CrawlConfigErrorView::Uncompilable(reason@),
        }
    }
}

/// The message for an error.
pub open spec fn error_message(e: CrawlConfigErrorView) -> Seq<char> {
    match e {
        CrawlConfigErrorView::UnsupportedVersion(v) => "Unsupported config version: "@
            + text::decimal(v as nat) + " (expected 1)"@,
        CrawlConfigErrorView::UnknownStrategy { strategy, suffix } =>
            "Unknown chunking strategy '"@ + strategy + "' for suffix '"@ + suffix
            + "'. Valid strategies: typescript, javascript, markdown, json, yamlSimple, simpleLine, lineBased"@,
        CrawlConfigErrorView::InvalidSuffix(suffix) => "Invalid file suffix '"@ + suffix
            + "': must start with '.' (e.g., '.ts')"@,
        CrawlConfigErrorView::InvalidExcludePattern { pattern, reason } =>
            "Invalid exclude pattern '"@ + pattern + "': "@ + reason,
        CrawlConfigErrorView::InvalidKeepPattern { pattern, reason } => "Invalid keep pattern '"@
            + pattern + "': "@ + reason,
        CrawlConfigErrorView::Uncompilable(reason) => reason,
    }
}

impl CrawlConfigError {
    /// The message for the error.
    pub fn message(&self) -> (r: String)
        ensures
            r@ == error_message(self@),
    {
        match self {
            CrawlConfigError::UnsupportedVersion(v) => {
                let mut m = "Unsupported config version: ".to_owned();
                text::push_decimal(&mut m, *v as u64);
                m.append(" (expected 1)");
                m
            },
            CrawlConfigError::UnknownStrategy { strategy, suffix } => {
                let mut m = "Unknown chunking strategy '".to_owned();
                m.append(strategy.as_str());
                m.append("' for suffix '");
                m.append(suffix.as_str());
                m.append(
                    "'. Valid strategies: typescript, javascript, markdown, json, yamlSimple, simpleLine, lineBased",
                );
                m
            },
            CrawlConfigError::InvalidSuffix(suffix) => {
                let mut m = "Invalid file suffix '".to_owned();
                m.append(suffix.as_str());
                m.append("': must start with '.' (e.g., '.ts')");
                m
            },
            CrawlConfigError::InvalidExcludePattern { pattern, reason } => {
                let mut m = "Invalid exclude pattern '".to_owned();
                m.append(pattern.as_str());
                m.append("': ");
                m.append(reason.as_str());
                m
            },
            CrawlConfigError::InvalidKeepPattern { pattern, reason } => {
                let mut m = "Invalid keep pattern '".to_owned();
                m.append(pattern.as_str());
                m.append("': ");
                m.append(reason.as_str());
                m
            },
            CrawlConfigError::Uncompilable(reason) => reason.clone(),
        }
    }
}

/// The names of strategies that a configuration may use.
pub open spec fn known_strategy(strategy: Seq<char>) -> bool {
    ||| strategy == "typescript"@
    ||| strategy == "javascript"@
    ||| strategy == "markdown"@
    ||| strategy == "json"@
    ||| strategy == "yamlSimple"@
    ||| strategy == "simpleLine"@
    ||| strategy == "lineBased"@
}

/// Whether a configuration may use a strategy of this name.
pub fn is_valid_strategy(strategy: &str) -> (r: bool)
    ensures
        r == known_strategy(strategy@),
{
    text::same(strategy, "typescript") || text::same(strategy, "javascript") || text::same(
        strategy,
        "markdown",
    ) || text::same(strategy, "json") || text::same(strategy, "yamlSimple") || text::same(
        strategy,
        "simpleLine",
    ) || text::same(strategy, "lineBased")
}

/// The first thing that is wrong with the file types from position `i` on.
pub open spec fn file_type_error(
    file_types: Seq<(Seq<char>, Seq<char>)>,
    i: int,
) -> Option<CrawlConfigErrorView>
    decreases file_types.len() - i,
{
    if i >= file_types.len() {
        None
    } else {
        let (suffix, strategy) = file_types[i];
        if !known_strategy(strategy) {
            Some(CrawlConfigErrorView::UnknownStrategy { strategy, suffix })
        } else if !(suffix.len() > 0 && suffix[0] == '.') {
            Some(CrawlConfigErrorView::InvalidSuffix(suffix))
        } else {
            file_type_error(file_types, i + 1)
        }
    }
}

/// The first pattern from position `i` on that cannot be read, and why.
pub open spec fn pattern_error(patterns: Seq<Seq<char>>, i: int) -> Option<(Seq<char>, Seq<char>)>
    decreases patterns.len() - i,
{
    if i >= patterns.len() {
        None
    } else {
        match glob_error(patterns[i]) {
            Some(reason) => Some((patterns[i], reason)),
            None => pattern_error(patterns, i + 1),
        }
    }
}

/// The first thing that is wrong with a configuration.
pub open spec fn config_error(config: CrawlConfigView) -> Option<CrawlConfigErrorView> {
    if config.version != 1 {
        Some(CrawlConfigErrorView::UnsupportedVersion(config.version))
    } else if let Some(e) = file_type_error(config.file_types, 0) {
        Some(e)
    } else if let Some((pattern, reason)) = pattern_error(config.patterns_to_exclude, 0) {
        Some(CrawlConfigErrorView::InvalidExcludePattern { pattern, reason })
    } else if let Some((pattern, reason)) = pattern_error(config.patterns_to_keep, 0) {
        Some(CrawlConfigErrorView::InvalidKeepPattern { pattern, reason })
    } else {
        None
    }
}

/// No pattern has a class, an alternative or an escape.
pub open spec fn all_plain(patterns: Seq<Seq<char>>) -> bool {
    forall|i: int, j: int|
        0 <= i < patterns.len() && 0 <= j < patterns[i].len() ==> plain_glob_char(
            #[trigger] patterns[i][j],
        )
}

/// The first pattern that cannot be read, and why.
fn find_pattern_error(patterns: &Vec<String>) -> (r: Option<(String, String)>)
    ensures
        match r {
            Some((pattern, reason)) => pattern_error(text::views(patterns@), 0) == Some(
                (pattern@, reason@),
            ),
            None => pattern_error(text::views(patterns@), 0) is None,
        },
        all_plain(text::views(patterns@)) ==> r is None,
{
    let ghost all = text::views(patterns@);
    let n: usize = patterns.len();
    for i in 0..n
        invariant
            n == patterns@.len(),
            all == text::views(patterns@),
            pattern_error(all, i as int) == pattern_error(all, 0),
    {
        assert(all[i as int] == patterns@[i as int]@);
        assert(all_plain(all) ==> forall|j: int|
            0 <= j < all[i as int].len() ==> plain_glob_char(#[trigger] all[i as int][j]));
        if let Some(reason) = check_glob(patterns[i].as_str()) {
            return Some((patterns[i].clone(), reason));
        }
    }
    None
}

impl CrawlConfig {
    /// Checks the version, then the file types, then the patterns; gives the first error.
    pub fn validate(&self) -> (r: Result<(), CrawlConfigError>)
        ensures
            match r {
                Ok(_) => config_error(self@) is None,
                Err(e) => config_error(self@) == Some(e@),
            },
            self.version == 1 && file_type_error(self@.file_types, 0) is None && all_plain(
                self@.patterns_to_exclude,
            ) && all_plain(self@.patterns_to_keep) ==> r is Ok,
    {
        if self.version != 1 {
            return Err(CrawlConfigError::UnsupportedVersion(self.version));
        }
        let ghost types = self@.file_types;
        let n: usize = self.file_types.len();
        for i in 0..n
            invariant
                n == self.file_types@.len(),
                types == self@.file_types,
                self.version == 1,
                file_type_error(types, i as int) == file_type_error(types, 0),
        {
            let (suffix, strategy) = &self.file_types[i];
            assert(types[i as int] == (suffix@, strategy@));
            if !is_valid_strategy(strategy.as_str()) {
                return Err(
                    CrawlConfigError::UnknownStrategy {
                        strategy: strategy.clone(),
                        suffix: suffix.clone(),
                    },
                );
            }
            if !text::starts_with_char(suffix.as_str(), '.') {
                return Err(CrawlConfigError::InvalidSuffix(suffix.clone()));
            }
        }
        if let Some((pattern, reason)) = find_pattern_error(&self.patterns_to_exclude) {
            return Err(CrawlConfigError::InvalidExcludePattern { pattern, reason });
        }
        if let Some((pattern, reason)) = find_pattern_error(&self.patterns_to_keep) {
            return Err(CrawlConfigError::InvalidKeepPattern { pattern, reason });
        }
        Ok(())
    }
}

/// The pattern stands for the paths below a directory.
pub open spec fn directory_pattern(pattern: Seq<char>) -> bool {
    pattern.len() > 0 && pattern.last() == '/'
}

/// The patterns that stand for directories, in order.
pub open spec fn directories(patterns: Seq<Seq<char>>) -> Seq<Seq<char>> {
    patterns.filter(|p: Seq<char>| directory_pattern(p))
}

/// The other patterns, in order.
pub open spec fn globs(patterns: Seq<Seq<char>>) -> Seq<Seq<char>> {
    patterns.filter(|p: Seq<char>| !directory_pattern(p))
}

/// A directory of this name is in the path: at its beginning or after a slash.
pub open spec fn in_directory(path: Seq<char>, dir: Seq<char>) -> bool {
    dir.is_prefix_of(path) || text::has_part(path, seq!['/'] + dir)
}

/// The pattern speaks of the path.
pub open spec fn pattern_matches(pattern: Seq<char>, path: Seq<char>) -> bool {
    if directory_pattern(pattern) {
        in_directory(path, pattern)
    } else {
        glob_matches(pattern, path)
    }
}

/// One of the patterns speaks of the path.
pub open spec fn any_matches(patterns: Seq<Seq<char>>, path: Seq<char>) -> bool {
    exists|i: int| 0 <= i < patterns.len() && pattern_matches(#[trigger] patterns[i], path)
}

/// Position of the first suffix, from `i` on, that the path ends in.
pub open spec fn matching_type(
    file_types: Seq<(Seq<char>, Seq<char>)>,
    path: Seq<char>,
    i: int,
) -> Option<int>
    decreases file_types.len() - i,
{
    if i >= file_types.len() {
        None
    } else if file_types[i].0.is_suffix_of(path) {
        Some(i)
    } else {
        matching_type(file_types, path, i + 1)
    }
}

/// The strategy for a path: that of the first suffix which the path ends in.
pub open spec fn strategy_for(config: CrawlConfigView, path: Seq<char>) -> Option<Seq<char>> {
    match matching_type(config.file_types, path, 0) {
        Some(i) => Some(config.file_types[i].1),
        None => None,
    }
}

/// The rule by which a path is crawled.
pub open spec fn crawled(config: CrawlConfigView, path: Seq<char>) -> bool {
    &&& strategy_for(config, path) is Some
    &&& any_matches(config.patterns_to_keep, path) || !any_matches(
        config.patterns_to_exclude,
        path,
    )
}

/// Why the patterns of a configuration cannot be compiled, if they cannot.
pub open spec fn compilation_error(config: CrawlConfigView) -> Option<CrawlConfigErrorView> {
    let exclude = globs(config.patterns_to_exclude);
    let keep = globs(config.patterns_to_keep);
    if let Some((_, reason)) = pattern_error(exclude, 0) {
        Some(CrawlConfigErrorView::Uncompilable(reason))
    } else if let Some((_, reason)) = pattern_error(keep, 0) {
        Some(CrawlConfigErrorView::Uncompilable(reason))
    } else if let Some(reason) = glob_set_error(exclude) {
        Some(CrawlConfigErrorView::Uncompilable(reason))
    } else if let Some(reason) = glob_set_error(keep) {
        Some(CrawlConfigErrorView::Uncompilable(reason))
    } else {
        None
    }
}

/// A configuration whose patterns are ready for matching.
#[derive(Debug)]
pub struct CompiledCrawlConfig {
    config: CrawlConfig,
    exclude_set: globset::GlobSet,
    keep_set: globset::GlobSet,
    exclude_dirs: Vec<String>,
    keep_dirs: Vec<String>,
}

impl CompiledCrawlConfig {
    /// The compiled patterns are those of the configuration.
    #[verifier::type_invariant]
    spec fn wf(self) -> bool {
        &&& set_patterns(self.exclude_set) == globs(self.config@.patterns_to_exclude)
        &&& set_patterns(self.keep_set) == globs(self.config@.patterns_to_keep)
        &&& text::views(self.exclude_dirs@) == directories(self.config@.patterns_to_exclude)
        &&& text::views(self.keep_dirs@) == directories(self.config@.patterns_to_keep)
    }
}

impl View for CompiledCrawlConfig {
    type V = CrawlConfigView;

    closed spec fn view(&self) -> CrawlConfigView {
        self.config@
    }
}

/// Tells patterns apart: those for directories, and a builder with the others.
fn sort_patterns(patterns: &Vec<String>) -> (r: Result<
    (globset::GlobSetBuilder, Vec<String>),
    CrawlConfigError,
>)
    ensures
        match r {
            Ok((builder, dirs)) => {
                &&& pattern_error(globs(text::views(patterns@)), 0) is None
                &&& builder_patterns(builder) == globs(text::views(patterns@))
                &&& text::views(dirs@) == directories(text::views(patterns@))
            },
            Err(e) => {
                let first = pattern_error(globs(text::views(patterns@)), 0);
                first is Some && e@ == CrawlConfigErrorView::Uncompilable((first->0).1)
            },
        },
{
    let ghost all = text::views(patterns@);
    let ghost is_dir = |p: Seq<char>| directory_pattern(p);
    let ghost is_glob = |p: Seq<char>| !directory_pattern(p);
    let mut builder = new_builder();
    let mut dirs: Vec<String> = Vec::new();
    let n: usize = patterns.len();
    reveal(Seq::filter);
    assert(text::views(dirs@) =~= all.take(0).filter(is_dir));
    assert(builder_patterns(builder) =~= all.take(0).filter(is_glob));
    for i in 0..n
        invariant
            n == patterns@.len(),
            all == text::views(patterns@),
            is_dir == (|p: Seq<char>| directory_pattern(p)),
            is_glob == (|p: Seq<char>| !directory_pattern(p)),
            text::views(dirs@) == all.take(i as int).filter(is_dir),
            builder_patterns(builder) == all.take(i as int).filter(is_glob),
            forall|j: int|
                0 <= j < builder_patterns(builder).len() ==> glob_error(
                    #[trigger] builder_patterns(builder)[j],
                ) is None,
    {
        reveal(Seq::filter);
        let pattern = &patterns[i];
        proof {
            assert(all.take(i + 1).drop_last() =~= all.take(i as int));
            assert(all.take(i + 1).last() == pattern@);
        }
        if text::ends_with_char(pattern.as_str(), '/') {
            let dir = pattern.clone();
            assert(text::views(dirs@.push(dir)) =~= text::views(dirs@).push(dir@));
            dirs.push(dir);
        } else {
            if let Some(reason) = check_glob(pattern.as_str()) {
                proof {
                    let so_far = builder_patterns(builder);
                    let rest = all.subrange(i + 1, n as int);
                    assert(all =~= all.take(i + 1) + rest);
                    Seq::filter_distributes_over_add(all.take(i + 1), rest, is_glob);
                    assert(globs(all) =~= so_far.push(pattern@) + rest.filter(is_glob));
                    lemma_first_pattern_error(globs(all), so_far.len() as int);
                }
                return Err(CrawlConfigError::Uncompilable(reason));
            }
            add_glob(&mut builder, pattern.as_str());
        }
    }
    proof {
        assert(all.take(n as int) =~= all);
        lemma_no_pattern_error(builder_patterns(builder), 0);
    }
    Ok((builder, dirs))
}

proof fn lemma_first_pattern_error(patterns: Seq<Seq<char>>, k: int)
    requires
        0 <= k < patterns.len(),
        glob_error(patterns[k]) is Some,
        forall|j: int| 0 <= j < k ==> glob_error(#[trigger] patterns[j]) is None,
    ensures
        pattern_error(patterns, 0) == Some((patterns[k], glob_error(patterns[k])->0)),
{
    lemma_pattern_error_from(patterns, 0, k);
}

proof fn lemma_pattern_error_from(patterns: Seq<Seq<char>>, i: int, k: int)
    requires
        0 <= i <= k < patterns.len(),
        glob_error(patterns[k]) is Some,
        forall|j: int| 0 <= j < k ==> glob_error(#[trigger] patterns[j]) is None,
    ensures
        pattern_error(patterns, i) == Some((patterns[k], glob_error(patterns[k])->0)),
    decreases k - i,
{
    if i < k {
        lemma_pattern_error_from(patterns, i + 1, k);
    }
}

proof fn lemma_no_pattern_error(patterns: Seq<Seq<char>>, i: int)
    requires
        0 <= i,
        forall|j: int| 0 <= j < patterns.len() ==> glob_error(#[trigger] patterns[j]) is None,
    ensures
        pattern_error(patterns, i) is None,
    decreases patterns.len() - i,
{
    if i < patterns.len() {
        lemma_no_pattern_error(patterns, i + 1);
    }
}

impl CrawlConfig {
    /// Makes the patterns ready for matching.
    pub fn compile(&self) -> (r: Result<CompiledCrawlConfig, CrawlConfigError>)
        ensures
            match r {
                Ok(compiled) => compilation_error(self@) is None && compiled@ == self@,
                Err(e) => compilation_error(self@) == Some(e@),
            },
    {
        let (exclude_builder, exclude_dirs) = match sort_patterns(&self.patterns_to_exclude) {
            Ok(sorted) => sorted,
            Err(e) => {
                return Err(e);
            },
        };
        let (keep_builder, keep_dirs) = match sort_patterns(&self.patterns_to_keep) {
            Ok(sorted) => sorted,
            Err(e) => {
                return Err(e);
            },
        };
        let exclude_set = match build_globs(&exclude_builder) {
            Ok(globs) => globs,
            Err(e) => {
                return Err(CrawlConfigError::Uncompilable(e));
            },
        };
        let keep_set = match build_globs(&keep_builder) {
            Ok(globs) => globs,
            Err(e) => {
                return Err(CrawlConfigError::Uncompilable(e));
            },
        };
        Ok(
            CompiledCrawlConfig {
                config: self.clone(),
                exclude_set,
                keep_set,
                exclude_dirs,
                keep_dirs,
            },
        )
    }
}

/// Whether the path lies in one of the directories.
fn in_any_directory(dirs: &Vec<String>, path: &str) -> (r: bool)
    ensures
        r == (exists|i: int|
            0 <= i < dirs@.len() && in_directory(path@, (#[trigger] dirs@[i])@)),
{
    let n: usize = dirs.len();
    for i in 0..n
        invariant
            n == dirs@.len(),
            forall|j: int| 0 <= j < i ==> !in_directory(path@, (#[trigger] dirs@[j])@),
    {
        let dir = dirs[i].as_str();
        let mut inner = String::new();
        inner.push('/');
        inner.append(dir);
        assert(inner@ =~= seq!['/'] + dir@);
        if text::starts_with(path, dir) || text::contains(path, inner.as_str()) {
            assert(in_directory(path@, dirs@[i as int]@));
            return true;
        }
    }
    false
}

/// A path is spoken of by one of the patterns exactly if it lies in one of the directories
/// or one of the other patterns matches it.
proof fn lemma_any_matches(patterns: Seq<Seq<char>>, path: Seq<char>)
    ensures
        any_matches(patterns, path) <==> {
            ||| exists|i: int|
                0 <= i < globs(patterns).len() && glob_matches(#[trigger] globs(patterns)[i], path)
            ||| exists|i: int|
                0 <= i < directories(patterns).len() && in_directory(
                    path,
                    #[trigger] directories(patterns)[i],
                )
        },
{
    broadcast use vstd::seq_lib::group_filter_ensures;

    let is_dir = |p: Seq<char>| directory_pattern(p);
    let is_glob = |p: Seq<char>| !directory_pattern(p);
    if any_matches(patterns, path) {
        let i = choose|i: int|
            0 <= i < patterns.len() && pattern_matches(#[trigger] patterns[i], path);
        let p = patterns[i];
        assert(patterns.contains(p));
        if is_dir(p) {
            assert(patterns.filter(is_dir).contains(p));
            let k = choose|k: int|
                0 <= k < directories(patterns).len() && directories(patterns)[k] == p;
            assert(in_directory(path, directories(patterns)[k]));
        } else {
            assert(is_glob(p));
            assert(patterns.filter(is_glob).contains(p));
            let k = choose|k: int| 0 <= k < globs(patterns).len() && globs(patterns)[k] == p;
            assert(glob_matches(globs(patterns)[k], path));
        }
    }
    if exists|i: int|
        0 <= i < globs(patterns).len() && glob_matches(#[trigger] globs(patterns)[i], path) {
        let i = choose|i: int|
            0 <= i < globs(patterns).len() && glob_matches(#[trigger] globs(patterns)[i], path);
        let p = globs(patterns)[i];
        patterns.lemma_filter_pred(is_glob, i);
        patterns.lemma_filter_contains_rev(is_glob, p);
        let k = choose|k: int| 0 <= k < patterns.len() && patterns[k] == p;
        assert(pattern_matches(patterns[k], path));
    }
    if exists|i: int|
        0 <= i < directories(patterns).len() && in_directory(
            path,
            #[trigger] directories(patterns)[i],
        ) {
        let i = choose|i: int|
            0 <= i < directories(patterns).len() && in_directory(
                path,
                #[trigger] directories(patterns)[i],
            );
        let p = directories(patterns)[i];
        patterns.lemma_filter_pred(is_dir, i);
        patterns.lemma_filter_contains_rev(is_dir, p);
        let k = choose|k: int| 0 <= k < patterns.len() && patterns[k] == p;
        assert(pattern_matches(patterns[k], path));
    }
}

/// Position of the first suffix that the path ends in.
fn find_file_type(file_types: &Vec<(String, String)>, path: &str) -> (r: Option<usize>)
    ensures
        r is Some <==> matching_type(pair_views(file_types@), path@, 0) is Some,
        r matches Some(i) ==> i < file_types@.len() && matching_type(
            pair_views(file_types@),
            path@,
            0,
        ) == Some(i as int),
{
    let ghost types = pair_views(file_types@);
    let n: usize = file_types.len();
    for i in 0..n
        invariant
            n == file_types@.len(),
            types == pair_views(file_types@),
            matching_type(types, path@, i as int) == matching_type(types, path@, 0),
    {
        assert(types[i as int] == (file_types@[i as int].0@, file_types@[i as int].1@));
        if text::ends_with(path, file_types[i].0.as_str()) {
            return Some(i);
        }
    }
    None
}

impl CrawlConfig {
    /// The strategy for a path, if its suffix has one.
    pub fn get_strategy(&self, repo_relative_path: &str) -> (r: Option<&str>)
        ensures
            r is Some <==> strategy_for(self@, repo_relative_path@) is Some,
            r matches Some(name) ==> strategy_for(self@, repo_relative_path@) == Some(name@),
    {
        match find_file_type(&self.file_types, repo_relative_path) {
            Some(i) => {
                assert(self@.file_types[i as int].1 == self.file_types@[i as int].1@);
                Some(self.file_types[i].1.as_str())
            },
            None => None,
        }
    }
}

impl CompiledCrawlConfig {
    /// Whether a path is crawled: its suffix has a strategy, and it is kept or not excluded.
    pub fn should_crawl(&self, repo_relative_path: &str) -> (r: bool)
        ensures
            r == crawled(self@, repo_relative_path@),
    {
        if !self.matches_file_type(repo_relative_path) {
            return false;
        }
        self.matches_keep(repo_relative_path) || !self.matches_exclude(repo_relative_path)
    }

    /// Whether the suffix of a path has a strategy.
    pub fn matches_file_type(&self, path: &str) -> (r: bool)
        ensures
            r == (strategy_for(self@, path@) is Some),
    {
        self.config.get_strategy(path).is_some()
    }

    /// Whether a pattern excludes the path.
    pub fn matches_exclude(&self, path: &str) -> (r: bool)
        ensures
            r == any_matches(self@.patterns_to_exclude, path@),
    {
        proof {
            use_type_invariant(self);
            lemma_any_matches(self@.patterns_to_exclude, path@);
            assert forall|i: int| 0 <= i < self.exclude_dirs@.len() implies (
            #[trigger] self.exclude_dirs@[i])@ == directories(
                self@.patterns_to_exclude,
            )[i] by {
                assert(text::views(self.exclude_dirs@)[i] == self.exclude_dirs@[i]@);
            }
            assert(text::views(self.exclude_dirs@).len() == self.exclude_dirs@.len());
        }
        let by_glob = globs_match(&self.exclude_set, path);
        let by_dir = in_any_directory(&self.exclude_dirs, path);
        proof {
            let dirs = directories(self@.patterns_to_exclude);
            if exists|i: int| 0 <= i < dirs.len() && in_directory(path@, #[trigger] dirs[i]) {
                let i = choose|i: int| 0 <= i < dirs.len() && in_directory(path@, #[trigger] dirs[i]);
                assert(in_directory(path@, self.exclude_dirs@[i]@));
            }
            if by_dir {
                let i = choose|i: int|
                    0 <= i < self.exclude_dirs@.len() && in_directory(
                        path@,
                        (#[trigger] self.exclude_dirs@[i])@,
                    );
                assert(in_directory(path@, dirs[i]));
            }
        }
        by_glob || by_dir
    }

    /// Whether a pattern keeps the path.
    pub fn matches_keep(&self, path: &str) -> (r: bool)
        ensures
            r == any_matches(self@.patterns_to_keep, path@),
    {
        proof {
            use_type_invariant(self);
            lemma_any_matches(self@.patterns_to_keep, path@);
            assert forall|i: int| 0 <= i < self.keep_dirs@.len() implies (
            #[trigger] self.keep_dirs@[i])@ == directories(self@.patterns_to_keep)[i] by {
                assert(text::views(self.keep_dirs@)[i] == self.keep_dirs@[i]@);
            }
            assert(text::views(self.keep_dirs@).len() == self.keep_dirs@.len());
        }
        let by_glob = globs_match(&self.keep_set, path);
        let by_dir = in_any_directory(&self.keep_dirs, path);
        proof {
            let dirs = directories(self@.patterns_to_keep);
            if exists|i: int| 0 <= i < dirs.len() && in_directory(path@, #[trigger] dirs[i]) {
                let i = choose|i: int| 0 <= i < dirs.len() && in_directory(path@, #[trigger] dirs[i]);
                assert(in_directory(path@, self.keep_dirs@[i]@));
            }
            if by_dir {
                let i = choose|i: int|
                    0 <= i < self.keep_dirs@.len() && in_directory(
                        path@,
                        (#[trigger] self.keep_dirs@[i])@,
                    );
                assert(in_directory(path@, dirs[i]));
            }
        }
        by_glob || by_dir
    }

    /// The strategy for a path, if its suffix has one.
    pub fn get_strategy(&self, repo_relative_path: &str) -> (r: Option<&str>)
        ensures
            r is Some <==> strategy_for(self@, repo_relative_path@) is Some,
            r matches Some(name) ==> strategy_for(self@, repo_relative_path@) == Some(name@),
    {
        self.config.get_strategy(repo_relative_path)
    }
}

/// Patterns to keep never make a file crawled whose type has no strategy.
pub proof fn keeping_does_not_add_file_types(config: CrawlConfigView, path: Seq<char>)
    requires
        crawled(config, path),
    ensures
        exists|i: int|
            0 <= i < config.file_types.len() && (#[trigger] config.file_types[i]).0.is_suffix_of(
                path,
            ),
{
    lemma_matching_type(config.file_types, path, 0);
}

proof fn lemma_matching_type(file_types: Seq<(Seq<char>, Seq<char>)>, path: Seq<char>, i: int)
    requires
        0 <= i,
    ensures
        matching_type(file_types, path, i) matches Some(k) ==> i <= k < file_types.len()
            && file_types[k].0.is_suffix_of(path),
    decreases file_types.len() - i,
{
    if i < file_types.len() {
        lemma_matching_type(file_types, path, i + 1);
    }
}

/// Without patterns to exclude, every file whose type has a strategy is crawled; a path
/// that no pattern excludes needs no pattern to keep it.
pub proof fn only_excluded_paths_need_keeping(config: CrawlConfigView, path: Seq<char>)
    requires
        strategy_for(config, path) is Some,
        !any_matches(config.patterns_to_exclude, path),
    ensures
        crawled(config, path),
{
}

/// A pattern that ends in a slash speaks of exactly the paths below a directory of that
/// name, at the top or at any depth: of those that begin with the pattern, and of those
/// that have it after a slash.
pub proof fn directory_patterns_match_at_any_depth(
    pattern: Seq<char>,
    a: Seq<char>,
    b: Seq<char>,
    path: Seq<char>,
)
    requires
        pattern.len() > 0,
        pattern.last() == '/',
    ensures
        pattern_matches(pattern, pattern + b),
        pattern_matches(pattern, a + seq!['/'] + pattern + b),
        pattern_matches(pattern, path) && !pattern.is_prefix_of(path) ==> exists|i: int|
            {
                &&& 0 <= i
                &&& i + 1 + pattern.len() <= path.len()
                &&& #[trigger] path[i] == '/'
                &&& path.subrange(i + 1, i + 1 + pattern.len()) == pattern
            },
{
    let inner = seq!['/'] + pattern;
    assert(pattern.is_prefix_of(pattern + b));
    let deep = a + seq!['/'] + pattern + b;
    assert(deep.subrange(a.len() as int, (a.len() + inner.len()) as int) =~= inner);
    assert(text::occurs_at(deep, inner, a.len() as int));
    if pattern_matches(pattern, path) && !pattern.is_prefix_of(path) {
        let i = choose|i: int| text::occurs_at(path, inner, i);
        let found = path.subrange(i, i + inner.len());
        assert(found[0] == path[i]);
        assert(path.subrange(i + 1, i + 1 + pattern.len()) =~= found.skip(1));
        assert(inner.skip(1) =~= pattern);
    }
}

/// With a directory among the patterns to exclude, no path below a directory of that name is
/// crawled, at whatever depth it lies, unless a pattern to keep speaks of it.
pub proof fn excluded_directories_are_left_out(
    config: CrawlConfigView,
    i: int,
    a: Seq<char>,
    b: Seq<char>,
)
    requires
        0 <= i < config.patterns_to_exclude.len(),
        config.patterns_to_exclude[i].len() > 0,
        config.patterns_to_exclude[i].last() == '/',
    ensures
        ({
            let path = config.patterns_to_exclude[i] + b;
            (forall|k: int|
                0 <= k < config.patterns_to_keep.len() ==> !pattern_matches(
                    #[trigger] config.patterns_to_keep[k],
                    path,
                )) ==> !crawled(config, path)
        }),
        ({
            let path = a + seq!['/'] + config.patterns_to_exclude[i] + b;
            (forall|k: int|
                0 <= k < config.patterns_to_keep.len() ==> !pattern_matches(
                    #[trigger] config.patterns_to_keep[k],
                    path,
                )) ==> !crawled(config, path)
        }),
{
    let pattern = config.patterns_to_exclude[i];
    directory_patterns_match_at_any_depth(pattern, a, b, pattern + b);
    assert(pattern_matches(config.patterns_to_exclude[i], pattern + b));
    assert(pattern_matches(config.patterns_to_exclude[i], a + seq!['/'] + pattern + b));
}

/// With a directory among the patterns to keep, every path below a directory of that name
/// whose suffix has a strategy is crawled, at whatever depth it lies and whatever excludes
/// it.
pub proof fn kept_directories_are_crawled(
    config: CrawlConfigView,
    i: int,
    t: int,
    a: Seq<char>,
    b: Seq<char>,
)
    requires
        0 <= i < config.patterns_to_keep.len(),
        config.patterns_to_keep[i].len() > 0,
        config.patterns_to_keep[i].last() == '/',
        0 <= t < config.file_types.len(),
    ensures
        ({
            let path = config.patterns_to_keep[i] + b;
            config.file_types[t].0.is_suffix_of(path) ==> crawled(config, path)
        }),
        ({
            let path = a + seq!['/'] + config.patterns_to_keep[i] + b;
            config.file_types[t].0.is_suffix_of(path) ==> crawled(config, path)
        }),
{
    let pattern = config.patterns_to_keep[i];
    let (top, deep) = (pattern + b, a + seq!['/'] + pattern + b);
    directory_patterns_match_at_any_depth(pattern, a, b, top);
    assert(pattern_matches(config.patterns_to_keep[i], top));
    assert(pattern_matches(config.patterns_to_keep[i], deep));
    if config.file_types[t].0.is_suffix_of(top) {
        lemma_some_type(config.file_types, top, 0, t);
    }
    if config.file_types[t].0.is_suffix_of(deep) {
        lemma_some_type(config.file_types, deep, 0, t);
    }
}

/// A path that no pattern speaks of, and whose suffix has a strategy, is crawled; one whose
/// suffix has none never is.
pub proof fn files_are_crawled_by_type(config: CrawlConfigView, path: Seq<char>)
    ensures
        (forall|t: int|
            0 <= t < config.file_types.len() ==> !(#[trigger] config.file_types[t]).0.is_suffix_of(
                path,
            )) ==> !crawled(config, path),
        (exists|t: int|
            0 <= t < config.file_types.len() && (#[trigger] config.file_types[t]).0.is_suffix_of(
                path,
            )) && (forall|k: int|
            0 <= k < config.patterns_to_exclude.len() ==> !pattern_matches(
                #[trigger] config.patterns_to_exclude[k],
                path,
            )) ==> crawled(config, path),
{
    lemma_matching_type(config.file_types, path, 0);
    if exists|t: int|
        0 <= t < config.file_types.len() && (#[trigger] config.file_types[t]).0.is_suffix_of(
            path,
        ) {
        let t = choose|t: int|
            0 <= t < config.file_types.len() && (#[trigger] config.file_types[t]).0.is_suffix_of(
                path,
            );
        lemma_some_type(config.file_types, path, 0, t);
    }
}

/// The first suffix that a path ends in decides how it is divided.
pub proof fn first_suffix_decides(config: CrawlConfigView, path: Seq<char>, t: int)
    requires
        0 <= t < config.file_types.len(),
        config.file_types[t].0.is_suffix_of(path),
        forall|k: int| 0 <= k < t ==> !(#[trigger] config.file_types[k]).0.is_suffix_of(path),
    ensures
        strategy_for(config, path) == Some(config.file_types[t].1),
{
    lemma_some_type(config.file_types, path, 0, t);
    lemma_matching_type(config.file_types, path, 0);
    lemma_not_before(config.file_types, path, 0, t);
}

proof fn lemma_some_type(
    file_types: Seq<(Seq<char>, Seq<char>)>,
    path: Seq<char>,
    i: int,
    t: int,
)
    requires
        0 <= i <= t < file_types.len(),
        file_types[t].0.is_suffix_of(path),
    ensures
        matching_type(file_types, path, i) is Some,
    decreases t - i,
{
    if i < t {
        lemma_some_type(file_types, path, i + 1, t);
    }
}

proof fn lemma_not_before(
    file_types: Seq<(Seq<char>, Seq<char>)>,
    path: Seq<char>,
    i: int,
    t: int,
)
    requires
        0 <= i <= t < file_types.len(),
        file_types[t].0.is_suffix_of(path),
        forall|k: int| i <= k < t ==> !(#[trigger] file_types[k]).0.is_suffix_of(path),
    ensures
        matching_type(file_types, path, i) == Some(t),
    decreases t - i,
{
    if i < t {
        lemma_not_before(file_types, path, i + 1, t);
    }
}

/// The configuration that is used where none is given.
pub open spec fn default_config() -> CrawlConfigView {
    CrawlConfigView {
        version: 1,
        file_types: seq![
            (".ts"@, "typescript"@),
            (".tsx"@, "typescript"@),
            (".js"@, "javascript"@),
            (".jsx"@, "javascript"@),
            (".cjs"@, "javascript"@),
            (".mjs"@, "javascript"@),
            (".md"@, "markdown"@),
            (".json"@, "simpleLine"@),
            (".yml"@, "lineBased"@),
            (".yaml"@, "lineBased"@),
            (".txt"@, "lineBased"@),
            (".css"@, "lineBased"@),
            (".scss"@, "lineBased"@),
        ],
        patterns_to_exclude: seq![
            "node_modules/"@,
            "dist/"@,
            "build/"@,
            "lib/"@,
            "lib-commonjs/"@,
            "lib-esm/"@,
            "lib-esnext/"@,
            "lib-amd/"@,
            "lib-dts/"@,
            "temp/"@,
            ".cache/"@,
            ".rush/temp/"@,
            "common/temp/"@,
            "common/deploy/"@,
            ".docusaurus/"@,
            "**/*.snap"@,
            "**/*.test.ts"@,
            "**/*.spec.ts"@,
            "**/*.test.tsx"@,
            "**/*.spec.tsx"@,
            "**/package-lock.json"@,
            "**/pnpm-lock.yaml"@,
            "**/yarn.lock"@,
            "**/*.lock"@,
            "**/*.tsbuildinfo"@,
            "**/*.js"@,
            "**/*.jsx"@,
            "**/*.cjs"@,
            "**/*.mjs"@,
            "**/*.json"@,
        ],
        patterns_to_keep: seq![
            "src/"@,
            "test/"@,
        ],
    }
}

/// Where no configuration is given, dependencies and build output are left out at any depth,
/// and so are lock files, snapshots, tests, JavaScript and JSON, unless they lie below a
/// directory `src` or `test`.
pub proof fn default_leaves_out_what_is_generated(path: Seq<char>, pattern: Seq<char>)
    requires
        ({
            ||| pattern == "node_modules/"@
            ||| pattern == "dist/"@
            ||| pattern == "build/"@
            ||| pattern == "lib/"@
            ||| pattern == "lib-commonjs/"@
            ||| pattern == "lib-esm/"@
            ||| pattern == "lib-esnext/"@
            ||| pattern == "lib-amd/"@
            ||| pattern == "lib-dts/"@
            ||| pattern == "temp/"@
            ||| pattern == ".cache/"@
            ||| pattern == ".rush/temp/"@
            ||| pattern == "common/temp/"@
            ||| pattern == "common/deploy/"@
            ||| pattern == ".docusaurus/"@
            ||| pattern == "**/*.snap"@
            ||| pattern == "**/*.test.ts"@
            ||| pattern == "**/*.spec.ts"@
            ||| pattern == "**/*.test.tsx"@
            ||| pattern == "**/*.spec.tsx"@
            ||| pattern == "**/package-lock.json"@
            ||| pattern == "**/pnpm-lock.yaml"@
            ||| pattern == "**/yarn.lock"@
            ||| pattern == "**/*.lock"@
            ||| pattern == "**/*.tsbuildinfo"@
            ||| pattern == "**/*.js"@
            ||| pattern == "**/*.jsx"@
            ||| pattern == "**/*.cjs"@
            ||| pattern == "**/*.mjs"@
            ||| pattern == "**/*.json"@
        }),
        pattern_matches(pattern, path),
        !pattern_matches("src/"@, path),
        !pattern_matches("test/"@, path),
    ensures
        !crawled(default_config(), path),
{
    let exclude = default_config().patterns_to_exclude;
    let k: int = if pattern == "node_modules/"@ {
        0
    } else if pattern == "dist/"@ {
        1
    } else if pattern == "build/"@ {
        2
    } else if pattern == "lib/"@ {
        3
    } else if pattern == "lib-commonjs/"@ {
        4
    } else if pattern == "lib-esm/"@ {
        5
    } else if pattern == "lib-esnext/"@ {
        6
    } else if pattern == "lib-amd/"@ {
        7
    } else if pattern == "lib-dts/"@ {
        8
    } else if pattern == "temp/"@ {
        9
    } else if pattern == ".cache/"@ {
        10
    } else if pattern == ".rush/temp/"@ {
        11
    } else if pattern == "common/temp/"@ {
        12
    } else if pattern == "common/deploy/"@ {
        13
    } else if pattern == ".docusaurus/"@ {
        14
    } else if pattern == "**/*.snap"@ {
        15
    } else if pattern == "**/*.test.ts"@ {
        16
    } else if pattern == "**/*.spec.ts"@ {
        17
    } else if pattern == "**/*.test.tsx"@ {
        18
    } else if pattern == "**/*.spec.tsx"@ {
        19
    } else if pattern == "**/package-lock.json"@ {
        20
    } else if pattern == "**/pnpm-lock.yaml"@ {
        21
    } else if pattern == "**/yarn.lock"@ {
        22
    } else if pattern == "**/*.lock"@ {
        23
    } else if pattern == "**/*.tsbuildinfo"@ {
        24
    } else if pattern == "**/*.js"@ {
        25
    } else if pattern == "**/*.jsx"@ {
        26
    } else if pattern == "**/*.cjs"@ {
        27
    } else if pattern == "**/*.mjs"@ {
        28
    } else {
        29
    };
    assert(exclude[k] == pattern);
    assert(any_matches(exclude, path));
}

/// Where no configuration is given, every file of a known type below a directory `src` or
/// `test`, at any depth, is crawled.
pub proof fn default_keeps_sources_and_tests(path: Seq<char>, suffix: Seq<char>)
    requires
        ({
            ||| suffix == ".ts"@
            ||| suffix == ".tsx"@
            ||| suffix == ".js"@
            ||| suffix == ".jsx"@
            ||| suffix == ".cjs"@
            ||| suffix == ".mjs"@
            ||| suffix == ".md"@
            ||| suffix == ".json"@
            ||| suffix == ".yml"@
            ||| suffix == ".yaml"@
            ||| suffix == ".txt"@
            ||| suffix == ".css"@
            ||| suffix == ".scss"@
        }),
        suffix.is_suffix_of(path),
        pattern_matches("src/"@, path) || pattern_matches("test/"@, path),
    ensures
        crawled(default_config(), path),
{
    let keep = default_config().patterns_to_keep;
    assert(keep[0] == "src/"@ && keep[1] == "test/"@);
    assert(any_matches(keep, path));
    default_strategies(path, suffix);
}

/// Where no configuration is given, the suffix of a file decides in this way how it is
/// divided.
pub proof fn default_strategies(path: Seq<char>, suffix: Seq<char>)
    requires
        suffix.is_suffix_of(path),
    ensures
        (suffix == ".ts"@ || suffix == ".tsx"@) ==> strategy_for(default_config(), path) == Some("typescript"@),
        (suffix == ".js"@ || suffix == ".jsx"@ || suffix == ".cjs"@ || suffix == ".mjs"@) ==> strategy_for(default_config(), path) == Some("javascript"@),
        (suffix == ".md"@) ==> strategy_for(default_config(), path) == Some("markdown"@),
        (suffix == ".json"@) ==> strategy_for(default_config(), path) == Some("simpleLine"@),
        (suffix == ".yml"@ || suffix == ".yaml"@ || suffix == ".txt"@ || suffix == ".css"@ || suffix == ".scss"@) ==> strategy_for(default_config(), path) == Some("lineBased"@),
{
    let types = default_config().file_types;
    reveal_strlit(".ts");
    reveal_strlit(".tsx");
    reveal_strlit(".js");
    reveal_strlit(".jsx");
    reveal_strlit(".cjs");
    reveal_strlit(".mjs");
    reveal_strlit(".md");
    reveal_strlit(".json");
    reveal_strlit(".yml");
    reveal_strlit(".yaml");
    reveal_strlit(".txt");
    reveal_strlit(".css");
    reveal_strlit(".scss");
    reveal_with_fuel(matching_type, 14);
    let n = path.len() as int;
    if suffix == ".ts"@ {
        assert(path.subrange(n - 3, n) =~= suffix);
        assert(path[n - 1] == suffix[2]);
        assert(path[n - 2] == suffix[1]);
        assert(path[n - 3] == suffix[0]);
    }
    if suffix == ".tsx"@ {
        assert(path.subrange(n - 4, n) =~= suffix);
        assert(path[n - 1] == suffix[3]);
        assert(path[n - 2] == suffix[2]);
        assert(path[n - 3] == suffix[1]);
        assert(path[n - 4] == suffix[0]);
    }
    if suffix == ".js"@ {
        assert(path.subrange(n - 3, n) =~= suffix);
        assert(path[n - 1] == suffix[2]);
        assert(path[n - 2] == suffix[1]);
        assert(path[n - 3] == suffix[0]);
    }
    if suffix == ".jsx"@ {
        assert(path.subrange(n - 4, n) =~= suffix);
        assert(path[n - 1] == suffix[3]);
        assert(path[n - 2] == suffix[2]);
        assert(path[n - 3] == suffix[1]);
        assert(path[n - 4] == suffix[0]);
    }
    if suffix == ".cjs"@ {
        assert(path.subrange(n - 4, n) =~= suffix);
        assert(path[n - 1] == suffix[3]);
        assert(path[n - 2] == suffix[2]);
        assert(path[n - 3] == suffix[1]);
        assert(path[n - 4] == suffix[0]);
    }
    if suffix == ".mjs"@ {
        assert(path.subrange(n - 4, n) =~= suffix);
        assert(path[n - 1] == suffix[3]);
        assert(path[n - 2] == suffix[2]);
        assert(path[n - 3] == suffix[1]);
        assert(path[n - 4] == suffix[0]);
    }
    if suffix == ".md"@ {
        assert(path.subrange(n - 3, n) =~= suffix);
        assert(path[n - 1] == suffix[2]);
        assert(path[n - 2] == suffix[1]);
        assert(path[n - 3] == suffix[0]);
    }
    if suffix == ".json"@ {
        assert(path.subrange(n - 5, n) =~= suffix);
        assert(path[n - 1] == suffix[4]);
        assert(path[n - 2] == suffix[3]);
        assert(path[n - 3] == suffix[2]);
        assert(path[n - 4] == suffix[1]);
        assert(path[n - 5] == suffix[0]);
    }
    if suffix == ".yml"@ {
        assert(path.subrange(n - 4, n) =~= suffix);
        assert(path[n - 1] == suffix[3]);
        assert(path[n - 2] == suffix[2]);
        assert(path[n - 3] == suffix[1]);
        assert(path[n - 4] == suffix[0]);
    }
    if suffix == ".yaml"@ {
        assert(path.subrange(n - 5, n) =~= suffix);
        assert(path[n - 1] == suffix[4]);
        assert(path[n - 2] == suffix[3]);
        assert(path[n - 3] == suffix[2]);
        assert(path[n - 4] == suffix[1]);
        assert(path[n - 5] == suffix[0]);
    }
    if suffix == ".txt"@ {
        assert(path.subrange(n - 4, n) =~= suffix);
        assert(path[n - 1] == suffix[3]);
        assert(path[n - 2] == suffix[2]);
        assert(path[n - 3] == suffix[1]);
        assert(path[n - 4] == suffix[0]);
    }
    if suffix == ".css"@ {
        assert(path.subrange(n - 4, n) =~= suffix);
        assert(path[n - 1] == suffix[3]);
        assert(path[n - 2] == suffix[2]);
        assert(path[n - 3] == suffix[1]);
        assert(path[n - 4] == suffix[0]);
    }
    if suffix == ".scss"@ {
        assert(path.subrange(n - 5, n) =~= suffix);
        assert(path[n - 1] == suffix[4]);
        assert(path[n - 2] == suffix[3]);
        assert(path[n - 3] == suffix[2]);
        assert(path[n - 4] == suffix[1]);
        assert(path[n - 5] == suffix[0]);
    }
    if ".ts"@.is_suffix_of(path) {
        assert(path[n - 1] == ".ts"@[2]);
        assert(path[n - 2] == ".ts"@[1]);
        assert(path[n - 3] == ".ts"@[0]);
    }
    if ".tsx"@.is_suffix_of(path) {
        assert(path[n - 1] == ".tsx"@[3]);
        assert(path[n - 2] == ".tsx"@[2]);
        assert(path[n - 3] == ".tsx"@[1]);
        assert(path[n - 4] == ".tsx"@[0]);
    }
    if ".js"@.is_suffix_of(path) {
        assert(path[n - 1] == ".js"@[2]);
        assert(path[n - 2] == ".js"@[1]);
        assert(path[n - 3] == ".js"@[0]);
    }
    if ".jsx"@.is_suffix_of(path) {
        assert(path[n - 1] == ".jsx"@[3]);
        assert(path[n - 2] == ".jsx"@[2]);
        assert(path[n - 3] == ".jsx"@[1]);
        assert(path[n - 4] == ".jsx"@[0]);
    }
    if ".cjs"@.is_suffix_of(path) {
        assert(path[n - 1] == ".cjs"@[3]);
        assert(path[n - 2] == ".cjs"@[2]);
        assert(path[n - 3] == ".cjs"@[1]);
        assert(path[n - 4] == ".cjs"@[0]);
    }
    if ".mjs"@.is_suffix_of(path) {
        assert(path[n - 1] == ".mjs"@[3]);
        assert(path[n - 2] == ".mjs"@[2]);
        assert(path[n - 3] == ".mjs"@[1]);
        assert(path[n - 4] == ".mjs"@[0]);
    }
    if ".md"@.is_suffix_of(path) {
        assert(path[n - 1] == ".md"@[2]);
        assert(path[n - 2] == ".md"@[1]);
        assert(path[n - 3] == ".md"@[0]);
    }
    if ".json"@.is_suffix_of(path) {
        assert(path[n - 1] == ".json"@[4]);
        assert(path[n - 2] == ".json"@[3]);
        assert(path[n - 3] == ".json"@[2]);
        assert(path[n - 4] == ".json"@[1]);
        assert(path[n - 5] == ".json"@[0]);
    }
    if ".yml"@.is_suffix_of(path) {
        assert(path[n - 1] == ".yml"@[3]);
        assert(path[n - 2] == ".yml"@[2]);
        assert(path[n - 3] == ".yml"@[1]);
        assert(path[n - 4] == ".yml"@[0]);
    }
    if ".yaml"@.is_suffix_of(path) {
        assert(path[n - 1] == ".yaml"@[4]);
        assert(path[n - 2] == ".yaml"@[3]);
        assert(path[n - 3] == ".yaml"@[2]);
        assert(path[n - 4] == ".yaml"@[1]);
        assert(path[n - 5] == ".yaml"@[0]);
    }
    if ".txt"@.is_suffix_of(path) {
        assert(path[n - 1] == ".txt"@[3]);
        assert(path[n - 2] == ".txt"@[2]);
        assert(path[n - 3] == ".txt"@[1]);
        assert(path[n - 4] == ".txt"@[0]);
    }
    if ".css"@.is_suffix_of(path) {
        assert(path[n - 1] == ".css"@[3]);
        assert(path[n - 2] == ".css"@[2]);
        assert(path[n - 3] == ".css"@[1]);
        assert(path[n - 4] == ".css"@[0]);
    }
    if ".scss"@.is_suffix_of(path) {
        assert(path[n - 1] == ".scss"@[4]);
        assert(path[n - 2] == ".scss"@[3]);
        assert(path[n - 3] == ".scss"@[2]);
        assert(path[n - 4] == ".scss"@[1]);
        assert(path[n - 5] == ".scss"@[0]);
    }
}

proof fn lemma_default_config()
    ensures
        file_type_error(default_config().file_types, 0) is None,
        all_plain(default_config().patterns_to_exclude),
        all_plain(default_config().patterns_to_keep),
{
    reveal_strlit(".ts");
    reveal_strlit(".tsx");
    reveal_strlit(".js");
    reveal_strlit(".jsx");
    reveal_strlit(".cjs");
    reveal_strlit(".mjs");
    reveal_strlit(".md");
    reveal_strlit(".json");
    reveal_strlit(".yml");
    reveal_strlit(".yaml");
    reveal_strlit(".txt");
    reveal_strlit(".css");
    reveal_strlit(".scss");
    reveal_strlit("node_modules/");
    reveal_strlit("dist/");
    reveal_strlit("build/");
    reveal_strlit("lib/");
    reveal_strlit("lib-commonjs/");
    reveal_strlit("lib-esm/");
    reveal_strlit("lib-esnext/");
    reveal_strlit("lib-amd/");
    reveal_strlit("lib-dts/");
    reveal_strlit("temp/");
    reveal_strlit(".cache/");
    reveal_strlit(".rush/temp/");
    reveal_strlit("common/temp/");
    reveal_strlit("common/deploy/");
    reveal_strlit(".docusaurus/");
    reveal_strlit("**/*.snap");
    reveal_strlit("**/*.test.ts");
    reveal_strlit("**/*.spec.ts");
    reveal_strlit("**/*.test.tsx");
    reveal_strlit("**/*.spec.tsx");
    reveal_strlit("**/package-lock.json");
    reveal_strlit("**/pnpm-lock.yaml");
    reveal_strlit("**/yarn.lock");
    reveal_strlit("**/*.lock");
    reveal_strlit("**/*.tsbuildinfo");
    reveal_strlit("**/*.js");
    reveal_strlit("**/*.jsx");
    reveal_strlit("**/*.cjs");
    reveal_strlit("**/*.mjs");
    reveal_strlit("**/*.json");
    reveal_strlit("src/");
    reveal_strlit("test/");
    reveal_with_fuel(file_type_error, 14);
}

/// The configuration that is used where none is given: TypeScript by syntax, Markdown by
/// section, plain text formats by line; JavaScript and JSON are known types without a way to
/// divide them. Build output, dependencies, lock files, generated files, JavaScript, JSON and
/// tests are left out, except below source directories.
pub fn get_default_crawl_config() -> (r: CrawlConfig)
    ensures
        r@ == default_config(),
        config_error(r@) is None,
{
    let mut file_types: Vec<(String, String)> = Vec::new();
    file_types.push((".ts".to_owned(), "typescript".to_owned()));
    file_types.push((".tsx".to_owned(), "typescript".to_owned()));
    file_types.push((".js".to_owned(), "javascript".to_owned()));
    file_types.push((".jsx".to_owned(), "javascript".to_owned()));
    file_types.push((".cjs".to_owned(), "javascript".to_owned()));
    file_types.push((".mjs".to_owned(), "javascript".to_owned()));
    file_types.push((".md".to_owned(), "markdown".to_owned()));
    file_types.push((".json".to_owned(), "simpleLine".to_owned()));
    file_types.push((".yml".to_owned(), "lineBased".to_owned()));
    file_types.push((".yaml".to_owned(), "lineBased".to_owned()));
    file_types.push((".txt".to_owned(), "lineBased".to_owned()));
    file_types.push((".css".to_owned(), "lineBased".to_owned()));
    file_types.push((".scss".to_owned(), "lineBased".to_owned()));
    let mut patterns_to_exclude: Vec<String> = Vec::new();
    patterns_to_exclude.push("node_modules/".to_owned());
    patterns_to_exclude.push("dist/".to_owned());
    patterns_to_exclude.push("build/".to_owned());
    patterns_to_exclude.push("lib/".to_owned());
    patterns_to_exclude.push("lib-commonjs/".to_owned());
    patterns_to_exclude.push("lib-esm/".to_owned());
    patterns_to_exclude.push("lib-esnext/".to_owned());
    patterns_to_exclude.push("lib-amd/".to_owned());
    patterns_to_exclude.push("lib-dts/".to_owned());
    patterns_to_exclude.push("temp/".to_owned());
    patterns_to_exclude.push(".cache/".to_owned());
    patterns_to_exclude.push(".rush/temp/".to_owned());
    patterns_to_exclude.push("common/temp/".to_owned());
    patterns_to_exclude.push("common/deploy/".to_owned());
    patterns_to_exclude.push(".docusaurus/".to_owned());
    patterns_to_exclude.push("**/*.snap".to_owned());
    patterns_to_exclude.push("**/*.test.ts".to_owned());
    patterns_to_exclude.push("**/*.spec.ts".to_owned());
    patterns_to_exclude.push("**/*.test.tsx".to_owned());
    patterns_to_exclude.push("**/*.spec.tsx".to_owned());
    patterns_to_exclude.push("**/package-lock.json".to_owned());
    patterns_to_exclude.push("**/pnpm-lock.yaml".to_owned());
    patterns_to_exclude.push("**/yarn.lock".to_owned());
    patterns_to_exclude.push("**/*.lock".to_owned());
    patterns_to_exclude.push("**/*.tsbuildinfo".to_owned());
    patterns_to_exclude.push("**/*.js".to_owned());
    patterns_to_exclude.push("**/*.jsx".to_owned());
    patterns_to_exclude.push("**/*.cjs".to_owned());
    patterns_to_exclude.push("**/*.mjs".to_owned());
    patterns_to_exclude.push("**/*.json".to_owned());
    let mut patterns_to_keep: Vec<String> = Vec::new();
    patterns_to_keep.push("src/".to_owned());
    patterns_to_keep.push("test/".to_owned());
    let config = CrawlConfig { version: 1, file_types, patterns_to_exclude, patterns_to_keep };
    proof {
        assert(config@.file_types =~= default_config().file_types);
        assert(config@.patterns_to_exclude =~= default_config().patterns_to_exclude);
        assert(config@.patterns_to_keep =~= default_config().patterns_to_keep);
        lemma_default_config();
    }
    let checked = config.validate();
    assert(checked is Ok);
    config
}

/// What a configuration that may be missing stands for.
pub open spec fn config_view(config: Option<CrawlConfig>) -> Option<CrawlConfigView> {
    match config {
        Some(c) => Some(c@),
        None => None,
    }
}

/// The configuration that is used: that of the repository, or else the user's, or else the
/// default one. They are never mixed.
pub open spec fn chosen_config(
    local: Option<CrawlConfigView>,
    global: Option<CrawlConfigView>,
) -> CrawlConfigView {
    match local {
        Some(c) => c,
        None => match global {
            Some(c) => c,
            None => default_config(),
        },
    }
}

/// Chooses and checks the configuration, given that of the repository and the user's, where
/// they exist.
pub fn load_crawl_config(local: Option<CrawlConfig>, global: Option<CrawlConfig>) -> (r: Result<
    CrawlConfig,
    CrawlConfigError,
>)
    ensures
        match r {
            Ok(config) => config@ == chosen_config(config_view(local), config_view(global))
                && config_error(config@) is None,
            Err(e) => config_error(chosen_config(config_view(local), config_view(global))) == Some(
                e@,
            ),
        },
{
    let config = match local {
        Some(c) => c,
        None => match global {
            Some(c) => c,
            None => get_default_crawl_config(),
        },
    };
    config.validate()?;
    Ok(config)
}

/// Chooses and checks the configuration, and makes it ready for matching.
pub fn load_compiled_crawl_config(
    local: Option<CrawlConfig>,
    global: Option<CrawlConfig>,
) -> (r: Result<CompiledCrawlConfig, CrawlConfigError>)
    ensures
        ({
            let chosen = chosen_config(config_view(local), config_view(global));
            match r {
                Ok(compiled) => compiled@ == chosen && config_error(chosen) is None
                    && compilation_error(chosen) is None,
                Err(e) => config_error(chosen) == Some(e@) || config_error(chosen) is None
                    && compilation_error(chosen) == Some(e@),
            }
        }),
{
    let config = load_crawl_config(local, global)?;
    config.compile()
}

/// What a configuration may say of a file type: the suffix begins with a period, and the strategy
/// is one of the known ones.
pub open spec fn proper_file_type(suffix: Seq<char>, strategy: Seq<char>) -> bool {
    &&& suffix.len() > 0 && suffix[0] == '.'
    &&& {
        ||| strategy == "typescript"@
        ||| strategy == "javascript"@
        ||| strategy == "markdown"@
        ||| strategy == "json"@
        ||| strategy == "yamlSimple"@
        ||| strategy == "simpleLine"@
        ||| strategy == "lineBased"@
    }
}

proof fn lemma_file_types(file_types: Seq<(Seq<char>, Seq<char>)>, i: int)
    requires
        0 <= i,
    ensures
        file_type_error(file_types, i) is None <==> forall|j: int|
            i <= j < file_types.len() ==> proper_file_type(
                (#[trigger] file_types[j]).0,
                file_types[j].1,
            ),
    decreases file_types.len() - i,
{
    if i < file_types.len() {
        lemma_file_types(file_types, i + 1);
        if file_type_error(file_types, i) is None {
            assert forall|j: int| i <= j < file_types.len() implies proper_file_type(
                (#[trigger] file_types[j]).0,
                file_types[j].1,
            ) by {}
        } else {
            assert(!proper_file_type(file_types[i].0, file_types[i].1) || file_type_error(
                file_types,
                i + 1,
            ) is Some);
        }
    }
}

proof fn lemma_pattern_errors(patterns: Seq<Seq<char>>, i: int)
    requires
        0 <= i,
    ensures
        pattern_error(patterns, i) is None <==> forall|j: int|
            i <= j < patterns.len() ==> glob_error(#[trigger] patterns[j]) is None,
    decreases patterns.len() - i,
{
    if i < patterns.len() {
        lemma_pattern_errors(patterns, i + 1);
        if pattern_error(patterns, i) is None {
            assert forall|j: int| i <= j < patterns.len() implies glob_error(
                #[trigger] patterns[j],
            ) is None by {}
        } else {
            assert(glob_error(patterns[i]) is Some || pattern_error(patterns, i + 1) is Some);
        }
    }
}

/// A configuration is accepted exactly if it is of the first version, all its file types are
/// proper, and all its patterns of both kinds can be read.
pub proof fn accepted_configs(config: CrawlConfigView)
    ensures
        config_error(config) is None <==> {
            &&& config.version == 1
            &&& forall|i: int|
                0 <= i < config.file_types.len() ==> proper_file_type(
                    (#[trigger] config.file_types[i]).0,
                    config.file_types[i].1,
                )
            &&& forall|i: int|
                0 <= i < config.patterns_to_exclude.len() ==> glob_error(
                    #[trigger] config.patterns_to_exclude[i],
                ) is None
            &&& forall|i: int|
                0 <= i < config.patterns_to_keep.len() ==> glob_error(
                    #[trigger] config.patterns_to_keep[i],
                ) is None
        },
{
    lemma_file_types(config.file_types, 0);
    lemma_pattern_errors(config.patterns_to_exclude, 0);
    lemma_pattern_errors(config.patterns_to_keep, 0);
}

proof fn lemma_first_file_type(file_types: Seq<(Seq<char>, Seq<char>)>, i: int, k: int)
    requires
        0 <= i <= k < file_types.len(),
        forall|j: int|
            0 <= j < k ==> proper_file_type((#[trigger] file_types[j]).0, file_types[j].1),
    ensures
        file_type_error(file_types, i) == file_type_error(file_types, k),
    decreases k - i,
{
    if i < k {
        assert(proper_file_type(file_types[i].0, file_types[i].1));
        lemma_first_file_type(file_types, i + 1, k);
    }
}

/// The first fault of a configuration is told: its version goes first, and the first file type that
/// is not proper next, of which the strategy is looked at before the suffix.
pub proof fn first_fault_is_told(config: CrawlConfigView, k: int)
    ensures
        config.version != 1 ==> config_error(config) == Some(
            CrawlConfigErrorView::UnsupportedVersion(config.version),
        ),
        config.version == 1 && 0 <= k < config.file_types.len() && (forall|j: int|
            0 <= j < k ==> proper_file_type(
                (#[trigger] config.file_types[j]).0,
                config.file_types[j].1,
            )) && !proper_file_type(config.file_types[k].0, config.file_types[k].1) ==> {
            let (suffix, strategy) = config.file_types[k];
            config_error(config) == Some(
                if proper_file_type("."@, strategy) {
                    CrawlConfigErrorView::InvalidSuffix(suffix)
                } else {
                    CrawlConfigErrorView::UnknownStrategy { strategy, suffix }
                },
            )
        },
{
    reveal_strlit(".");
    if config.version == 1 && 0 <= k < config.file_types.len() && (forall|j: int|
        0 <= j < k ==> proper_file_type(
            (#[trigger] config.file_types[j]).0,
            config.file_types[j].1,
        )) && !proper_file_type(config.file_types[k].0, config.file_types[k].1) {
        lemma_first_file_type(config.file_types, 0, k);
    }
}

/// The repository's own configuration goes before that of the user, and this before the default;
/// they are not mixed.
pub proof fn nearest_config_is_taken(
    local: Option<CrawlConfigView>,
    global: Option<CrawlConfigView>,
)
    ensures
        local is Some ==> Some(chosen_config(local, global)) == local,
        local is None && global is Some ==> Some(chosen_config(local, global)) == global,
        local is None && global is None ==> chosen_config(local, global) == default_config(),
{
}

}
