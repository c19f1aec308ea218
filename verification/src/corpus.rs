//! The corpus: where it is, which of its files are owned, and its CODEOWNERS file.
use vstd::prelude::*;
use vstd::slice::slice_to_vec;
use vstd::string::StringExecFns;
use vstd::utf8::encode_utf8;

use crate::order::{insert_unique, precedes, strictly_sorted};
use crate::text::{
    is_white_space, law_trimming_takes_white_space_alone, lines, optional_str, optional_text,
    split_lines, texts, trim, trimmed,
};

verus! {

/// Where a corpus keeps its configuration, below its root.
pub const CONFIG_PATH: &'static str = "config/code_ownership.yml";

/// The environment variable that names a corpus.
pub const CORPUS_VARIABLE: &'static str = "CODEOWNERS_PERF_CORPUS";

/// What the harness reads of a corpus's configuration.
pub struct Config {
    pub owned_globs: Vec<String>,
    pub unowned_globs: Vec<String>,
    /// The directory of the CODEOWNERS file, below the root of the corpus.
    pub codeowners_path: String,
}

/// The mathematical content of a [`Config`].
pub struct ConfigView {
    pub owned_globs: Seq<Seq<char>>,
    pub unowned_globs: Seq<Seq<char>>,
    pub codeowners_path: Seq<char>,
}

impl View for Config {
    type V = ConfigView;

    open spec fn view(&self) -> ConfigView {
        ConfigView {
            owned_globs: texts(self.owned_globs@),
            unowned_globs: texts(self.unowned_globs@),
            codeowners_path: self.codeowners_path@,
        }
    }
}

// ---------------------------------------------------------------------------
// Corpus resolution
// ---------------------------------------------------------------------------

/// The corpus that is meant: the one that was asked for, or else the one that the
/// environment names, unless that is empty, or else the fixture.
pub open spec fn candidate_of<P>(flag: Option<P>, env: Option<(P, usize)>, fixture: P) -> P {
    match (flag, env) {
        (Some(path), _) => path,
        (None, Some((path, len))) if len > 0 => path,
        _ => fixture,
    }
}

/// Picks the corpus that is meant. `env` is the value of the environment variable,
/// where it is set, with its length.
pub fn corpus_candidate<P>(flag: Option<P>, env: Option<(P, usize)>, fixture: P) -> (candidate: P)
    ensures
        candidate == candidate_of(flag, env, fixture),
{
    if let Some(path) = flag {
        return path;
    }
    if let Some((path, len)) = env {
        if len > 0 {
            return path;
        }
    }
    fixture
}

/// What the file system says of a corpus that can be read.
pub struct Located<P> {
    /// Its absolute path.
    pub path: P,
    /// The path as it is shown.
    pub shown: String,
    /// Whether it holds a file at [`CONFIG_PATH`].
    pub has_config: bool,
}

/// The message for a corpus that cannot be read.
pub open spec fn unreadable_text(candidate: Seq<char>, error: Seq<char>) -> Seq<char> {
    "corpus "@ + candidate + " is not readable: "@ + error
}

/// The message for a corpus without a configuration.
pub open spec fn unconfigured_text(corpus: Seq<char>) -> Seq<char> {
    "corpus "@ + corpus + " has no config/code_ownership.yml — is it a codeowners project?"@
}

/// What is said of a corpus: its path where it can be read and has a configuration,
/// else what it lacks.
pub open spec fn is_resolution<P>(
    candidate: Seq<char>,
    located: Result<Located<P>, String>,
    corpus: Result<P, String>,
) -> bool {
    match (located, corpus) {
        (Ok(located), Ok(path)) => located.has_config && path == located.path,
        (Ok(located), Err(message)) => {
            &&& !located.has_config
            &&& message@ == unconfigured_text(located.shown@)
        },
        (Err(error), Ok(_)) => false,
        (Err(error), Err(message)) => message@ == unreadable_text(candidate, error@),
    }
}

/// The file system says of an absolute path that it gave what it said of the path that
/// it gave it for: that this is where the corpus is, with or without a configuration.
pub open spec fn locates_steadily<P>(
    file_system: spec_fn(P) -> Result<Located<P>, String>,
) -> bool {
    forall|path: P| (#[trigger] file_system(path)) is Ok ==> {
        let located = file_system(path)->Ok_0;
        let again = file_system(located.path);
        again is Ok && again->Ok_0.path == located.path && again->Ok_0.has_config
            == located.has_config
    }
}

/// A corpus that was resolved, asked for again, is picked and resolved to itself,
/// whatever the environment names by then, as long as the file system stays as it is.
pub proof fn law_resolved_corpus_resolves_to_itself<P>(
    file_system: spec_fn(P) -> Result<Located<P>, String>,
    shown: spec_fn(P) -> Seq<char>,
    flag: Option<P>,
    env: Option<(P, usize)>,
    fixture: P,
    corpus: P,
    later_env: Option<(P, usize)>,
    again: Result<P, String>,
)
    requires
        locates_steadily(file_system),
        is_resolution(
            shown(candidate_of(flag, env, fixture)),
            file_system(candidate_of(flag, env, fixture)),
            Ok(corpus),
        ),
        is_resolution(
            shown(candidate_of(Some(corpus), later_env, fixture)),
            file_system(candidate_of(Some(corpus), later_env, fixture)),
            again,
        ),
    ensures
        candidate_of(Some(corpus), later_env, fixture) == corpus,
        again == Ok::<P, String>(corpus),
{
    let first = file_system(candidate_of(flag, env, fixture));
    assert(first is Ok && first->Ok_0.path == corpus);
}

/// Accepts a corpus that can be read and has a configuration.
pub fn resolve_corpus<P>(candidate: &str, located: Result<Located<P>, String>) -> (corpus: Result<
    P,
    String,
>)
    ensures
        is_resolution(candidate@, located, corpus),
{
    match located {
        Ok(located) => {
            if located.has_config {
                Ok(located.path)
            } else {
                let mut message: String = String::from_str("corpus ");
                message.append(located.shown.as_str());
                message.append(
                    " has no config/code_ownership.yml — is it a codeowners project?",
                );
                Err(message)
            }
        },
        Err(error) => {
            let mut message: String = String::from_str("corpus ");
            message.append(candidate);
            message.append(" is not readable: ");
            message.append(error.as_str());
            Err(message)
        },
    }
}

// ---------------------------------------------------------------------------
// Files
// ---------------------------------------------------------------------------

/// What git printed, where it succeeded.
pub fn git_output(success: bool, stdout: String) -> (printed: Option<String>)
    ensures
        optional_text(printed) == if success {
            Some(stdout@)
        } else {
            None
        },
{
    if success {
        Some(stdout)
    } else {
        None
    }
}

/// Tracked files in the corpus, relative to its root, from what `git ls-files`
/// printed. There are none where git gave nothing.
pub fn tracked_files(listing: Option<&str>) -> (files: Vec<String>)
    ensures
        texts(files@) == match optional_str(listing) {
            Some(listing) => lines(listing),
            None => seq![],
        },
{
    match listing {
        Some(stdout) => split_lines(stdout),
        None => {
            let files: Vec<String> = Vec::new();
            assert(texts(files@) =~= seq![]);
            files
        },
    }
}

/// The longest pattern, in bytes, whose braces the matcher can count.
pub const MAX_GLOB_BYTES: u64 = 2_147_483_647;

/// The longest path, in bytes, that the matcher can index.
pub const MAX_PATH_BYTES: u64 = 4_294_967_293;

/// The matcher can read the pattern.
pub open spec fn glob_fits(glob: Seq<char>) -> bool {
    encode_utf8(glob).len() <= MAX_GLOB_BYTES
}

/// The matcher can read the path.
pub open spec fn path_fits(path: Seq<char>) -> bool {
    encode_utf8(path).len() <= MAX_PATH_BYTES
}

/// The matcher can read every pattern of the list.
pub open spec fn globs_fit(globs: Seq<Seq<char>>) -> bool {
    forall|i: int| 0 <= i < globs.len() ==> glob_fits(#[trigger] globs[i])
}

/// The matcher can read every path of the list.
pub open spec fn paths_fit(paths: Seq<Seq<char>>) -> bool {
    forall|i: int| 0 <= i < paths.len() ==> path_fits(#[trigger] paths[i])
}

/// Tells whether the matcher can read every file and every pattern.
pub fn matcher_fits(files: &Vec<String>, config: &Config) -> (yes: bool)
    ensures
        yes == (paths_fit(texts(files@)) && globs_fit(config@.owned_globs) && globs_fit(
            config@.unowned_globs,
        )),
{
    let max_path: u64 = MAX_PATH_BYTES;
    let max_glob: u64 = MAX_GLOB_BYTES;
    all_within(files, max_path) && all_within(&config.owned_globs, max_glob) && all_within(
        &config.unowned_globs,
        max_glob,
    )
}

fn all_within(list: &Vec<String>, limit: u64) -> (yes: bool)
    ensures
        yes == (forall|i: int|
            0 <= i < list@.len() ==> encode_utf8(#[trigger] texts(list@)[i]).len() <= limit),
{
    let mut i: usize = 0;
    while i < list.len()
        invariant
            i <= list@.len(),
            forall|j: int|
                0 <= j < i ==> encode_utf8(#[trigger] texts(list@)[j]).len() <= limit,
        decreases list@.len() - i,
    {
        let len: usize = list[i].as_str().as_bytes().len();
        assert(texts(list@)[i as int] == list@[i as int]@);
        if len as u64 > limit {
            return false;
        }
        i = i + 1;
    }
    true
}

/// What `fast_glob::glob_match` answers for a pattern and a path on a platform where
/// a slash separates the parts of a path, and where a backslash does so too or does not.
pub uninterp spec fn glob_matches_on(
    glob: Seq<char>,
    path: Seq<char>,
    backslash_separates: bool,
) -> bool;

/// The answer is that of one of the platforms.
pub open spec fn may_answer(glob: Seq<char>, path: Seq<char>, answer: bool) -> bool {
    answer == glob_matches_on(glob, path, true) || answer == glob_matches_on(glob, path, false)
}

/// `fast_glob::glob_match`: whether the path matches the pattern. The answer depends
/// on the two and on whether the platform takes a backslash for a path separator, which
/// is left unsaid; a path without a backslash is answered alike either way. The matcher
/// asks the platform of characters of the path alone.
///
/// It keeps positions in 32 bits, which bounds the length of the path, and counts the
/// open braces of the pattern in 31, which bounds the length of the pattern.
#[verifier::external_body]
fn glob_match(glob: &str, path: &str) -> (matched: bool)
    requires
        glob_fits(glob@),
        path_fits(path@),
    ensures
        matched == glob_matches_on(glob@, path@, true) || matched == glob_matches_on(
            glob@,
            path@,
            false,
        ),
        !path@.contains('\\') ==> matched == glob_matches_on(glob@, path@, true) && matched
            == glob_matches_on(glob@, path@, false),
{
    fast_glob::glob_match(glob, path)
}

/// One of the patterns matches the path on the platform where a backslash is a
/// separator, or on the one where it is not.
pub open spec fn any_glob_matches_on(
    globs: Seq<Seq<char>>,
    path: Seq<char>,
    backslash_separates: bool,
) -> bool {
    exists|i: int|
        0 <= i < globs.len() && glob_matches_on(#[trigger] globs[i], path, backslash_separates)
}

/// One of the patterns matches the path on some platform.
pub open spec fn any_may_match(globs: Seq<Seq<char>>, path: Seq<char>) -> bool {
    exists|i: int| 0 <= i < globs.len() && may_answer(#[trigger] globs[i], path, true)
}

/// Each of the patterns misses the path on some platform.
pub open spec fn all_may_miss(globs: Seq<Seq<char>>, path: Seq<char>) -> bool {
    forall|i: int| 0 <= i < globs.len() ==> may_answer(#[trigger] globs[i], path, false)
}

/// Tells whether one of the matcher's answers is yes.
pub fn any_of(answers: &Vec<bool>) -> (yes: bool)
    ensures
        yes == answers@.contains(true),
{
    let mut i: usize = 0;
    while i < answers.len()
        invariant
            i <= answers@.len(),
            forall|j: int| 0 <= j < i ==> !(#[trigger] answers@[j]),
        decreases answers@.len() - i,
    {
        if answers[i] {
            return true;
        }
        i = i + 1;
    }
    false
}

/// Tells whether one of the patterns matches the path. Without patterns none does.
///
/// For a path with a backslash the platform has a say in each answer: yes then means
/// that a pattern matches on one of them, and no that each misses on one of them.
pub fn matches_any(path: &str, globs: &Vec<String>) -> (yes: bool)
    requires
        path_fits(path@),
        globs_fit(texts(globs@)),
    ensures
        yes ==> any_may_match(texts(globs@), path@),
        !yes ==> all_may_miss(texts(globs@), path@),
        !path@.contains('\\') ==> forall|backslash_separates: bool|
            yes == #[trigger] any_glob_matches_on(texts(globs@), path@, backslash_separates),
        globs@.len() == 0 ==> !yes,
{
    let ghost patterns = texts(globs@);
    let mut answers: Vec<bool> = Vec::new();
    let mut matched: bool = false;
    let mut i: usize = 0;
    while i < globs.len() && !matched
        invariant
            patterns == texts(globs@),
            path_fits(path@),
            globs_fit(patterns),
            i <= globs@.len(),
            answers@.len() == i,
            forall|j: int| 0 <= j < i ==> may_answer(patterns[j], path@, #[trigger] answers@[j]),
            !path@.contains('\\') ==> forall|j: int, backslash_separates: bool|
                #![trigger answers@[j], glob_matches_on(patterns[j], path@, backslash_separates)]
                0 <= j < i ==> answers@[j] == glob_matches_on(
                    patterns[j],
                    path@,
                    backslash_separates,
                ),
            matched == answers@.contains(true),
        decreases globs@.len() - i,
    {
        assert(patterns[i as int] == globs@[i as int]@);
        let ghost before = answers@;
        matched = glob_match(globs[i].as_str(), path);
        answers.push(matched);
        proof {
            assert(answers@[i as int] == matched);
            assert forall|j: int| 0 <= j < i implies answers@[j] == before[j] by {}
            if answers@.contains(true) && !matched {
                let j = choose|j: int| 0 <= j < answers@.len() && answers@[j];
                assert(before.contains(before[j]));
            }
        }
        i = i + 1;
    }
    let yes: bool = any_of(&answers);
    proof {
        if yes {
            let j = choose|j: int| 0 <= j < answers@.len() && answers@[j];
            assert(may_answer(patterns[j], path@, answers@[j]));
        } else {
            assert forall|j: int| 0 <= j < patterns.len() implies may_answer(
                #[trigger] patterns[j],
                path@,
                false,
            ) && (!path@.contains('\\') ==> !glob_matches_on(patterns[j], path@, true)
                && !glob_matches_on(patterns[j], path@, false)) by {
                assert(answers@.contains(answers@[j]));
            }
        }
    }
    yes
}

/// The configuration counts the path as owned code, on one platform or the other.
pub open spec fn is_owned_on(
    config: ConfigView,
    path: Seq<char>,
    backslash_separates: bool,
) -> bool {
    any_glob_matches_on(config.owned_globs, path, backslash_separates) && !any_glob_matches_on(
        config.unowned_globs,
        path,
        backslash_separates,
    )
}

/// What the two filters of the configuration say of one file.
#[derive(Clone, Copy)]
pub struct Verdict {
    pub owned: bool,
    pub unowned: bool,
}

/// One of the files with this path is owned and not unowned.
pub open spec fn survives(
    listed: Seq<Seq<char>>,
    verdicts: Seq<Verdict>,
    path: Seq<char>,
) -> bool {
    exists|i: int|
        0 <= i < listed.len() && #[trigger] listed[i] == path && verdicts[i].owned
            && !verdicts[i].unowned
}

/// The pool holds the files that survive, each once, in order.
pub open spec fn is_pool(
    pool: Seq<Seq<char>>,
    listed: Seq<Seq<char>>,
    verdicts: Seq<Verdict>,
) -> bool {
    &&& strictly_sorted(pool)
    &&& forall|path: Seq<char>| #[trigger]
        pool.contains(path) <==> survives(listed, verdicts, path)
}

/// Collects the files that the filters let through, each once, in sorted order.
pub fn pool_of(listed: &Vec<String>, verdicts: &Vec<Verdict>) -> (pool: Vec<String>)
    requires
        verdicts@.len() == listed@.len(),
    ensures
        is_pool(texts(pool@), texts(listed@), verdicts@),
{
    let ghost files = texts(listed@);
    let mut pool: Vec<String> = Vec::new();
    let mut i: usize = 0;
    while i < listed.len()
        invariant
            files == texts(listed@),
            verdicts@.len() == listed@.len(),
            i <= listed@.len(),
            strictly_sorted(texts(pool@)),
            forall|path: Seq<char>| #[trigger]
                texts(pool@).contains(path) <==> survives(
                    files.take(i as int),
                    verdicts@,
                    path,
                ),
        decreases listed@.len() - i,
    {
        let ghost before = texts(pool@);
        let ghost file = files[i as int];
        let verdict: Verdict = verdicts[i];
        let keep: bool = verdict.owned && !verdict.unowned;
        if keep {
            insert_unique(&mut pool, listed[i].clone());
        }
        assert forall|path: Seq<char>| #[trigger]
            texts(pool@).contains(path) <==> survives(files.take(i + 1), verdicts@, path) by {
            let shorter = files.take(i as int);
            let longer = files.take(i + 1);
            if survives(shorter, verdicts@, path) {
                let k = choose|k: int|
                    0 <= k < shorter.len() && #[trigger] shorter[k] == path && verdicts@[k].owned
                        && !verdicts@[k].unowned;
                assert(longer[k] == path);
            }
            if survives(longer, verdicts@, path) {
                let k = choose|k: int|
                    0 <= k < longer.len() && #[trigger] longer[k] == path && verdicts@[k].owned
                        && !verdicts@[k].unowned;
                if k < i {
                    assert(shorter[k] == path);
                }
            }
            assert(longer[i as int] == file);
            assert(before.contains(path) <==> survives(shorter, verdicts@, path));
        }
        i = i + 1;
    }
    assert(files.take(i as int) =~= files);
    pool
}

/// The filters may let the path through: an owned pattern matches it on some platform,
/// and each unowned pattern misses it on some platform.
pub open spec fn may_be_kept(config: ConfigView, path: Seq<char>) -> bool {
    any_may_match(config.owned_globs, path) && all_may_miss(config.unowned_globs, path)
}

/// The filters may hold the path back: each owned pattern misses it on some platform,
/// or an unowned pattern matches it on some platform.
pub open spec fn may_be_dropped(config: ConfigView, path: Seq<char>) -> bool {
    all_may_miss(config.owned_globs, path) || any_may_match(config.unowned_globs, path)
}

/// The pool holds tracked files only, each once, in order, and those that the filters
/// let through. For a path without a backslash these are the owned files; for one with
/// a backslash the filters may answer as on either platform.
pub open spec fn is_owned_pool(
    pool: Seq<Seq<char>>,
    listed: Seq<Seq<char>>,
    config: ConfigView,
) -> bool {
    &&& strictly_sorted(pool)
    &&& forall|path: Seq<char>| #[trigger]
        pool.contains(path) ==> listed.contains(path) && may_be_kept(config, path)
    &&& forall|path: Seq<char>| #[trigger]
        listed.contains(path) && !pool.contains(path) ==> may_be_dropped(config, path)
    &&& forall|path: Seq<char>, backslash_separates: bool|
        #![trigger pool.contains(path), is_owned_on(config, path, backslash_separates)]
        !path.contains('\\') ==> (pool.contains(path) <==> listed.contains(path) && is_owned_on(
            config,
            path,
            backslash_separates,
        ))
}

/// The pool holds the owned files of one platform, each once, in order.
pub open spec fn is_pool_on(
    pool: Seq<Seq<char>>,
    listed: Seq<Seq<char>>,
    config: ConfigView,
    backslash_separates: bool,
) -> bool {
    &&& strictly_sorted(pool)
    &&& forall|path: Seq<char>| #[trigger]
        pool.contains(path) <==> listed.contains(path) && is_owned_on(
            config,
            path,
            backslash_separates,
        )
}

/// No path of the list holds a backslash.
pub open spec fn no_backslash(list: Seq<Seq<char>>) -> bool {
    forall|path: Seq<char>| #[trigger] list.contains(path) ==> !path.contains('\\')
}

proof fn lemma_pool_is_that_of_every_platform(
    pool: Seq<Seq<char>>,
    listed: Seq<Seq<char>>,
    config: ConfigView,
)
    requires
        is_owned_pool(pool, listed, config),
        no_backslash(listed),
    ensures
        forall|backslash_separates: bool| #[trigger]
            is_pool_on(pool, listed, config, backslash_separates),
{
    assert forall|backslash_separates: bool| #[trigger]
        is_pool_on(pool, listed, config, backslash_separates) by {
        assert forall|path: Seq<char>| #[trigger]
            pool.contains(path) <==> listed.contains(path) && is_owned_on(
                config,
                path,
                backslash_separates,
            ) by {
            let owned = is_owned_on(config, path, backslash_separates);
            assert(pool.contains(path) ==> listed.contains(path));
        }
    }
}

/// What the filters of the configuration say of a path is as [`matches_any`] has it.
spec fn is_judged(config: ConfigView, path: Seq<char>, verdict: Verdict) -> bool {
    &&& verdict.owned ==> any_may_match(config.owned_globs, path)
    &&& !verdict.owned ==> all_may_miss(config.owned_globs, path)
    &&& verdict.unowned ==> any_may_match(config.unowned_globs, path)
    &&& !verdict.unowned ==> all_may_miss(config.unowned_globs, path)
    &&& !path.contains('\\') ==> forall|backslash_separates: bool|
        (verdict.owned && !verdict.unowned) == #[trigger] is_owned_on(
            config,
            path,
            backslash_separates,
        )
}

proof fn lemma_judged_pool_is_owned_pool(
    pool: Seq<Seq<char>>,
    listed: Seq<Seq<char>>,
    verdicts: Seq<Verdict>,
    config: ConfigView,
)
    requires
        is_pool(pool, listed, verdicts),
        forall|i: int|
            0 <= i < listed.len() ==> is_judged(config, #[trigger] listed[i], verdicts[i]),
    ensures
        is_owned_pool(pool, listed, config),
{
    assert forall|path: Seq<char>| #[trigger] pool.contains(path) implies listed.contains(path)
        && may_be_kept(config, path) by {
        assert(survives(listed, verdicts, path));
        let k = choose|k: int|
            0 <= k < listed.len() && #[trigger] listed[k] == path && verdicts[k].owned
                && !verdicts[k].unowned;
        assert(is_judged(config, listed[k], verdicts[k]));
    }
    assert forall|path: Seq<char>| #[trigger]
        listed.contains(path) && !pool.contains(path) implies may_be_dropped(config, path) by {
        let k = choose|k: int| 0 <= k < listed.len() && listed[k] == path;
        assert(is_judged(config, listed[k], verdicts[k]));
        assert(!survives(listed, verdicts, path));
    }
    assert forall|path: Seq<char>, backslash_separates: bool|
        #![trigger pool.contains(path), is_owned_on(config, path, backslash_separates)]
        !path.contains('\\') implies (pool.contains(path) <==> listed.contains(path) && is_owned_on(
        config,
        path,
        backslash_separates,
    )) by {
        if pool.contains(path) {
            assert(survives(listed, verdicts, path));
            let k = choose|k: int|
                0 <= k < listed.len() && #[trigger] listed[k] == path && verdicts[k].owned
                    && !verdicts[k].unowned;
            assert(is_judged(config, listed[k], verdicts[k]));
        }
        if listed.contains(path) && is_owned_on(config, path, backslash_separates) {
            let k = choose|k: int| 0 <= k < listed.len() && listed[k] == path;
            assert(is_judged(config, listed[k], verdicts[k]));
            assert(survives(listed, verdicts, path));
        }
    }
}

/// The deterministic candidate pool for `validate <files>` cases: tracked files
/// that survive the same owned/unowned glob filter that validation applies, in
/// sorted order so every branch measures the same paths.
///
/// Whether a file with a backslash in its path is kept follows the matcher on the
/// platform at hand; which platform that is, is left unsaid: see [`glob_match`].
pub fn owned_file_pool(listed: &Vec<String>, config: &Config) -> (pool: Vec<String>)
    requires
        paths_fit(texts(listed@)),
        globs_fit(config@.owned_globs),
        globs_fit(config@.unowned_globs),
    ensures
        is_owned_pool(texts(pool@), texts(listed@), config@),
        no_backslash(texts(listed@)) ==> forall|backslash_separates: bool| #[trigger]
            is_pool_on(texts(pool@), texts(listed@), config@, backslash_separates),
        config@.owned_globs.len() == 0 ==> pool@.len() == 0,
        forall|i: int, j: int|
            0 <= i < j < pool@.len() ==> precedes(
                (#[trigger] pool@[i])@,
                (#[trigger] pool@[j])@,
            ),
        forall|path: Seq<char>| #[trigger]
            texts(pool@).contains(path) ==> texts(listed@).contains(path),
        forall|path: Seq<char>|
            !path.contains('\\') && texts(listed@).contains(path) ==> (#[trigger] texts(
                pool@,
            ).contains(path) <==> {
                &&& exists|i: int|
                    0 <= i < config.owned_globs@.len() && glob_matches_on(
                        (#[trigger] config.owned_globs@[i])@,
                        path,
                        false,
                    )
                &&& forall|j: int|
                    0 <= j < config.unowned_globs@.len() ==> !glob_matches_on(
                        (#[trigger] config.unowned_globs@[j])@,
                        path,
                        false,
                    )
            }),
{
    let ghost files = texts(listed@);
    let mut verdicts: Vec<Verdict> = Vec::new();
    let mut i: usize = 0;
    while i < listed.len()
        invariant
            files == texts(listed@),
            paths_fit(files),
            globs_fit(config@.owned_globs),
            globs_fit(config@.unowned_globs),
            i <= listed@.len(),
            verdicts@.len() == i,
            forall|j: int|
                0 <= j < i ==> is_judged(config@, #[trigger] files[j], verdicts@[j]),
        decreases listed@.len() - i,
    {
        assert(files[i as int] == listed@[i as int]@);
        let path: &str = listed[i].as_str();
        let owned: bool = matches_any(path, &config.owned_globs);
        let unowned: bool = matches_any(path, &config.unowned_globs);
        verdicts.push(Verdict { owned, unowned });
        i = i + 1;
    }
    let pool: Vec<String> = pool_of(listed, &verdicts);
    proof {
        lemma_judged_pool_is_owned_pool(texts(pool@), files, verdicts@, config@);
        if no_backslash(files) {
            lemma_pool_is_that_of_every_platform(texts(pool@), files, config@);
        }
        if pool@.len() > 0 {
            assert(texts(pool@).contains(texts(pool@)[0]));
        }
        let kept = texts(pool@);
        assert forall|i: int, j: int| 0 <= i < j < pool@.len() implies precedes(
            (#[trigger] pool@[i])@,
            (#[trigger] pool@[j])@,
        ) by {
            assert(precedes(kept[i], kept[j]));
        }
        let owned_globs = config@.owned_globs;
        let unowned_globs = config@.unowned_globs;
        assert(forall|i: int|
            0 <= i < owned_globs.len() ==> #[trigger] owned_globs[i] == config.owned_globs@[i]@);
        assert(forall|i: int|
            0 <= i < unowned_globs.len() ==> #[trigger] unowned_globs[i]
                == config.unowned_globs@[i]@);
        assert forall|path: Seq<char>|
            !path.contains('\\') && files.contains(path) implies (#[trigger] kept.contains(path)
            <==> {
            &&& exists|i: int|
                0 <= i < config.owned_globs@.len() && glob_matches_on(
                    (#[trigger] config.owned_globs@[i])@,
                    path,
                    false,
                )
            &&& forall|j: int|
                0 <= j < config.unowned_globs@.len() ==> !glob_matches_on(
                    (#[trigger] config.unowned_globs@[j])@,
                    path,
                    false,
                )
        }) by {
            law_owned_files_match_and_are_not_excluded(kept, files, config@, path);
            if exists|i: int|
                0 <= i < owned_globs.len() && glob_matches_on(
                    #[trigger] owned_globs[i],
                    path,
                    false,
                ) {
                let i = choose|i: int|
                    0 <= i < owned_globs.len() && glob_matches_on(
                        #[trigger] owned_globs[i],
                        path,
                        false,
                    );
                assert(glob_matches_on(config.owned_globs@[i]@, path, false));
            }
            if exists|i: int|
                0 <= i < config.owned_globs@.len() && glob_matches_on(
                    (#[trigger] config.owned_globs@[i])@,
                    path,
                    false,
                ) {
                let i = choose|i: int|
                    0 <= i < config.owned_globs@.len() && glob_matches_on(
                        (#[trigger] config.owned_globs@[i])@,
                        path,
                        false,
                    );
                assert(glob_matches_on(owned_globs[i], path, false));
            }
            assert forall|j: int|
                0 <= j < unowned_globs.len() && kept.contains(path) implies !glob_matches_on(
                (#[trigger] config.unowned_globs@[j])@,
                path,
                false,
            ) by {
                assert(!glob_matches_on(unowned_globs[j], path, false));
            }
        }
    }
    pool
}

/// The pool does not depend on the order in which git lists the files, nor on how
/// often it lists one: listings with the same surviving files give the same pool.
pub proof fn law_pool_ignores_listing_order(
    a: Seq<Seq<char>>,
    a_verdicts: Seq<Verdict>,
    a_pool: Seq<Seq<char>>,
    b: Seq<Seq<char>>,
    b_verdicts: Seq<Verdict>,
    b_pool: Seq<Seq<char>>,
)
    requires
        is_pool(a_pool, a, a_verdicts),
        is_pool(b_pool, b, b_verdicts),
        forall|path: Seq<char>|
            survives(a, a_verdicts, path) <==> survives(b, b_verdicts, path),
    ensures
        a_pool == b_pool,
{
    assert forall|path: Seq<char>| a_pool.contains(path) <==> b_pool.contains(path) by {
        assert(a_pool.contains(path) <==> survives(a, a_verdicts, path));
        assert(b_pool.contains(path) <==> survives(b, b_verdicts, path));
    }
    crate::order::law_sorted_list_is_unique(a_pool, b_pool);
}

/// Every branch measures the same paths: on one platform, under one configuration,
/// listings of the same files give the same pool.
pub proof fn law_same_files_give_same_pool(
    config: ConfigView,
    backslash_separates: bool,
    a: Seq<Seq<char>>,
    a_pool: Seq<Seq<char>>,
    b: Seq<Seq<char>>,
    b_pool: Seq<Seq<char>>,
)
    requires
        is_pool_on(a_pool, a, config, backslash_separates),
        is_pool_on(b_pool, b, config, backslash_separates),
        forall|path: Seq<char>| a.contains(path) <==> b.contains(path),
    ensures
        a_pool == b_pool,
{
    assert forall|path: Seq<char>| a_pool.contains(path) <==> b_pool.contains(path) by {
        assert(a.contains(path) <==> b.contains(path));
    }
    crate::order::law_sorted_list_is_unique(a_pool, b_pool);
}

/// On one platform, filtering a pool again changes nothing: the pool of a pool is the
/// pool.
pub proof fn law_pool_of_pool_is_the_pool(
    config: ConfigView,
    backslash_separates: bool,
    listed: Seq<Seq<char>>,
    pool: Seq<Seq<char>>,
    again: Seq<Seq<char>>,
)
    requires
        is_pool_on(pool, listed, config, backslash_separates),
        is_pool_on(again, pool, config, backslash_separates),
    ensures
        again == pool,
{
    assert forall|path: Seq<char>| again.contains(path) <==> pool.contains(path) by {}
    crate::order::law_sorted_list_is_unique(again, pool);
}

/// Files without a backslash in their path have the same pool on every platform.
/// So [`owned_file_pool`] gives one pool for all listings of them, and that pool again
/// for the pool itself.
pub proof fn law_pools_without_backslash_are_alike(
    config: ConfigView,
    a: Seq<Seq<char>>,
    a_pool: Seq<Seq<char>>,
    b: Seq<Seq<char>>,
    b_pool: Seq<Seq<char>>,
)
    requires
        is_owned_pool(a_pool, a, config),
        is_owned_pool(b_pool, b, config),
        no_backslash(a),
        b == a_pool || (forall|path: Seq<char>| a.contains(path) <==> b.contains(path)),
    ensures
        a_pool == b_pool,
{
    assert(no_backslash(b)) by {
        assert forall|path: Seq<char>| #[trigger] b.contains(path) implies !path.contains(
            '\\',
        ) by {
            assert(a.contains(path));
        }
    }
    lemma_pool_is_that_of_every_platform(a_pool, a, config);
    lemma_pool_is_that_of_every_platform(b_pool, b, config);
    assert(is_pool_on(a_pool, a, config, false));
    assert(is_pool_on(b_pool, b, config, false));
    if b == a_pool {
        law_pool_of_pool_is_the_pool(config, false, a, a_pool, b_pool);
    } else {
        law_same_files_give_same_pool(config, false, a, a_pool, b, b_pool);
    }
}

/// A listed file without a backslash in its path is in the pool exactly where one of
/// the owned patterns, whichever, matches it, and none of the unowned patterns does.
pub proof fn law_owned_files_match_and_are_not_excluded(
    pool: Seq<Seq<char>>,
    listed: Seq<Seq<char>>,
    config: ConfigView,
    path: Seq<char>,
)
    requires
        is_owned_pool(pool, listed, config),
        !path.contains('\\'),
    ensures
        pool.contains(path) <==> {
            &&& listed.contains(path)
            &&& exists|i: int|
                0 <= i < config.owned_globs.len() && glob_matches_on(
                    #[trigger] config.owned_globs[i],
                    path,
                    false,
                )
            &&& forall|j: int|
                0 <= j < config.unowned_globs.len() ==> !glob_matches_on(
                    #[trigger] config.unowned_globs[j],
                    path,
                    false,
                )
        },
{
    assert(pool.contains(path) <==> listed.contains(path) && is_owned_on(config, path, false));
}

/// A file of the pool is listed, and on one platform or the other an owned pattern
/// matches it and each unowned pattern misses it. A listed file that is not in the pool
/// is missed by each owned pattern or matched by an unowned one, in the same sense.
pub proof fn law_pool_follows_the_matcher(
    pool: Seq<Seq<char>>,
    listed: Seq<Seq<char>>,
    config: ConfigView,
    path: Seq<char>,
)
    requires
        is_owned_pool(pool, listed, config),
    ensures
        forall|i: int, j: int|
            0 <= i < j < pool.len() ==> precedes(#[trigger] pool[i], #[trigger] pool[j]),
        pool.contains(path) ==> {
            &&& listed.contains(path)
            &&& exists|i: int|
                0 <= i < config.owned_globs.len() && (glob_matches_on(
                    #[trigger] config.owned_globs[i],
                    path,
                    true,
                ) || glob_matches_on(config.owned_globs[i], path, false))
            &&& forall|j: int|
                0 <= j < config.unowned_globs.len() ==> !glob_matches_on(
                    #[trigger] config.unowned_globs[j],
                    path,
                    true,
                ) || !glob_matches_on(config.unowned_globs[j], path, false)
        },
        listed.contains(path) && !pool.contains(path) ==> {
            ||| forall|i: int|
                0 <= i < config.owned_globs.len() ==> !glob_matches_on(
                    #[trigger] config.owned_globs[i],
                    path,
                    true,
                ) || !glob_matches_on(config.owned_globs[i], path, false)
            ||| exists|j: int|
                0 <= j < config.unowned_globs.len() && (glob_matches_on(
                    #[trigger] config.unowned_globs[j],
                    path,
                    true,
                ) || glob_matches_on(config.unowned_globs[j], path, false))
        },
{
    if pool.contains(path) {
        assert(may_be_kept(config, path));
    }
    if listed.contains(path) && !pool.contains(path) {
        assert(may_be_dropped(config, path));
    }
}

/// The pool of a platform holds the listed files that one of the owned patterns matches
/// there and none of the unowned patterns does, each once, in order.
pub proof fn law_pool_on_a_platform_is_by_all_patterns(
    pool: Seq<Seq<char>>,
    listed: Seq<Seq<char>>,
    config: ConfigView,
    backslash_separates: bool,
)
    ensures
        is_pool_on(pool, listed, config, backslash_separates) <==> {
            &&& forall|i: int, j: int|
                0 <= i < j < pool.len() ==> precedes(#[trigger] pool[i], #[trigger] pool[j])
            &&& forall|path: Seq<char>| #[trigger]
                pool.contains(path) <==> {
                    &&& listed.contains(path)
                    &&& exists|i: int|
                        0 <= i < config.owned_globs.len() && glob_matches_on(
                            #[trigger] config.owned_globs[i],
                            path,
                            backslash_separates,
                        )
                    &&& forall|j: int|
                        0 <= j < config.unowned_globs.len() ==> !glob_matches_on(
                            #[trigger] config.unowned_globs[j],
                            path,
                            backslash_separates,
                        )
                }
        },
{
    if is_pool_on(pool, listed, config, backslash_separates) {
        assert forall|path: Seq<char>| #[trigger]
            pool.contains(path) <==> {
                &&& listed.contains(path)
                &&& exists|i: int|
                    0 <= i < config.owned_globs.len() && glob_matches_on(
                        #[trigger] config.owned_globs[i],
                        path,
                        backslash_separates,
                    )
                &&& forall|j: int|
                    0 <= j < config.unowned_globs.len() ==> !glob_matches_on(
                        #[trigger] config.unowned_globs[j],
                        path,
                        backslash_separates,
                    )
            } by {
            assert(pool.contains(path) <==> listed.contains(path) && is_owned_on(
                config,
                path,
                backslash_separates,
            ));
        }
    }
}

/// The verdicts decide of the pool: a path is in it exactly where one of the files
/// listed with it is owned and not unowned.
pub proof fn law_verdicts_decide_of_the_pool(
    pool: Seq<Seq<char>>,
    listed: Seq<Seq<char>>,
    verdicts: Seq<Verdict>,
)
    ensures
        is_pool(pool, listed, verdicts) <==> {
            &&& forall|i: int, j: int|
                0 <= i < j < pool.len() ==> precedes(#[trigger] pool[i], #[trigger] pool[j])
            &&& forall|path: Seq<char>| #[trigger]
                pool.contains(path) <==> exists|i: int|
                    0 <= i < listed.len() && #[trigger] listed[i] == path && verdicts[i].owned
                        && !verdicts[i].unowned
        },
{
    if is_pool(pool, listed, verdicts) {
        assert forall|path: Seq<char>| #[trigger]
            pool.contains(path) <==> exists|i: int|
                0 <= i < listed.len() && #[trigger] listed[i] == path && verdicts[i].owned
                    && !verdicts[i].unowned by {
            assert(pool.contains(path) <==> survives(listed, verdicts, path));
        }
    }
}

/// A list of patterns matches a path where one of them does, and misses it where each
/// of them does, on one platform or the other.
pub proof fn law_lists_of_patterns_match_by_any(
    globs: Seq<Seq<char>>,
    path: Seq<char>,
    backslash_separates: bool,
)
    ensures
        any_glob_matches_on(globs, path, backslash_separates) <==> exists|i: int|
            0 <= i < globs.len() && glob_matches_on(
                #[trigger] globs[i],
                path,
                backslash_separates,
            ),
        any_may_match(globs, path) <==> exists|i: int|
            0 <= i < globs.len() && (glob_matches_on(#[trigger] globs[i], path, true)
                || glob_matches_on(globs[i], path, false)),
        all_may_miss(globs, path) <==> forall|i: int|
            0 <= i < globs.len() ==> !glob_matches_on(#[trigger] globs[i], path, true)
                || !glob_matches_on(globs[i], path, false),
{
}

/// Of a configuration its patterns and the directory of the CODEOWNERS file are known.
pub proof fn law_config_view_is_the_fields(config: Config)
    ensures
        config@.owned_globs == texts(config.owned_globs@),
        config@.unowned_globs == texts(config.unowned_globs@),
        config@.codeowners_path == config.codeowners_path@,
{
}

/// The matcher reads patterns of up to 2,147,483,647 bytes and paths of up to
/// 4,294,967,293.
pub proof fn law_matcher_reads_long_texts(list: Seq<Seq<char>>, text: Seq<char>)
    ensures
        glob_fits(text) <==> encode_utf8(text).len() <= 2_147_483_647,
        path_fits(text) <==> encode_utf8(text).len() <= 4_294_967_293,
        globs_fit(list) <==> forall|i: int|
            0 <= i < list.len() ==> encode_utf8(#[trigger] list[i]).len() <= 2_147_483_647,
        paths_fit(list) <==> forall|i: int|
            0 <= i < list.len() ==> encode_utf8(#[trigger] list[i]).len() <= 4_294_967_293,
{
}

/// The corpus that was asked for is meant, whatever else there is; else the one that
/// the environment names, unless its value is empty; else the fixture.
pub proof fn law_first_match_names_the_corpus<P>(
    asked: P,
    env: Option<(P, usize)>,
    named: P,
    len: usize,
    fixture: P,
)
    ensures
        candidate_of(Some(asked), env, fixture) == asked,
        len > 0 ==> candidate_of(None, Some((named, len)), fixture) == named,
        candidate_of(None, Some((named, 0)), fixture) == fixture,
        candidate_of(None, None, fixture) == fixture,
{
}

/// A corpus is accepted, with its path, exactly where it can be read and has a
/// configuration; else it is told what it lacks.
pub proof fn law_corpus_is_accepted_with_its_configuration<P>(
    candidate: Seq<char>,
    located: Result<Located<P>, String>,
    corpus: Result<P, String>,
)
    requires
        is_resolution(candidate, located, corpus),
    ensures
        corpus is Ok <==> located is Ok && located->Ok_0.has_config,
        corpus is Ok ==> corpus->Ok_0 == located->Ok_0.path,
        located is Err ==> corpus->Err_0@ == "corpus "@ + candidate + " is not readable: "@
            + located->Err_0@,
        located is Ok && !located->Ok_0.has_config ==> corpus->Err_0@ == "corpus "@
            + located->Ok_0.shown@
            + " has no config/code_ownership.yml — is it a codeowners project?"@,
{
}

/// Where the filters say the same of a path whenever they are asked, as they do on any
/// one platform, both hold of every path: listings of the same files give the same
/// pool, and the pool of a pool is the pool.
pub proof fn law_steady_filters_give_one_pool(
    filters: spec_fn(Seq<char>) -> Verdict,
    a: Seq<Seq<char>>,
    a_verdicts: Seq<Verdict>,
    a_pool: Seq<Seq<char>>,
    b: Seq<Seq<char>>,
    b_verdicts: Seq<Verdict>,
    b_pool: Seq<Seq<char>>,
)
    requires
        is_pool(a_pool, a, a_verdicts),
        is_pool(b_pool, b, b_verdicts),
        forall|i: int| 0 <= i < a.len() ==> a_verdicts[i] == filters(#[trigger] a[i]),
        forall|i: int| 0 <= i < b.len() ==> b_verdicts[i] == filters(#[trigger] b[i]),
        b == a_pool || (forall|path: Seq<char>| a.contains(path) <==> b.contains(path)),
    ensures
        a_pool == b_pool,
{
    assert forall|path: Seq<char>|
        survives(a, a_verdicts, path) <==> survives(b, b_verdicts, path) by {
        lemma_survives_steady_filters(filters, a, a_verdicts, path);
        lemma_survives_steady_filters(filters, b, b_verdicts, path);
        assert(a_pool.contains(path) <==> survives(a, a_verdicts, path));
    }
    law_pool_ignores_listing_order(a, a_verdicts, a_pool, b, b_verdicts, b_pool);
}

proof fn lemma_survives_steady_filters(
    filters: spec_fn(Seq<char>) -> Verdict,
    listed: Seq<Seq<char>>,
    verdicts: Seq<Verdict>,
    path: Seq<char>,
)
    requires
        forall|i: int| 0 <= i < listed.len() ==> verdicts[i] == filters(#[trigger] listed[i]),
    ensures
        survives(listed, verdicts, path) <==> listed.contains(path) && filters(path).owned
            && !filters(path).unowned,
{
    if listed.contains(path) {
        let k = choose|k: int| 0 <= k < listed.len() && listed[k] == path;
        assert(verdicts[k] == filters(listed[k]));
    }
}

// ---------------------------------------------------------------------------
// The CODEOWNERS file
// ---------------------------------------------------------------------------

/// The way from the root of the corpus to its CODEOWNERS file: the directory that
/// the configuration names, then the file.
pub fn codeowners_path(config: &Config) -> (steps: Vec<String>)
    ensures
        texts(steps@) == seq![config@.codeowners_path, "CODEOWNERS"@],
{
    let steps: Vec<String> = vec![config.codeowners_path.clone(), "CODEOWNERS".to_owned()];
    assert(texts(steps@) =~= seq![config@.codeowners_path, "CODEOWNERS"@]);
    steps
}

/// Git reports changes of the file: it lies in the corpus, git was asked of it and
/// printed something.
pub open spec fn has_changes(relative: Option<Seq<char>>, status: Option<Seq<char>>) -> bool {
    relative is Some && status is Some && trimmed(status->0).len() > 0
}

/// The message for a CODEOWNERS file with changes.
pub open spec fn changes_text(relative: Seq<char>) -> Seq<char> {
    "corpus CODEOWNERS has uncommitted changes ("@ + trimmed(relative)
        + "). Commit or stash it first — the harness rewrites this file and restores it afterwards."@
}

/// Whatever git prints of the file besides white space is a change, staged or not, and
/// a file outside the corpus, or one that git could not be asked of, has none.
pub proof fn law_anything_printed_is_a_change(relative: Seq<char>, status: Seq<char>)
    ensures
        has_changes(Some(relative), Some(status)) <==> exists|i: int|
            0 <= i < status.len() && !is_white_space(#[trigger] status[i]),
        !has_changes(None, Some(status)),
        !has_changes(Some(relative), None),
        !has_changes(None, None),
        changes_text(relative) == "corpus CODEOWNERS has uncommitted changes ("@ + trimmed(relative)
            + "). Commit or stash it first — the harness rewrites this file and restores it afterwards."@,
{
    law_trimming_takes_white_space_alone(status);
}

/// A snapshot of the corpus CODEOWNERS file, to restore it from.
///
/// `generate` and `generate-and-validate` write to the corpus. Leaving someone's
/// working repo modified because they ran a benchmark is not acceptable, so the
/// file is snapshot up front and put back afterwards, byte for byte.
pub struct CodeownersGuard {
    original: Option<Vec<u8>>,
}

/// The bytes of a content that may be absent.
pub open spec fn optional_bytes(content: Option<Vec<u8>>) -> Option<Seq<u8>> {
    match content {
        Some(content) => Some(content@),
        None => None,
    }
}

/// What a file holds after a write over its present content, if it has one, or without
/// a write.
pub open spec fn after_write(present: Option<Seq<u8>>, write: Option<Seq<u8>>) -> Option<
    Seq<u8>,
> {
    match write {
        Some(content) => Some(content),
        None => present,
    }
}

/// Restoring leaves a file that could be read up front as it was, whatever was written
/// to it meanwhile, and where it was deleted too.
pub proof fn law_restore_brings_the_file_back(guard: CodeownersGuard, before: Seq<u8>)
    requires
        guard.original() == Some(before),
    ensures
        forall|present: Option<Seq<u8>>| #[trigger]
            after_write(present, guard.original()) == Some(before),
{
}

/// A write leaves its bytes, and without one the file stays as it is. The bytes of a
/// content are all of them.
pub proof fn law_writes_replace_the_content(
    present: Option<Seq<u8>>,
    written: Seq<u8>,
    content: Vec<u8>,
)
    ensures
        after_write(present, Some(written)) == Some(written),
        after_write(present, None) == present,
        optional_bytes(Some(content)) == Some(content@),
        optional_bytes(None) == None::<Seq<u8>>,
{
}

impl CodeownersGuard {
    /// The content that was read up front.
    pub closed spec fn original(&self) -> Option<Seq<u8>> {
        optional_bytes(self.original)
    }

    /// Takes a snapshot of the file. `relative` is its path below the corpus,
    /// `status` what `git status --porcelain` printed of it, and `content` the bytes
    /// that it holds, as far as each could be had.
    ///
    /// A corpus whose CODEOWNERS is already modified is refused: the harness could
    /// not tell its own writes apart from the user's, and restoring would silently
    /// clobber their work.
    pub fn acquire(relative: Option<&str>, status: Option<&str>, content: Option<Vec<u8>>) -> (guard:
        Result<Self, String>)
        ensures
            relative is None || status is None ==> guard is Ok,
            relative is Some && status is Some ==> (guard is Err <==> exists|i: int|
                0 <= i < status->0@.len() && !is_white_space(#[trigger] status->0@[i])),
            guard is Ok && content is None ==> guard->Ok_0.original() is None,
            guard is Ok && content is Some ==> guard->Ok_0.original() == Some(content->0@),
            match guard {
                Ok(guard) => {
                    &&& !has_changes(optional_str(relative), optional_str(status))
                    &&& guard.original() == optional_bytes(content)
                },
                Err(message) => {
                    &&& has_changes(optional_str(relative), optional_str(status))
                    &&& message@ == changes_text(relative->0@)
                },
            },
    {
        if let (Some(relative), Some(status)) = (relative, status) {
            let printed: String = trim(status);
            proof {
                law_trimming_takes_white_space_alone(status@);
            }
            if !printed.as_str().is_empty() {
                let mut message: String = String::from_str(
                    "corpus CODEOWNERS has uncommitted changes (",
                );
                message.append(trim(relative).as_str());
                message.append(
                    "). Commit or stash it first — the harness rewrites this file and restores it afterwards.",
                );
                return Err(message);
            }
        }
        Ok(CodeownersGuard { original: content })
    }

    /// What has to be written to the file to restore it. Nothing is written where
    /// nothing could be read up front.
    pub fn to_write(&self) -> (content: Option<Vec<u8>>)
        ensures
            optional_bytes(content) == self.original(),
            content is Some <==> self.original() is Some,
            content is Some ==> content->0@ == self.original()->0,
    {
        match &self.original {
            Some(content) => Some(slice_to_vec(content.as_slice())),
            None => None,
        }
    }
}

} // verus!
