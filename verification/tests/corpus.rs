use codeowners_perf::corpus::{
    any_of, codeowners_path, corpus_candidate, git_output, matcher_fits, matches_any, owned_file_pool, pool_of,
    resolve_corpus, tracked_files, CodeownersGuard, Config, Located, Verdict, CONFIG_PATH,
    CORPUS_VARIABLE,
};

fn strings(list: &[&str]) -> Vec<String> {
    list.iter().map(|s| s.to_string()).collect()
}

fn config(owned: &[&str], unowned: &[&str]) -> Config {
    Config {
        owned_globs: strings(owned),
        unowned_globs: strings(unowned),
        codeowners_path: ".github".to_string(),
    }
}

#[test]
fn first_match_names_the_corpus() {
    assert_eq!(corpus_candidate(Some("flag"), Some(("env", 3)), "fixture"), "flag");
    assert_eq!(corpus_candidate(None, Some(("env", 3)), "fixture"), "env");
    assert_eq!(corpus_candidate(None, Some(("", 0)), "fixture"), "fixture");
    assert_eq!(corpus_candidate(None, None, "fixture"), "fixture");
    assert_eq!(CORPUS_VARIABLE, "CODEOWNERS_PERF_CORPUS");
    assert_eq!(CONFIG_PATH, "config/code_ownership.yml");
}

#[test]
fn corpus_has_to_be_readable() {
    let unreadable: Result<Located<u8>, String> = Err("No such file or directory (os error 2)".to_string());
    assert_eq!(
        resolve_corpus("../gone", unreadable),
        Err("corpus ../gone is not readable: No such file or directory (os error 2)".to_string())
    );
    let located = Located { path: 7u8, shown: "/x".to_string(), has_config: true };
    assert_eq!(resolve_corpus("x", Ok(located)), Ok(7));
}

/// A file system with one corpus, at `/srv/x`, that can also be reached by `x`.
fn located(candidate: &str) -> Result<Located<String>, String> {
    if candidate == "x" || candidate == "/srv/x" {
        Ok(Located { path: "/srv/x".to_string(), shown: "/srv/x".to_string(), has_config: true })
    } else {
        Err("No such file or directory (os error 2)".to_string())
    }
}

#[test]
fn a_resolved_corpus_resolves_to_itself() {
    let first = corpus_candidate(None, Some(("x".to_string(), 1)), "fixture".to_string());
    let corpus = resolve_corpus(&first, located(&first));
    assert_eq!(corpus, Ok("/srv/x".to_string()));
    let again = corpus_candidate(corpus.ok(), Some(("gone".to_string(), 4)), "fixture".to_string());
    assert_eq!(resolve_corpus(&again, located(&again)), Ok("/srv/x".to_string()));
}

#[test]
fn files_are_listed_line_by_line() {
    assert_eq!(tracked_files(Some("a.rb\nb c.rb\n")), strings(&["a.rb", "b c.rb"]));
    assert!(tracked_files(Some("")).is_empty());
    assert!(tracked_files(None).is_empty());
    assert_eq!(git_output(true, "abc\n".to_string()), Some("abc\n".to_string()));
    assert_eq!(git_output(false, "abc\n".to_string()), None);
}

#[test]
fn globs_are_matched() {
    assert!(matches_any("ruby/app/a.rb", &strings(&["*.js", "ruby/**/*.rb"])));
    assert!(!matches_any("ruby/app/a.rb", &strings(&["*.js", "*.rb"])));
    assert!(!matches_any("ruby/app/a.rb", &vec![]));
    assert!(matches_any("a.rb", &strings(&["?.{rb,js}"])));
}

#[test]
fn one_answer_is_enough() {
    assert!(any_of(&vec![false, true, false]));
    assert!(!any_of(&vec![false, false]));
    assert!(!any_of(&vec![]));
}

#[test]
fn the_platform_decides_of_backslashes() {
    let separates = std::path::is_separator('\\');
    assert_eq!(matches_any("dir\\a.rb", &strings(&["*.rb"])), !separates);
    assert!(matches_any("dir\\a.rb", &strings(&["**/*.rb"])));
    assert!(!matches_any("dir\\a.rb", &strings(&["**/*.js"])));
    let files = strings(&["dir\\a.rb", "b.rb", "dir\\a.js"]);
    assert_eq!(owned_file_pool(&files, &config(&["**/*.rb"], &[])), strings(&["b.rb", "dir\\a.rb"]));
}

#[test]
fn pool_of_a_pool_is_the_pool() {
    let files = strings(&["b.rb", "x/a.rb", "skip.rb", "b.rb", "README.md", "dir\\a.rb"]);
    let config = config(&["**/*.rb"], &["skip.rb"]);
    let pool = owned_file_pool(&files, &config);
    assert_eq!(pool, strings(&["b.rb", "dir\\a.rb", "x/a.rb"]));
    assert_eq!(owned_file_pool(&pool, &config), pool);
}

#[test]
fn pool_is_filtered_sorted_and_without_repeats() {
    let files = strings(&["b/x.rb", "a/y.rb", "a/skip.rb", "b/x.rb", "README.md", "a/x.rb"]);
    let config = config(&["**/*.rb"], &["**/skip.rb"]);
    assert!(matcher_fits(&files, &config));
    assert_eq!(owned_file_pool(&files, &config), strings(&["a/x.rb", "a/y.rb", "b/x.rb"]));
}

#[test]
fn pool_does_not_depend_on_the_listing() {
    let config = config(&["**/*.rb"], &[]);
    let one = strings(&["c.rb", "a.rb", "b.rb", "a.rb"]);
    let other = strings(&["a.rb", "b.rb", "c.rb"]);
    assert_eq!(owned_file_pool(&one, &config), owned_file_pool(&other, &config));
}

#[test]
fn pool_follows_the_verdicts() {
    let files = strings(&["d", "c", "b", "a"]);
    let verdicts = vec![
        Verdict { owned: true, unowned: false },
        Verdict { owned: true, unowned: true },
        Verdict { owned: false, unowned: false },
        Verdict { owned: true, unowned: false },
    ];
    assert_eq!(pool_of(&files, &verdicts), strings(&["a", "d"]));
}

#[test]
fn pool_without_owned_globs_is_empty() {
    assert!(owned_file_pool(&strings(&["a.rb"]), &config(&[], &[])).is_empty());
}

#[test]
fn codeowners_file_lies_where_the_configuration_says() {
    assert_eq!(codeowners_path(&config(&[], &[])), strings(&[".github", "CODEOWNERS"]));
}

fn accepted(relative: Option<&str>, status: Option<&str>) -> bool {
    CodeownersGuard::acquire(relative, status, None).is_ok()
}

#[test]
fn only_reported_changes_are_refused() {
    assert!(accepted(Some("CODEOWNERS"), Some("")));
    assert!(accepted(Some("CODEOWNERS"), Some(" \n")));
    assert!(accepted(Some("CODEOWNERS"), None));
    assert!(accepted(None, Some(" M CODEOWNERS")));
    assert!(!accepted(Some("CODEOWNERS"), Some("?? CODEOWNERS\n")));
}

#[test]
fn bytes_that_are_no_text_are_restored() {
    let before: Vec<u8> = vec![0x23, 0x20, 0xff, 0xfe, 0x00, 0x0a];
    match CodeownersGuard::acquire(Some("CODEOWNERS"), Some(""), Some(before.clone())) {
        Ok(guard) => assert_eq!(guard.to_write(), Some(before)),
        Err(message) => panic!("{message}"),
    }
}

#[test]
fn nothing_is_written_where_nothing_was_read() {
    match CodeownersGuard::acquire(Some("CODEOWNERS"), Some(""), None) {
        Ok(guard) => assert!(guard.to_write().is_none()),
        Err(message) => panic!("{message}"),
    }
}
