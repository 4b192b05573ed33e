use command_runner::command::Command;
use command_runner::errors::Error;
use command_runner::errors::ErrorKind;
use command_runner::placeholder::contains_placeholder;
use command_runner::placeholder::replace_placeholder;
use command_runner::placeholder::Substitutions;
use command_runner::text::contains_substring;
use command_runner::text::join_with;

fn templated(args: &[&str]) -> Command {
    Command::new(
        "greet".to_string(),
        "echo".to_string(),
        args.iter().map(|a| a.to_string()).collect(),
    )
}

fn single(key: &str, value: &str) -> Substitutions {
    let mut subs = Substitutions::new();
    subs.insert(key.to_string(), value.to_string());
    subs
}

#[test]
fn placeholder_substitution_replaces_the_whole_brace_span() {
    let cmd = templated(&["{x}"]);
    let resolved = cmd.resolved_args(&single("{x}", "hello")).unwrap();
    assert_eq!(resolved, vec!["hello".to_string()]);
}

#[test]
fn empty_substitution_map_passes_templates_through_verbatim() {
    let cmd = templated(&["{x}"]);
    let resolved = cmd.resolved_args(&Substitutions::new()).unwrap();
    assert_eq!(resolved, vec!["{x}".to_string()]);
}

#[test]
fn empty_replacement_value_fails() {
    let cmd = templated(&["{x}"]);
    let e = cmd.resolved_args(&single("{x}", "")).unwrap_err();
    assert_eq!(e.kind, ErrorKind::EmptyReplacement);
    assert_eq!(e.status_code(), 400);
    assert_eq!(
        e.describe(),
        "Replacement resulted in an empty argument for command: echo"
    );
}

#[test]
fn missing_key_fails() {
    let cmd = templated(&["{x}"]);
    let e = cmd.resolved_args(&single("{y}", "hello")).unwrap_err();
    assert_eq!(e.kind, ErrorKind::MissingPlaceholder);
    assert_eq!(e.status_code(), 400);
    assert_eq!(
        e.describe(),
        "Not enough arguments provided for command: echo"
    );
}

#[test]
fn lookup_key_is_the_whole_original_argument() {
    let cmd = templated(&["pre-{x}-post"]);
    let e = cmd.resolved_args(&single("{x}", "v")).unwrap_err();
    assert_eq!(e.kind, ErrorKind::MissingPlaceholder);
    let resolved = cmd.resolved_args(&single("pre-{x}-post", "v")).unwrap();
    assert_eq!(resolved, vec!["pre-v-post".to_string()]);
}

#[test]
fn plain_arguments_pass_through_beside_templated_ones() {
    let cmd = templated(&["plain", "{x}", "also-plain"]);
    let resolved = cmd.resolved_args(&single("{x}", "v")).unwrap();
    assert_eq!(
        resolved,
        vec!["plain".to_string(), "v".to_string(), "also-plain".to_string()]
    );
}

#[test]
fn first_failing_argument_decides_the_error() {
    let cmd = templated(&["{a}", "{b}"]);
    let mut subs = Substitutions::new();
    subs.insert("{a}".to_string(), "".to_string());
    subs.insert("{b}".to_string(), "x".to_string());
    let e = cmd.resolved_args(&subs).unwrap_err();
    assert_eq!(e.kind, ErrorKind::EmptyReplacement);
}

#[test]
fn brace_span_is_matched_greedily_within_one_argument() {
    assert_eq!(replace_placeholder("a{b}c{d}e", "X"), "aXe");
    assert_eq!(replace_placeholder("{}", "v"), "v");
    assert_eq!(replace_placeholder("{whole}", "w"), "w");
    assert_eq!(replace_placeholder("x{k}", "1"), "x1");
}

#[test]
fn placeholder_detection_needs_an_open_before_a_close() {
    assert!(contains_placeholder("{x}"));
    assert!(contains_placeholder("{}"));
    assert!(contains_placeholder("a{b}c"));
    assert!(!contains_placeholder("plain"));
    assert!(!contains_placeholder("}{"));
    assert!(!contains_placeholder("{open"));
    assert!(!contains_placeholder("close}"));
    assert!(!contains_placeholder(""));
}

#[test]
fn later_binding_for_the_same_key_wins() {
    let mut subs = Substitutions::new();
    subs.insert("{x}".to_string(), "old".to_string());
    subs.insert("{x}".to_string(), "new".to_string());
    let cmd = templated(&["{x}"]);
    let resolved = cmd.resolved_args(&subs).unwrap();
    assert_eq!(resolved, vec!["new".to_string()]);
}

#[test]
fn substitution_lookup_reports_emptiness_and_membership() {
    let subs = Substitutions::new();
    assert!(subs.is_empty());
    let subs = single("{x}", "v");
    assert!(!subs.is_empty());
    assert_eq!(subs.get(&"{x}".to_string()), Some(&"v".to_string()));
    assert_eq!(subs.get(&"{y}".to_string()), None);
}

#[test]
fn substring_search_is_contiguous_and_case_sensitive() {
    assert!(contains_substring("foobar", "oob"));
    assert!(contains_substring("foobar", ""));
    assert!(contains_substring("foobar", "foobar"));
    assert!(!contains_substring("foobar", "Foobar"));
    assert!(!contains_substring("foobar", "fb"));
    assert!(!contains_substring("fo", "foo"));
    assert!(contains_substring("héllo", "éll"));
}

#[test]
fn error_context_chain_joins_in_order() {
    let e = Error::new(ErrorKind::NotFound)
        .attach("inner detail")
        .attach("outer operation");
    assert_eq!(e.describe(), "inner detail: outer operation");
    assert_eq!(Error::new(ErrorKind::NotFound).describe(), "");
}

#[test]
fn every_error_kind_carries_its_http_status() {
    let cases = [
        (ErrorKind::NotFound, 404),
        (ErrorKind::Conflict, 409),
        (ErrorKind::MissingPlaceholder, 400),
        (ErrorKind::EmptyReplacement, 400),
        (ErrorKind::SpawnFailed, 500),
        (ErrorKind::PersistenceFailed, 500),
        (ErrorKind::InvalidConfiguration, 500),
        (ErrorKind::InvalidIdentifier, 400),
        (ErrorKind::InvalidOutput, 500),
    ];
    for (kind, status) in cases {
        assert_eq!(Error::new(kind).status_code(), status);
    }
}

#[test]
fn join_with_separates_only_neighbours() {
    let parts = vec!["a".to_string(), "b".to_string(), "c".to_string()];
    assert_eq!(join_with(&parts, ", "), "a, b, c");
    assert_eq!(join_with(&vec!["solo".to_string()], ", "), "solo");
    assert_eq!(join_with(&Vec::new(), ", "), "");
}
