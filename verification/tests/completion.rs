use gws_completion::candidates::{
    auth_command_candidates, completion_command_candidates, filter_candidates,
    top_level_candidates,
};
use gws_completion::command::{command_candidates, ArgSpec, CommandSpec};
use gws_completion::request::{parse_complete_request, recombine_bash_wordbreaks};
use gws_completion::services::resolve_completion_service;
use gws_completion::shell::{completion_script, Shell};
use gws_completion::words::normalize_completion_words;

#[test]
fn completion_script_contains_hidden_complete_command() {
    assert!(completion_script(Shell::Bash).contains("gws __complete"));
    assert!(completion_script(Shell::Zsh).contains("gws __complete"));
    assert!(completion_script(Shell::Fish).contains("gws __complete"));
}

#[test]
fn zsh_completion_is_an_autoloadable_function_body() {
    let script = completion_script(Shell::Zsh);
    assert!(script.starts_with("#compdef gws"));
    assert!(!script.contains("_gws()"));
    assert!(!script.contains("compdef _gws"));
}

#[test]
fn parse_complete_request_keeps_words_after_separator() {
    let args = vec![
        "--shell".to_string(),
        "bash".to_string(),
        "--current".to_string(),
        "dr".to_string(),
        "--".to_string(),
        "gws".to_string(),
        "dr".to_string(),
    ];

    let request = parse_complete_request(&args, None);
    assert_eq!(request.current.as_deref(), Some("dr"));
    assert_eq!(request.shell, Some(Shell::Bash));
    assert_eq!(request.words, vec!["gws", "dr"]);
}

#[test]
fn recombine_bash_wordbreaks_preserves_service_and_equals_overrides() {
    let words = vec![
        "gws".to_string(),
        "drive".to_string(),
        ":".to_string(),
        "v3".to_string(),
        "--api-version".to_string(),
        "=".to_string(),
        "v2".to_string(),
        "files".to_string(),
    ];
    let (combined, current_index) = recombine_bash_wordbreaks(&words, Some(7));
    assert_eq!(
        combined,
        vec!["gws", "drive:v3", "--api-version=v2", "files"]
    );
    assert_eq!(current_index, Some(3));
}

#[test]
fn normalize_words_removes_program_and_current_word() {
    let words = vec!["gws".to_string(), "dr".to_string()];
    let (completed, current) = normalize_completion_words(&words, Some("dr"));
    assert!(completed.is_empty());
    assert_eq!(current, "dr");
}

#[test]
fn top_level_candidates_include_services_and_builtins() {
    let candidates = filter_candidates(top_level_candidates(), "dr");
    assert_eq!(candidates, vec!["drive"]);

    let candidates = filter_candidates(top_level_candidates(), "auth");
    assert_eq!(candidates, vec!["auth"]);
}

#[test]
fn completion_command_suggests_supported_shells() {
    let candidates = filter_candidates(completion_command_candidates(&[]), "b");
    assert_eq!(candidates, vec!["bash"]);
}

#[test]
fn auth_command_suggests_login_flags() {
    let candidates = filter_candidates(auth_command_candidates(&["login".to_string()]), "--r");
    assert_eq!(candidates, vec!["--readonly"]);
}

#[test]
fn command_candidates_walk_subcommands_and_flags() {
    let command = CommandSpec::new("gws").subcommand(
        CommandSpec::new("files")
            .subcommand(CommandSpec::new("list").arg(ArgSpec::new().long("params"))),
    );

    let candidates =
        filter_candidates(command_candidates(&command, &["files".to_string()]), "li");
    assert_eq!(candidates, vec!["list"]);

    let candidates = filter_candidates(
        command_candidates(&command, &["files".to_string(), "list".to_string()]),
        "--p",
    );
    assert!(candidates.contains(&"--params".to_string()));
}

#[test]
fn command_candidates_do_not_suggest_flags_for_helper_option_values() {
    let command = CommandSpec::new("gws").subcommand(
        CommandSpec::new("+meeting-prep").arg(ArgSpec::new().long("calendar")),
    );

    let candidates = command_candidates(
        &command,
        &["+meeting-prep".to_string(), "--calendar".to_string()],
    );
    assert!(candidates.is_empty());
}

#[test]
fn completion_service_resolves_alias_before_colon_version_override() {
    assert_eq!(
        resolve_completion_service("wf:v1", &[]).unwrap(),
        ("workflow".to_string(), "v1".to_string())
    );
    assert_eq!(
        resolve_completion_service("reports:reports_v1", &[]).unwrap(),
        ("admin".to_string(), "reports_v1".to_string())
    );
}

#[test]
fn completion_service_applies_api_version_flag_override() {
    assert_eq!(
        resolve_completion_service("drive", &["--api-version".to_string(), "v2".to_string()])
            .unwrap(),
        ("drive".to_string(), "v2".to_string())
    );
    assert_eq!(
        resolve_completion_service("drive:v3", &["--api-version=v2".to_string()]).unwrap(),
        ("drive".to_string(), "v2".to_string())
    );
}
