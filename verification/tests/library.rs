use gws_completion::candidates::{
    auth_command_candidates, completion_command_candidates, filter_candidates,
    top_level_candidates,
};
use gws_completion::command::{
    command_candidates, command_flag_candidates, command_option_expects_value, ArgSpec,
    CommandSpec,
};
use gws_completion::complete::{
    complete_normalized, completion_candidates, service_command_candidates, CompletionStep,
};
use gws_completion::error::GwsError;
use gws_completion::flags::{
    is_equals_option, leading_options_end, option_expects_value, strip_leading_global_options,
};
use gws_completion::request::{
    completion_word_index, current_at_index, parse_complete_request, recombine_bash_wordbreaks,
};
use gws_completion::services::{resolve_completion_service, resolve_service, services};
use gws_completion::shell::{completion_script, handle_completion_command, CompletionOutput, Shell};
use gws_completion::text::{glue, substring};
use gws_completion::words::{
    is_gws_program, normalize_completion_words, normalize_completion_words_with,
};

fn strings(items: &[&str]) -> Vec<String> {
    items.iter().map(|s| s.to_string()).collect()
}

fn candidates_of(step: Option<CompletionStep>) -> Vec<String> {
    match step {
        Some(CompletionStep::Candidates(c)) => c,
        other => panic!("expected candidates, got {:?}", other),
    }
}

#[test]
fn completion_command_without_argument_shows_usage() {
    assert_eq!(handle_completion_command(&[]).unwrap(), CompletionOutput::Usage);
    assert_eq!(handle_completion_command(&strings(&["--help"])).unwrap(), CompletionOutput::Usage);
    assert_eq!(handle_completion_command(&strings(&["-h", "zsh"])).unwrap(), CompletionOutput::Usage);
}

#[test]
fn completion_command_selects_the_named_shell() {
    assert_eq!(
        handle_completion_command(&strings(&["zsh"])).unwrap(),
        CompletionOutput::Script(Shell::Zsh)
    );
    assert_eq!(
        handle_completion_command(&strings(&["fish", "extra"])).unwrap(),
        CompletionOutput::Script(Shell::Fish)
    );
}

#[test]
fn completion_command_rejects_an_unknown_shell() {
    match handle_completion_command(&strings(&["pwsh"])) {
        Err(GwsError::Validation(m)) => assert_eq!(
            m,
            "Unsupported shell 'pwsh'. Usage: gws completion <bash|zsh|fish>"
        ),
        other => panic!("unexpected {:?}", other),
    }
}

#[test]
fn shell_names_are_case_sensitive() {
    assert_eq!(Shell::parse("bash"), Some(Shell::Bash));
    assert_eq!(Shell::parse("fish"), Some(Shell::Fish));
    assert_eq!(Shell::parse("Bash"), None);
    assert_eq!(Shell::parse(""), None);
}

#[test]
fn completion_offers_exactly_the_supported_shells() {
    let names = completion_command_candidates(&[]);
    for name in &names {
        assert!(Shell::parse(name).is_some());
    }
    assert_eq!(names, vec!["bash", "zsh", "fish"]);
    assert!(completion_command_candidates(&strings(&["bash"])).is_empty());
}

#[test]
fn request_uses_comp_cword_when_no_current_is_given() {
    let args = strings(&["--shell", "zsh", "--", "gws", "drive", "fi"]);
    let request = parse_complete_request(&args, Some(2));
    assert_eq!(request.shell, Some(Shell::Zsh));
    assert_eq!(request.words, vec!["gws", "drive", "fi"]);
    assert_eq!(request.current.as_deref(), Some("fi"));

    let request = parse_complete_request(&args, Some(9));
    assert_eq!(request.current.as_deref(), Some(""));

    let request = parse_complete_request(&args, None);
    assert_eq!(request.current, None);
}

#[test]
fn bash_request_recombines_words_and_moves_the_index() {
    let args = strings(&["--shell", "bash", "--", "gws", "drive", ":", "v3"]);
    let request = parse_complete_request(&args, Some(3));
    assert_eq!(request.words, vec!["gws", "drive:v3"]);
    assert_eq!(request.current.as_deref(), Some("drive:v3"));

    let request = parse_complete_request(&args, Some(4));
    assert_eq!(request.current.as_deref(), Some(""));
}

#[test]
fn request_options_without_values() {
    let request = parse_complete_request(&strings(&["gws", "--shell"]), None);
    assert_eq!(request.shell, None);
    assert_eq!(request.words, vec!["gws"]);

    let request = parse_complete_request(&strings(&["--shell", "tcsh", "gws"]), Some(0));
    assert_eq!(request.shell, None);
    assert_eq!(request.current.as_deref(), Some("gws"));

    let request = parse_complete_request(&strings(&["--current"]), Some(0));
    assert_eq!(request.current.as_deref(), Some(""));
    assert!(request.words.is_empty());
}

#[test]
fn words_after_separator_are_kept_verbatim() {
    let request =
        parse_complete_request(&strings(&["--current", "x", "--", "--shell", "fish", "--"]), None);
    assert_eq!(request.shell, None);
    assert_eq!(request.current.as_deref(), Some("x"));
    assert_eq!(request.words, vec!["--shell", "fish", "--"]);
}

#[test]
fn comp_cword_is_a_decimal_index() {
    assert_eq!(completion_word_index(Some("3")), Some(3));
    assert_eq!(completion_word_index(Some("+7")), Some(7));
    assert_eq!(completion_word_index(Some("0012")), Some(12));
    assert_eq!(completion_word_index(Some("-1")), None);
    assert_eq!(completion_word_index(Some("")), None);
    assert_eq!(completion_word_index(Some("+")), None);
    assert_eq!(completion_word_index(Some("4x")), None);
    assert_eq!(completion_word_index(Some(" 4")), None);
    assert_eq!(completion_word_index(None), None);
    let max = usize::MAX.to_string();
    assert_eq!(completion_word_index(Some(&max)), Some(usize::MAX));
    let over = format!("{}0", usize::MAX);
    assert_eq!(completion_word_index(Some(&over)), None);
}

#[test]
fn current_word_past_the_end_is_empty() {
    let words = strings(&["gws", "drive"]);
    assert_eq!(current_at_index(&words, Some(1)).as_deref(), Some("drive"));
    assert_eq!(current_at_index(&words, Some(5)).as_deref(), Some(""));
    assert_eq!(current_at_index(&words, None), None);
}

#[test]
fn recombining_keeps_every_character() {
    let words = strings(&[":", "gws", "=", "a", "b", "="]);
    let (combined, index) = recombine_bash_wordbreaks(&words, Some(5));
    assert_eq!(combined, vec![":", "gws=a", "b="]);
    assert_eq!(combined.join(""), words.join(""));
    assert_eq!(index, Some(2));
    let (_, index) = recombine_bash_wordbreaks(&words, Some(6));
    assert_eq!(index, Some(3));
    let (_, index) = recombine_bash_wordbreaks(&words, None);
    assert_eq!(index, None);
}

#[test]
fn global_options_are_recognised() {
    assert!(option_expects_value("--format"));
    assert!(option_expects_value("-o"));
    assert!(!option_expects_value("--help"));
    assert!(!option_expects_value("--format=json"));
    assert!(is_equals_option("--format=table"));
    assert!(is_equals_option("--upload-content-type=text/plain"));
    assert!(!is_equals_option("-o=file"));
    assert!(!is_equals_option("--formatx"));
    assert!(!is_equals_option("--format"));
}

#[test]
fn leading_global_options_are_dropped() {
    let words = strings(&["--format", "json", "-V", "--page-limit=3", "drive", "--help"]);
    assert_eq!(strip_leading_global_options(&words), vec!["drive", "--help"]);
    assert_eq!(leading_options_end(&words), Some(4));
    let words = strings(&["--dry-run", "drive"]);
    assert_eq!(strip_leading_global_options(&words), vec!["--dry-run", "drive"]);
    let words = strings(&["-h", "--format"]);
    assert_eq!(leading_options_end(&words), None);
}

#[test]
fn program_names_are_recognised_by_file_name() {
    assert!(is_gws_program("gws"));
    assert!(is_gws_program("gws.exe"));
    assert!(is_gws_program("run.js"));
    assert!(is_gws_program("/usr/local/bin/gws"));
    assert!(is_gws_program("./node_modules/gws/bin/run.js"));
    assert!(!is_gws_program("gwsx"));
    assert!(!is_gws_program("/usr/bin/"));
    assert!(!is_gws_program(""));
    assert!(!is_gws_program("drive"));
}

#[test]
fn normalizing_drops_a_program_path_and_the_empty_current_word() {
    let words = strings(&["/opt/bin/gws", "drive", ""]);
    let (completed, current) = normalize_completion_words(&words, None);
    assert_eq!(completed, vec!["drive"]);
    assert_eq!(current, "");

    let words = strings(&["drive", "files"]);
    let (completed, current) = normalize_completion_words(&words, None);
    assert_eq!(completed, vec!["drive"]);
    assert_eq!(current, "files");

    let (completed, current) = normalize_completion_words_with(&words, Some("x"), true);
    assert_eq!(completed, vec!["files"]);
    assert_eq!(current, "x");

    let (completed, current) = normalize_completion_words(&[], None);
    assert!(completed.is_empty());
    assert_eq!(current, "");
}

#[test]
fn filtering_sorts_and_removes_repeats() {
    let c = strings(&["b", "a", "b", "c", "ab"]);
    assert_eq!(filter_candidates(c.clone(), ""), vec!["a", "ab", "b", "c"]);
    assert_eq!(filter_candidates(c, "a"), vec!["a", "ab"]);
    let c = strings(&["é", "z", "Z", "-h", "--help"]);
    assert_eq!(filter_candidates(c, ""), vec!["--help", "-h", "Z", "z", "é"]);
}

#[test]
fn filtering_twice_changes_nothing() {
    let c = strings(&["--help", "drive", "docs", "drive", "-h"]);
    let once = filter_candidates(c, "d");
    let twice = filter_candidates(once.clone(), "d");
    assert_eq!(once, vec!["docs", "drive"]);
    assert_eq!(twice, once);
}

#[test]
fn top_level_offers_every_service_name_and_builtin() {
    let all = top_level_candidates();
    for entry in services() {
        for alias in &entry.aliases {
            assert!(all.contains(alias));
        }
    }
    for name in ["auth", "schema", "generate-skills", "completion", "version", "--api-version", "-V"] {
        assert!(all.contains(&name.to_string()));
    }
}

#[test]
fn auth_candidates_by_subcommand() {
    assert_eq!(
        auth_command_candidates(&[]),
        vec!["login", "setup", "status", "export", "logout", "--help", "-h"]
    );
    assert_eq!(auth_command_candidates(&strings(&["export"])), vec!["--unmasked", "--help", "-h"]);
    assert_eq!(auth_command_candidates(&strings(&["logout"])), vec!["--help", "-h"]);
    assert!(auth_command_candidates(&strings(&["other"])).is_empty());
}

#[test]
fn services_resolve_by_any_alias() {
    assert_eq!(resolve_service("reports").unwrap(), ("admin".to_string(), "reports_v1".to_string()));
    assert_eq!(resolve_service("admin-reports").unwrap(), ("admin".to_string(), "reports_v1".to_string()));
    assert_eq!(resolve_service("events").unwrap(), ("workspaceevents".to_string(), "v1".to_string()));
    match resolve_service("nope") {
        Err(GwsError::Validation(m)) => assert_eq!(m, "Unknown service 'nope'."),
        other => panic!("unexpected {:?}", other),
    }
}

#[test]
fn service_overrides_need_both_parts() {
    for word in [":v1", "drive:", ":"] {
        match resolve_completion_service(word, &[]) {
            Err(GwsError::Validation(m)) => {
                assert_eq!(m, "Service override must use <api>:<version> syntax")
            }
            other => panic!("unexpected {:?}", other),
        }
    }
    match resolve_completion_service("nope:v1", &[]) {
        Err(GwsError::Validation(m)) => assert_eq!(m, "Unknown service 'nope'."),
        other => panic!("unexpected {:?}", other),
    }
}

#[test]
fn version_comes_from_flag_then_colon_then_default() {
    assert_eq!(
        resolve_completion_service("drive", &[]).unwrap(),
        ("drive".to_string(), "v3".to_string())
    );
    assert_eq!(
        resolve_completion_service("drive", &strings(&["--api-version"])).unwrap(),
        ("drive".to_string(), "v3".to_string())
    );
    assert_eq!(
        resolve_completion_service("drive:v9", &strings(&["files", "--api-version", "v4", "--api-version=v5"]))
            .unwrap(),
        ("drive".to_string(), "v4".to_string())
    );
    assert_eq!(
        resolve_completion_service("sheets:v1:beta", &[]).unwrap(),
        ("sheets".to_string(), "v1:beta".to_string())
    );
}

fn files_tree() -> CommandSpec {
    CommandSpec::new("gws").subcommand(
        CommandSpec::new("files")
            .arg(ArgSpec::new().long("params").short('p'))
            .arg(ArgSpec::new().long("verbose").switch())
            .subcommand(CommandSpec::new("list"))
            .subcommand(CommandSpec::new("get")),
    )
}

#[test]
fn command_options_with_values() {
    let tree = files_tree();
    let files = &tree.subcommands[0];
    assert!(command_option_expects_value(files, "--params"));
    assert!(command_option_expects_value(files, "--params=x"));
    assert!(command_option_expects_value(files, "-p"));
    assert!(!command_option_expects_value(files, "--verbose"));
    assert!(!command_option_expects_value(&tree, "--params"));
    assert_eq!(command_flag_candidates(files), vec!["--params", "-p", "--verbose"]);
}

#[test]
fn command_walk_passes_over_options() {
    let tree = files_tree();
    let c = command_candidates(&tree, &strings(&["files", "-p", "x", "--verbose", "--params=y"]));
    assert_eq!(
        c,
        vec![
            "list", "get", "--params", "-p", "--verbose", "--api-version", "--dry-run", "--format",
            "--sanitize", "--help", "-h"
        ]
    );
    assert!(command_candidates(&tree, &strings(&["files", "--"])).is_empty());
    assert!(command_candidates(&tree, &strings(&["files", "-p"])).is_empty());
    assert!(command_candidates(&tree, &strings(&["--format"])).is_empty());
    let c = command_candidates(&tree, &strings(&["other", "files"]));
    assert_eq!(c[0], "files");
}

#[test]
fn completion_answers_built_in_commands() {
    let c = candidates_of(completion_candidates(&strings(&["gws", "auth", ""]), None));
    assert_eq!(c, vec!["--help", "-h", "export", "login", "logout", "setup", "status"]);
    let c = candidates_of(completion_candidates(&strings(&["gws", "completion", "z"]), Some("z")));
    assert_eq!(c, vec!["zsh"]);
    let c = candidates_of(completion_candidates(&strings(&["gws", "schema", ""]), None));
    assert_eq!(c, vec!["--help", "--resolve-refs", "-h"]);
    let c = candidates_of(completion_candidates(&strings(&["gws", "generate-skills", "--o"]), None));
    assert_eq!(c, vec!["--output-dir"]);
    let c = candidates_of(completion_candidates(&strings(&["gws", "version", ""]), None));
    assert!(c.is_empty());
    let c = candidates_of(completion_candidates(&strings(&["gws", "--format", "json", "au"]), None));
    assert_eq!(c, vec!["auth"]);
}

#[test]
fn completion_offers_nothing_for_option_values() {
    let c = candidates_of(completion_candidates(&strings(&["gws", "drive", "--format", ""]), None));
    assert!(c.is_empty());
    assert!(completion_candidates(&strings(&["gws", "--format", ""]), None).is_none());
}

#[test]
fn completion_asks_for_a_service_tree() {
    match completion_candidates(&strings(&["gws", "drive:v2", "files", "li"]), None) {
        Some(CompletionStep::NeedsService { api_name, version, words, current }) => {
            assert_eq!(api_name, "drive");
            assert_eq!(version, "v2");
            assert_eq!(words, vec!["files"]);
            assert_eq!(current, "li");
        }
        other => panic!("unexpected {:?}", other),
    }
    let c = candidates_of(completion_candidates(&strings(&["gws", "nope", ""]), None));
    assert!(c.is_empty());
}

#[test]
fn completion_of_a_service_tree() {
    assert!(service_command_candidates(None, &strings(&["files"]), "").is_empty());
    let tree = files_tree();
    let c = service_command_candidates(Some(&tree), &strings(&["files"]), "l");
    assert_eq!(c, vec!["list"]);
    let c = service_command_candidates(Some(&tree), &[], "");
    assert_eq!(
        c,
        vec!["--api-version", "--dry-run", "--format", "--help", "--sanitize", "-h", "files"]
    );
}

#[test]
fn normalized_words_answer_directly() {
    match complete_normalized(&strings(&["--help", "sheets"]), "") {
        CompletionStep::NeedsService { api_name, version, words, current } => {
            assert_eq!((api_name.as_str(), version.as_str()), ("sheets", "v4"));
            assert!(words.is_empty());
            assert_eq!(current, "");
        }
        other => panic!("unexpected {:?}", other),
    }
}

#[test]
fn text_helpers() {
    assert_eq!(glue("ab", "cd"), "abcd");
    let cs: Vec<char> = "héllo".chars().collect();
    assert_eq!(substring(&cs, 1, 4), "éll");
    assert_eq!(substring(&cs, 2, 2), "");
}

#[test]
fn workflow_is_described_locally() {
    assert!(gws_completion::services::is_local_service("workflow"));
    assert!(!gws_completion::services::is_local_service("wf"));
    assert!(!gws_completion::services::is_local_service("drive"));
}

#[test]
fn program_paths_written_with_slashes() {
    assert!(is_gws_program("a/b/gws.exe"));
    assert!(is_gws_program("tmp/run.js"));
    assert!(!is_gws_program("/usr/bin/gwsctl"));
    assert!(!is_gws_program("gws/drive"));
    let words = strings(&["./bin/gws", "auth", "lo"]);
    let (completed, current) = normalize_completion_words(&words, None);
    assert_eq!(completed, vec!["auth"]);
    assert_eq!(current, "lo");
}

#[test]
fn recombined_index_points_at_the_word_holding_the_text() {
    let words = strings(&["gws", "drive", ":", "v3", "--api-version", "=", "v2", "files"]);
    let (combined, _) = recombine_bash_wordbreaks(&words, None);
    for (i, word) in words.iter().enumerate() {
        let (_, j) = recombine_bash_wordbreaks(&words, Some(i));
        assert!(combined[j.unwrap()].contains(word.as_str()));
    }
}

#[test]
fn last_options_win_and_words_after_separator_stay() {
    let args = strings(&[
        "x", "--shell", "zsh", "--current", "c", "--shell", "fish", "--", "--current", "--",
    ]);
    let request = parse_complete_request(&args, Some(0));
    assert_eq!(request.current.as_deref(), Some("c"));
    assert_eq!(request.shell, Some(Shell::Fish));
    assert_eq!(request.words, vec!["x", "--current", "--"]);
}

#[test]
fn comp_cword_parses_as_usize_does() {
    for s in ["0", "3", "+7", "0012", "-1", "", "+", "4x", " 4", "4 ", "++1", "18446744073709551615", "99999999999999999999", "١"] {
        assert_eq!(completion_word_index(Some(s)), s.parse::<usize>().ok(), "{s:?}");
    }
}

#[test]
fn scripts_call_the_helper_with_their_own_shell() {
    assert!(completion_script(Shell::Bash).contains("gws __complete --shell bash -- "));
    assert!(completion_script(Shell::Zsh).contains("gws __complete --shell zsh -- "));
    assert!(completion_script(Shell::Fish).contains("gws __complete --shell fish --current "));
    assert!(!completion_script(Shell::Bash).contains("--current"));
    assert!(!completion_script(Shell::Zsh).contains("--current"));
}

#[test]
fn equals_options_are_not_value_flags() {
    for word in ["--api-version=v2", "--format=", "--upload=x"] {
        assert!(is_equals_option(word));
        assert!(!option_expects_value(word));
    }
    assert!(!is_equals_option("--formats=x"));
}

#[test]
fn stripped_prefix_holds_only_options_and_values() {
    let words = strings(&["--format", "--format", "-h", "--sanitize=x", "drive"]);
    assert_eq!(strip_leading_global_options(&words), vec!["drive"]);
    let words = strings(&["drive", "--format", "json"]);
    assert_eq!(strip_leading_global_options(&words), words);
}
