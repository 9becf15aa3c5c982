//! The shells that completion supports, and the scripts that hook each of them up.
use vstd::prelude::*;

use crate::error::{validation_message, GwsError};
use crate::text::{glue, same_text, texts};

verus! {

/// The shells for which a completion script is available.
#[derive(Clone, Copy, Debug, PartialEq, Eq, Structural)]
pub enum Shell {
    Bash,
    Zsh,
    Fish,
}

/// The shell that a name selects.
pub open spec fn spec_parse_shell(value: Seq<char>) -> Option<Shell> {
    if value == "bash"@ {
        Some(Shell::Bash)
    } else if value == "zsh"@ {
        Some(Shell::Zsh)
    } else if value == "fish"@ {
        Some(Shell::Fish)
    } else {
        None
    }
}

/// The name under which a shell is selected.
pub open spec fn shell_name(shell: Shell) -> Seq<char> {
    match shell {
        Shell::Bash => "bash"@,
        Shell::Zsh => "zsh"@,
        Shell::Fish => "fish"@,
    }
}

impl Shell {
    /// Parses a shell name: `bash`, `zsh` or `fish`.
    pub fn parse(value: &str) -> (r: Option<Shell>)
        ensures
            r == spec_parse_shell(value@),
    {
        if same_text(value, "bash") {
            Some(Shell::Bash)
        } else if same_text(value, "zsh") {
            Some(Shell::Zsh)
        } else if same_text(value, "fish") {
            Some(Shell::Fish)
        } else {
            None
        }
    }
}

pub open spec fn bash_script() -> Seq<char> {
    "# bash completion for gws\n_gws() {\n    local candidate\n    COMPREPLY=()\n    while IFS= read -r candidate; do\n        COMPREPLY+=(\"$candidate\")\n    done < <(COMP_CWORD=\"${COMP_CWORD}\" gws __complete --shell bash -- \"${COMP_WORDS[@]}\" 2>/dev/null)\n    return 0\n}\ncomplete -o default -o bashdefault -F _gws gws\n"@
}

pub open spec fn zsh_script() -> Seq<char> {
    "#compdef gws\n# zsh completion for gws\nlocal -a completions\ncompletions=(\"${(@f)$(COMP_CWORD=$((CURRENT - 1)) gws __complete --shell zsh -- \"${words[@]}\" 2>/dev/null)}\")\nif (( ${#completions[@]} )); then\n    compadd -- \"${completions[@]}\"\nfi\n"@
}

pub open spec fn fish_script() -> Seq<char> {
    "# fish completion for gws\nfunction __gws_complete\n    set -l tokens (commandline -opc)\n    set -l current (commandline -ct)\n    gws __complete --shell fish --current \"$current\" -- $tokens 2>/dev/null\nend\ncomplete -c gws -f -a \"(__gws_complete)\"\n"@
}

/// The script for a shell.
pub open spec fn script_of(shell: Shell) -> Seq<char> {
    match shell {
        Shell::Bash => bash_script(),
        Shell::Zsh => zsh_script(),
        Shell::Fish => fish_script(),
    }
}

/// The integration script that `gws completion <shell>` prints.
pub fn completion_script(shell: Shell) -> (r: &'static str)
    ensures
        r@ == script_of(shell),
{
    match shell {
        Shell::Bash => "# bash completion for gws\n_gws() {\n    local candidate\n    COMPREPLY=()\n    while IFS= read -r candidate; do\n        COMPREPLY+=(\"$candidate\")\n    done < <(COMP_CWORD=\"${COMP_CWORD}\" gws __complete --shell bash -- \"${COMP_WORDS[@]}\" 2>/dev/null)\n    return 0\n}\ncomplete -o default -o bashdefault -F _gws gws\n",
        Shell::Zsh => "#compdef gws\n# zsh completion for gws\nlocal -a completions\ncompletions=(\"${(@f)$(COMP_CWORD=$((CURRENT - 1)) gws __complete --shell zsh -- \"${words[@]}\" 2>/dev/null)}\")\nif (( ${#completions[@]} )); then\n    compadd -- \"${completions[@]}\"\nfi\n",
        Shell::Fish => "# fish completion for gws\nfunction __gws_complete\n    set -l tokens (commandline -opc)\n    set -l current (commandline -ct)\n    gws __complete --shell fish --current \"$current\" -- $tokens 2>/dev/null\nend\ncomplete -c gws -f -a \"(__gws_complete)\"\n",
    }
}

/// What `gws completion <shell>` prints: its usage text, or the script of a shell.
#[derive(Clone, Copy, Debug, PartialEq, Eq, Structural)]
pub enum CompletionOutput {
    Usage,
    Script(Shell),
}

/// The message for a shell argument that names no supported shell.
pub open spec fn unsupported_shell_message(arg: Seq<char>) -> Seq<char> {
    "Unsupported shell '"@ + arg + "'. Usage: gws completion <bash|zsh|fish>"@
}

/// What `gws completion` with these arguments does: without an argument, or
/// with `--help` or `-h` first, it shows its usage; with a shell name first,
/// that shell's script; with anything else first, a validation error.
pub open spec fn spec_completion_command(args: Seq<Seq<char>>) -> Result<CompletionOutput, Seq<char>> {
    if args.len() == 0 || args[0] == "--help"@ || args[0] == "-h"@ {
        Ok(CompletionOutput::Usage)
    } else {
        match spec_parse_shell(args[0]) {
            Some(shell) => Ok(CompletionOutput::Script(shell)),
            None => Err(unsupported_shell_message(args[0])),
        }
    }
}

/// Decides what `gws completion <shell>` prints.
pub fn handle_completion_command(args: &[String]) -> (r: Result<CompletionOutput, GwsError>)
    ensures
        match r {
            Ok(out) => spec_completion_command(texts(args@)) == Ok::<CompletionOutput, Seq<char>>(out),
            Err(e) => spec_completion_command(texts(args@)) == Err::<CompletionOutput, Seq<char>>(validation_message(e)),
        },
{
    if args.len() == 0 {
        return Ok(CompletionOutput::Usage);
    }
    let shell_arg = args[0].as_str();
    if same_text(shell_arg, "--help") || same_text(shell_arg, "-h") {
        return Ok(CompletionOutput::Usage);
    }
    match Shell::parse(shell_arg) {
        Some(shell) => Ok(CompletionOutput::Script(shell)),
        None => {
            let head = glue("Unsupported shell '", shell_arg);
            let message = glue(head.as_str(), "'. Usage: gws completion <bash|zsh|fish>");
            Err(GwsError::Validation(message))
        },
    }
}

/// Whether `needle` occurs in `hay` as a contiguous run.
pub open spec fn occurs_in(needle: Seq<char>, hay: Seq<char>) -> bool {
    exists|k: int| 0 <= k <= hay.len() - needle.len() && #[trigger] hay.subrange(k, k + needle.len()) == needle
}

/// Every script hands completion over to the hidden `gws __complete` command.
pub proof fn lemma_script_calls_complete_command(shell: Shell)
    ensures
        occurs_in("gws __complete"@, script_of(shell)),
{
    reveal_strlit("gws __complete");
    match shell {
        Shell::Bash => {
            reveal_strlit("# bash completion for gws\n_gws() {\n    local candidate\n    COMPREPLY=()\n    while IFS= read -r candidate; do\n        COMPREPLY+=(\"$candidate\")\n    done < <(COMP_CWORD=\"${COMP_CWORD}\" gws __complete --shell bash -- \"${COMP_WORDS[@]}\" 2>/dev/null)\n    return 0\n}\ncomplete -o default -o bashdefault -F _gws gws\n");
            let k = 183int;
            assert(bash_script().subrange(k, k + 14) =~= "gws __complete"@);
        },
        Shell::Zsh => {
            reveal_strlit("#compdef gws\n# zsh completion for gws\nlocal -a completions\ncompletions=(\"${(@f)$(COMP_CWORD=$((CURRENT - 1)) gws __complete --shell zsh -- \"${words[@]}\" 2>/dev/null)}\")\nif (( ${#completions[@]} )); then\n    compadd -- \"${completions[@]}\"\nfi\n");
            let k = 109int;
            assert(zsh_script().subrange(k, k + 14) =~= "gws __complete"@);
        },
        Shell::Fish => {
            reveal_strlit("# fish completion for gws\nfunction __gws_complete\n    set -l tokens (commandline -opc)\n    set -l current (commandline -ct)\n    gws __complete --shell fish --current \"$current\" -- $tokens 2>/dev/null\nend\ncomplete -c gws -f -a \"(__gws_complete)\"\n");
            let k = 128int;
            assert(fish_script().subrange(k, k + 14) =~= "gws __complete"@);
        },
    }
}


/// How a script calls the hidden command: with `--shell` and its own name,
/// then `--` and the words for bash and zsh, and `--current` with the word
/// being completed for fish.
pub open spec fn helper_call(shell: Shell) -> Seq<char> {
    match shell {
        Shell::Bash => "gws __complete --shell bash -- "@,
        Shell::Zsh => "gws __complete --shell zsh -- "@,
        Shell::Fish => "gws __complete --shell fish --current "@,
    }
}

/// Each script calls `gws __complete --shell <its own name>`, a name that
/// parses back to its shell; bash's and zsh's pass the words right after it
/// (no `--current`), fish's passes `--current` first.
pub proof fn lemma_script_names_its_shell(shell: Shell)
    ensures
        occurs_in(helper_call(shell), script_of(shell)),
        occurs_in("gws __complete --shell "@ + shell_name(shell) + " "@, script_of(shell)),
        spec_parse_shell(shell_name(shell)) == Some(shell),
{
    reveal_strlit("gws __complete --shell ");
    reveal_strlit(" ");
    reveal_strlit("bash");
    reveal_strlit("zsh");
    reveal_strlit("fish");
    match shell {
        Shell::Bash => {
            reveal_strlit("# bash completion for gws\n_gws() {\n    local candidate\n    COMPREPLY=()\n    while IFS= read -r candidate; do\n        COMPREPLY+=(\"$candidate\")\n    done < <(COMP_CWORD=\"${COMP_CWORD}\" gws __complete --shell bash -- \"${COMP_WORDS[@]}\" 2>/dev/null)\n    return 0\n}\ncomplete -o default -o bashdefault -F _gws gws\n");
            reveal_strlit("gws __complete --shell bash -- ");
            let k = 183int;
            assert(bash_script().subrange(k, k + 31) =~= helper_call(shell));
            assert(bash_script().subrange(k, k + 28) =~= "gws __complete --shell "@ + "bash"@ + " "@);
        },
        Shell::Zsh => {
            reveal_strlit("#compdef gws\n# zsh completion for gws\nlocal -a completions\ncompletions=(\"${(@f)$(COMP_CWORD=$((CURRENT - 1)) gws __complete --shell zsh -- \"${words[@]}\" 2>/dev/null)}\")\nif (( ${#completions[@]} )); then\n    compadd -- \"${completions[@]}\"\nfi\n");
            reveal_strlit("gws __complete --shell zsh -- ");
            let k = 109int;
            assert(zsh_script().subrange(k, k + 30) =~= helper_call(shell));
            assert(zsh_script().subrange(k, k + 27) =~= "gws __complete --shell "@ + "zsh"@ + " "@);
            assert("zsh"@.len() != "bash"@.len());
        },
        Shell::Fish => {
            reveal_strlit("# fish completion for gws\nfunction __gws_complete\n    set -l tokens (commandline -opc)\n    set -l current (commandline -ct)\n    gws __complete --shell fish --current \"$current\" -- $tokens 2>/dev/null\nend\ncomplete -c gws -f -a \"(__gws_complete)\"\n");
            reveal_strlit("gws __complete --shell fish --current ");
            let k = 128int;
            assert(fish_script().subrange(k, k + 38) =~= helper_call(shell));
            assert(fish_script().subrange(k, k + 28) =~= "gws __complete --shell "@ + "fish"@ + " "@);
            assert("fish"@[0] != "bash"@[0]);
            assert("fish"@.len() != "zsh"@.len());
        },
    }
}


/// Only fish's script passes `--current`: neither bash's nor zsh's holds it
/// anywhere, and fish's does.
pub proof fn lemma_only_fish_passes_current(shell: Shell)
    ensures
        occurs_in("--current"@, script_of(shell)) <==> shell == Shell::Fish,
{
    reveal_strlit("--current");
    let needle = "--current"@;
    match shell {
        Shell::Bash => {
            reveal_strlit("# bash completion for gws\n_gws() {\n    local candidate\n    COMPREPLY=()\n    while IFS= read -r candidate; do\n        COMPREPLY+=(\"$candidate\")\n    done < <(COMP_CWORD=\"${COMP_CWORD}\" gws __complete --shell bash -- \"${COMP_WORDS[@]}\" 2>/dev/null)\n    return 0\n}\ncomplete -o default -o bashdefault -F _gws gws\n");
            let h = bash_script();
            assert forall|k: int| 0 <= k <= h.len() - needle.len() implies #[trigger] h.subrange(k, k + needle.len()) != needle by {
                if h.subrange(k, k + needle.len()) == needle {
                    assert(h[k + 2] == needle[2]);
                    assert(h[k] == needle[0]);
                    assert(h[k + 1] == needle[1]);
                }
            }
        },
        Shell::Zsh => {
            reveal_strlit("#compdef gws\n# zsh completion for gws\nlocal -a completions\ncompletions=(\"${(@f)$(COMP_CWORD=$((CURRENT - 1)) gws __complete --shell zsh -- \"${words[@]}\" 2>/dev/null)}\")\nif (( ${#completions[@]} )); then\n    compadd -- \"${completions[@]}\"\nfi\n");
            let h = zsh_script();
            assert forall|k: int| 0 <= k <= h.len() - needle.len() implies #[trigger] h.subrange(k, k + needle.len()) != needle by {
                if h.subrange(k, k + needle.len()) == needle {
                    assert(h[k + 2] == needle[2]);
                    assert(h[k] == needle[0]);
                    assert(h[k + 1] == needle[1]);
                }
            }
        },
        Shell::Fish => {
            reveal_strlit("# fish completion for gws\nfunction __gws_complete\n    set -l tokens (commandline -opc)\n    set -l current (commandline -ct)\n    gws __complete --shell fish --current \"$current\" -- $tokens 2>/dev/null\nend\ncomplete -c gws -f -a \"(__gws_complete)\"\n");
            let k = 156int;
            assert(fish_script().subrange(k, k + 9) =~= needle);
        },
    }
}


/// zsh's script is the body of an autoloadable completion function: it
/// starts with `#compdef gws` and defines no `_gws()` function and no
/// `compdef _gws` of its own.
pub proof fn lemma_zsh_script_is_a_function_body()
    ensures
        "#compdef gws"@.is_prefix_of(zsh_script()),
        !occurs_in("_gws()"@, zsh_script()),
        !occurs_in("compdef _gws"@, zsh_script()),
{
    reveal_strlit("#compdef gws");
    reveal_strlit("_gws()");
    reveal_strlit("compdef _gws");
    reveal_strlit("#compdef gws\n# zsh completion for gws\nlocal -a completions\ncompletions=(\"${(@f)$(COMP_CWORD=$((CURRENT - 1)) gws __complete --shell zsh -- \"${words[@]}\" 2>/dev/null)}\")\nif (( ${#completions[@]} )); then\n    compadd -- \"${completions[@]}\"\nfi\n");
    let h = zsh_script();
    let a = "_gws()"@;
    let b = "compdef _gws"@;
    assert("#compdef gws"@ =~= h.subrange(0, 12));
    assert forall|k: int| 0 <= k <= h.len() - a.len() implies #[trigger] h.subrange(k, k + a.len()) != a by {
        if h.subrange(k, k + a.len()) == a {
            assert(h[k] == a[0]);
            assert(h[k + 1] == a[1]);
            assert(h[k + 2] == a[2]);
            assert(h[k + 3] == a[3]);
            assert(h[k + 4] == a[4]);
        }
    }
    assert forall|k: int| 0 <= k <= h.len() - b.len() implies #[trigger] h.subrange(k, k + b.len()) != b by {
        if h.subrange(k, k + b.len()) == b {
            assert(h[k] == b[0]);
            assert(h[k + 1] == b[1]);
            assert(h[k + 7] == b[7]);
            assert(h[k + 8] == b[8]);
            assert(h[k + 9] == b[9]);
        }
    }
}


/// `gws completion` with a shell's name first (`bash`, `zsh` or `fish`)
/// answers with that shell's script, whatever follows; with any other first
/// argument that is not `--help` or `-h` it answers with the error naming
/// that argument; with no argument, `--help` or `-h` first, its usage.
pub proof fn lemma_completion_command_selects_named_shell(first: Seq<char>, rest: Seq<Seq<char>>, shell: Shell)
    ensures
        spec_completion_command(seq![shell_name(shell)] + rest) == Ok::<CompletionOutput, Seq<char>>(
            CompletionOutput::Script(shell),
        ),
        (first != "--help"@ && first != "-h"@ && first != "bash"@ && first != "zsh"@ && first != "fish"@)
            ==> spec_completion_command(seq![first] + rest) == Err::<CompletionOutput, Seq<char>>(
            unsupported_shell_message(first),
        ),
        (first == "--help"@ || first == "-h"@) ==> spec_completion_command(seq![first] + rest)
            == Ok::<CompletionOutput, Seq<char>>(CompletionOutput::Usage),
        spec_completion_command(Seq::empty()) == Ok::<CompletionOutput, Seq<char>>(CompletionOutput::Usage),
{
    reveal_strlit("bash");
    reveal_strlit("zsh");
    reveal_strlit("fish");
    reveal_strlit("--help");
    reveal_strlit("-h");
    assert((seq![shell_name(shell)] + rest)[0] == shell_name(shell));
    assert((seq![first] + rest)[0] == first);
    assert("fish"@[0] != "bash"@[0]);
    assert("fish"@.len() != "zsh"@.len());
    assert("bash"@.len() != "zsh"@.len());
    assert("bash"@[0] != "--help"@[0] && "bash"@.len() != "-h"@.len());
    assert("zsh"@[0] != "--help"@[0] && "zsh"@.len() != "-h"@.len());
    assert("fish"@[0] != "--help"@[0] && "fish"@.len() != "-h"@.len());
}

} // verus!
