//! The command tree of a service (its resources, methods and their options),
//! and the candidates that completion offers while walking down it.
use vstd::prelude::*;

use crate::flags::{expects_value, global_service_flag_list, global_service_flags, is_equals_option, option_expects_value, spec_is_equals_option};
use crate::text::{chars_of, glue, find_char, first_index_of, lemma_first_index_of, same_text, starts_with, string_of, substring, texts};

verus! {

/// An option of a command.
#[derive(Debug)]
pub struct ArgSpec {
    /// The long name, without the leading `--`.
    pub long: Option<String>,
    /// The short name, without the leading `-`.
    pub short: Option<char>,
    /// Whether the option takes a value.
    pub takes_values: bool,
}

/// A command with its options and its subcommands.
#[derive(Debug)]
pub struct CommandSpec {
    pub name: String,
    pub args: Vec<ArgSpec>,
    pub subcommands: Vec<CommandSpec>,
}

impl ArgSpec {
    /// An option with neither name yet, taking a value.
    pub fn new() -> (r: ArgSpec)
        ensures
            r.long is None,
            r.short is None,
            r.takes_values,
    {
        ArgSpec { long: None, short: None, takes_values: true }
    }

    /// The option with a long name.
    pub fn long(self, name: &str) -> (r: ArgSpec)
        ensures
            r.long matches Some(l) && l@ == name@,
            r.short == self.short,
            r.takes_values == self.takes_values,
    {
        ArgSpec { long: Some(crate::text::owned(name)), short: self.short, takes_values: self.takes_values }
    }

    /// The option with a short name.
    pub fn short(self, c: char) -> (r: ArgSpec)
        ensures
            r.long == self.long,
            r.short == Some(c),
            r.takes_values == self.takes_values,
    {
        ArgSpec { long: self.long, short: Some(c), takes_values: self.takes_values }
    }

    /// The option as a switch that takes no value.
    pub fn switch(self) -> (r: ArgSpec)
        ensures
            r.long == self.long,
            r.short == self.short,
            !r.takes_values,
    {
        ArgSpec { long: self.long, short: self.short, takes_values: false }
    }
}

impl CommandSpec {
    /// A command with a name and nothing under it.
    pub fn new(name: &str) -> (r: CommandSpec)
        ensures
            r.name@ == name@,
            r.args@.len() == 0,
            r.subcommands@.len() == 0,
    {
        CommandSpec { name: crate::text::owned(name), args: Vec::new(), subcommands: Vec::new() }
    }

    /// The command with one more option.
    pub fn arg(self, arg: ArgSpec) -> (r: CommandSpec)
        ensures
            r.name == self.name,
            r.args@ == self.args@.push(arg),
            r.subcommands@ == self.subcommands@,
    {
        let mut args = self.args;
        args.push(arg);
        CommandSpec { name: self.name, args, subcommands: self.subcommands }
    }

    /// The command with one more subcommand.
    pub fn subcommand(self, sub: CommandSpec) -> (r: CommandSpec)
        ensures
            r.name == self.name,
            r.args@ == self.args@,
            r.subcommands@ == self.subcommands@.push(sub),
    {
        let mut subcommands = self.subcommands;
        subcommands.push(sub);
        CommandSpec { name: self.name, args: self.args, subcommands }
    }
}

/// The option part of a word: what comes before its first `=`, or the whole word.
pub open spec fn option_part(word: Seq<char>) -> Seq<char> {
    match first_index_of(word, '=') {
        Some(k) => word.take(k),
        None => word,
    }
}

/// Whether an option of the command, by its long (`--name`) or short (`-c`)
/// name, is `option` and takes a value.
pub open spec fn arg_takes(arg: ArgSpec, option: Seq<char>) -> bool {
    &&& arg.takes_values
    &&& ((arg.long matches Some(l) && option == "--"@ + l@) || (arg.short matches Some(c) && option
        == seq!['-', c]))
}

/// Whether `word` (or its part before `=`) names an option of the command
/// that takes a value.
pub open spec fn spec_command_option_expects_value(command: CommandSpec, word: Seq<char>) -> bool {
    exists|i: int| 0 <= i < command.args@.len() && arg_takes(#[trigger] command.args@[i], option_part(word))
}

/// The ways an option can be written: `--long`, then `-s`.
pub open spec fn arg_flags(arg: ArgSpec) -> Seq<Seq<char>> {
    (match arg.long {
        Some(l) => seq!["--"@ + l@],
        None => Seq::empty(),
    }) + (match arg.short {
        Some(c) => seq![seq!['-', c]],
        None => Seq::empty(),
    })
}

/// The ways all options can be written, option by option.
pub open spec fn flags_of(args: Seq<ArgSpec>) -> Seq<Seq<char>>
    decreases args.len(),
{
    if args.len() == 0 {
        Seq::empty()
    } else {
        flags_of(args.drop_last()) + arg_flags(args.last())
    }
}

/// The names of the subcommands.
pub open spec fn subcommand_names(subs: Seq<CommandSpec>) -> Seq<Seq<char>> {
    subs.map_values(|c: CommandSpec| c.name@)
}

/// The position of the first subcommand with the name `word`.
pub open spec fn find_subcommand(subs: Seq<CommandSpec>, word: Seq<char>) -> Option<int>
    decreases subs.len(),
{
    if subs.len() == 0 {
        None
    } else {
        match find_subcommand(subs.drop_last(), word) {
            Some(k) => Some(k),
            None => if subs.last().name@ == word {
                Some(subs.len() - 1)
            } else {
                None
            },
        }
    }
}

/// Walks down from `command` along the words from position `i` on: `--`
/// ends completion; an option of the command written with `=` is passed
/// over; an option that takes a value is passed over with its value (and
/// ends completion where the value is what is being typed); other options
/// are passed over; the name of a subcommand goes down into it; any other
/// word ends the walk. `None` where completion ends with nothing to offer.
pub open spec fn walk_command(command: CommandSpec, words: Seq<Seq<char>>, i: int) -> Option<CommandSpec>
    decreases words.len() + 1 - i,
{
    if i < 0 || i >= words.len() {
        Some(command)
    } else {
        let word = words[i];
        if word == "--"@ {
            None
        } else if spec_command_option_expects_value(command, word) && word.contains('=') {
            walk_command(command, words, i + 1)
        } else if spec_command_option_expects_value(command, word) || expects_value(word) {
            if i + 1 == words.len() {
                None
            } else {
                walk_command(command, words, i + 2)
            }
        } else if "-"@.is_prefix_of(word) || spec_is_equals_option(word) {
            walk_command(command, words, i + 1)
        } else {
            match find_subcommand(command.subcommands@, word) {
                Some(k) => walk_command(command.subcommands@[k], words, i + 1),
                None => Some(command),
            }
        }
    }
}

/// What a command offers: its subcommands, its options, the options of every
/// service command, and help.
pub open spec fn offered_by(command: CommandSpec) -> Seq<Seq<char>> {
    subcommand_names(command.subcommands@) + flags_of(command.args@) + global_service_flags() + seq![
        "--help"@,
        "-h"@,
    ]
}

/// What `command_candidates` gives for the words typed under `command`.
pub open spec fn spec_command_candidates(command: CommandSpec, words: Seq<Seq<char>>) -> Seq<Seq<char>> {
    match walk_command(command, words, 0) {
        Some(reached) => offered_by(reached),
        None => Seq::empty(),
    }
}

/// Whether `word` names an option of `command` that takes a value.
pub fn command_option_expects_value(command: &CommandSpec, word: &str) -> (r: bool)
    ensures
        r == spec_command_option_expects_value(*command, word@),
{
    let cs = chars_of(word);
    proof {
        lemma_first_index_of(word@, '=');
    }
    let option = match find_char(cs.as_slice(), '=') {
        Some(k) => substring(&cs, 0, k),
        None => string_of(cs.as_slice()),
    };
    assert(option@ =~= option_part(word@));
    let mut i: usize = 0;
    while i < command.args.len()
        invariant
            0 <= i <= command.args@.len(),
            option@ == option_part(word@),
            forall|k: int| 0 <= k < i ==> !arg_takes(#[trigger] command.args@[k], option@),
        decreases command.args@.len() - i,
    {
        let arg = &command.args[i];
        if arg.takes_values {
            let by_long = match &arg.long {
                Some(l) => {
                    let spelled = glue("--", l.as_str());
                    same_text(option.as_str(), spelled.as_str())
                },
                None => false,
            };
            let by_short = match arg.short {
                Some(c) => {
                    let mut v: Vec<char> = Vec::new();
                    v.push('-');
                    v.push(c);
                    let spelled = string_of(v.as_slice());
                    assert(v@ =~= seq!['-', c]);
                    same_text(option.as_str(), spelled.as_str())
                },
                None => false,
            };
            if by_long || by_short {
                return true;
            }
        }
        i = i + 1;
    }
    false
}

/// The ways the options of `command` can be written.
pub fn command_flag_candidates(command: &CommandSpec) -> (r: Vec<String>)
    ensures
        texts(r@) == flags_of(command.args@),
{
    let mut r: Vec<String> = Vec::new();
    let mut i: usize = 0;
    assert(command.args@.take(0) =~= Seq::<ArgSpec>::empty());
    assert(texts(r@) =~= Seq::<Seq<char>>::empty());
    while i < command.args.len()
        invariant
            0 <= i <= command.args@.len(),
            texts(r@) == flags_of(command.args@.take(i as int)),
        decreases command.args@.len() - i,
    {
        let arg = &command.args[i];
        let ghost before = texts(r@);
        match &arg.long {
            Some(l) => {
                r.push(glue("--", l.as_str()));
            },
            None => {},
        }
        let ghost mid = texts(r@);
        match arg.short {
            Some(c) => {
                let mut v: Vec<char> = Vec::new();
                v.push('-');
                v.push(c);
                assert(v@ =~= seq!['-', c]);
                r.push(string_of(v.as_slice()));
            },
            None => {},
        }
        assert(texts(r@) =~= before + arg_flags(*arg));
        assert(command.args@.take(i + 1).drop_last() =~= command.args@.take(i as int));
        i = i + 1;
    }
    assert(command.args@.take(i as int) =~= command.args@);
    r
}

/// Finds the first subcommand of `command` named `word`.
fn find_subcommand_index(command: &CommandSpec, word: &str) -> (r: Option<usize>)
    ensures
        match r {
            Some(k) => find_subcommand(command.subcommands@, word@) == Some(k as int),
            None => find_subcommand(command.subcommands@, word@) is None,
        },
{
    let ghost subs = command.subcommands@;
    let mut i: usize = 0;
    while i < command.subcommands.len()
        invariant
            0 <= i <= subs.len(),
            subs == command.subcommands@,
            find_subcommand(subs.take(i as int), word@) is None,
        decreases subs.len() - i,
    {
        assert(subs.take(i + 1).drop_last() =~= subs.take(i as int));
        if same_text(command.subcommands[i].name.as_str(), word) {
            proof {
                lemma_find_subcommand_prefix(subs, word@, i as int);
            }
            return Some(i);
        }
        i = i + 1;
    }
    assert(subs.take(i as int) =~= subs);
    None
}

proof fn lemma_find_subcommand_prefix(subs: Seq<CommandSpec>, word: Seq<char>, i: int)
    requires
        0 <= i < subs.len(),
        subs[i].name@ == word,
        find_subcommand(subs.take(i), word) is None,
    ensures
        find_subcommand(subs, word) == Some(i),
    decreases subs.len(),
{
    if subs.len() - 1 == i {
        assert(subs.drop_last() =~= subs.take(i));
    } else {
        assert(subs.drop_last().take(i) =~= subs.take(i));
        lemma_find_subcommand_prefix(subs.drop_last(), word, i);
    }
}

/// The candidates that a service command offers for the words typed after
/// the service: those of the command reached by walking down the words, or
/// none where the walk ends at a `--` or at an option whose value is being typed.
pub fn command_candidates(command: &CommandSpec, words: &[String]) -> (r: Vec<String>)
    ensures
        texts(r@) == spec_command_candidates(*command, texts(words@)),
{
    let ghost w = texts(words@);
    let mut current: &CommandSpec = command;
    let n = words.len();
    let mut i: usize = 0;
    let mut stopped = false;
    while i < n && !stopped
        invariant
            0 <= i <= n,
            n == words@.len(),
            w == texts(words@),
            walk_command(*current, w, i as int) == walk_command(*command, w, 0),
            stopped ==> walk_command(*current, w, i as int) == Some(*current),
        decreases n - i + (if stopped { 0int } else { 1int }),
    {
        let word = words[i].as_str();
        assert(w[i as int] == word@);
        if same_text(word, "--") {
            let r: Vec<String> = Vec::new();
            assert(texts(r@) =~= Seq::<Seq<char>>::empty());
            return r;
        }
        let takes = command_option_expects_value(current, word);
        let cw = chars_of(word);
        let has_equals = find_char(cw.as_slice(), '=').is_some();
        proof {
            lemma_first_index_of(word@, '=');
        }
        assert(has_equals == word@.contains('='));
        if takes && has_equals {
            i = i + 1;
        } else if takes || option_expects_value(word) {
            if i + 1 == n {
                let r: Vec<String> = Vec::new();
                assert(texts(r@) =~= Seq::<Seq<char>>::empty());
                return r;
            }
            i = i + 2;
        } else if starts_with(word, "-") || is_equals_option(word) {
            i = i + 1;
        } else {
            match find_subcommand_index(current, word) {
                Some(k) => {
                    proof {
                        lemma_find_subcommand_in_range(current.subcommands@, word@);
                    }
                    current = &current.subcommands[k];
                    i = i + 1;
                },
                None => {
                    stopped = true;
                },
            }
        }
    }
    assert(walk_command(*command, w, 0) == Some(*current));
    let mut r: Vec<String> = Vec::new();
    let mut j: usize = 0;
    assert(texts(r@) =~= Seq::<Seq<char>>::empty());
    while j < current.subcommands.len()
        invariant
            0 <= j <= current.subcommands@.len(),
            texts(r@) == subcommand_names(current.subcommands@).take(j as int),
        decreases current.subcommands@.len() - j,
    {
        let ghost before = texts(r@);
        let name = current.subcommands[j].name.clone();
        assert(name@ == subcommand_names(current.subcommands@)[j as int]);
        r.push(name);
        assert(texts(r@) =~= before.push(name@));
        assert(texts(r@) =~= subcommand_names(current.subcommands@).take(j + 1));
        j = j + 1;
    }
    assert(subcommand_names(current.subcommands@).take(j as int) =~= subcommand_names(current.subcommands@));
    let flags = command_flag_candidates(current);
    crate::candidates::push_all(&mut r, &flags);
    let globals = global_service_flag_list();
    crate::candidates::push_all(&mut r, &globals);
    let ghost before_help = texts(r@);
    r.push(crate::text::owned("--help"));
    r.push(crate::text::owned("-h"));
    assert(texts(r@) =~= before_help + seq!["--help"@, "-h"@]);
    r
}

proof fn lemma_find_subcommand_in_range(subs: Seq<CommandSpec>, word: Seq<char>)
    ensures
        find_subcommand(subs, word) matches Some(k) ==> 0 <= k < subs.len() && subs[k].name@ == word,
    decreases subs.len(),
{
    if subs.len() > 0 {
        lemma_find_subcommand_in_range(subs.drop_last(), word);
    }
}


/// The walk from position `p.len() + i` of `p + w` is the walk from
/// position `i` of `w`: what comes before a position plays no part.
proof fn lemma_walk_shift(command: CommandSpec, p: Seq<Seq<char>>, w: Seq<Seq<char>>, i: int)
    requires
        0 <= i,
    ensures
        walk_command(command, p + w, p.len() + i) == walk_command(command, w, i),
    decreases w.len() + 1 - i,
{
    let a = p + w;
    let j = p.len() + i;
    if i < w.len() {
        assert(a[j] == w[i]);
        if i + 1 < w.len() {
            assert(a[j + 1] == w[i + 1]);
        }
        lemma_walk_shift(command, p, w, i + 1);
        lemma_walk_shift(command, p, w, i + 2);
        match find_subcommand(command.subcommands@, w[i]) {
            Some(k) => {
                lemma_walk_shift(command.subcommands@[k], p, w, i + 1);
            },
            None => {},
        }
    }
}

/// An option that takes a value, followed by its value, is passed over as a
/// pair: walking `[f, v] + w` reaches what walking `w` reaches, whether `f`
/// is one of the global value options (`--format table files` goes down into
/// `files`) or an option of the command that takes a value written without
/// `=`. An option of the command written with its value after `=` is passed
/// over alone.
pub proof fn lemma_value_option_skips_its_value(
    command: CommandSpec,
    f: Seq<char>,
    v: Seq<char>,
    w: Seq<Seq<char>>,
)
    ensures
        (expects_value(f) || (spec_command_option_expects_value(command, f) && !f.contains('=')
            && f != "--"@)) ==> spec_command_candidates(command, seq![f, v] + w)
            == spec_command_candidates(command, w),
        (spec_command_option_expects_value(command, f) && f.contains('=') && f != "--"@)
            ==> spec_command_candidates(command, seq![f] + w) == spec_command_candidates(
            command,
            w,
        ),
{
    reveal_strlit("--");
    if expects_value(f) {
        crate::flags::lemma_value_flags_lack_equals();
        let j = choose|j: int| 0 <= j < crate::flags::value_flags().len() && crate::flags::value_flags()[j] == f;
        assert(!f.contains('='));
        assert(f != "--"@) by {
            reveal_strlit("--api-version");
            reveal_strlit("--filter");
            reveal_strlit("--format");
            reveal_strlit("--json");
            reveal_strlit("--output");
            reveal_strlit("-o");
            reveal_strlit("--output-dir");
            reveal_strlit("--page-delay");
            reveal_strlit("--page-limit");
            reveal_strlit("--params");
            reveal_strlit("--project");
            reveal_strlit("--sanitize");
            reveal_strlit("--scopes");
            reveal_strlit("--services");
            reveal_strlit("--upload");
            reveal_strlit("--upload-content-type");
            if f == "--"@ {
                assert(f.len() == 2);
                assert(f[1] == '-');
                assert(f[0] == '-');
            }
        }
    }
    let pair = seq![f, v];
    let a = pair + w;
    assert(a[0] == f && a[1] == v);
    lemma_walk_shift(command, pair, w, 0);
    let one = seq![f];
    let b = one + w;
    assert(b[0] == f);
    lemma_walk_shift(command, one, w, 0);
}

} // verus!
