//! The global options of `gws`: which of them take a value, and how a run of
//! them before the command is skipped.
use vstd::prelude::*;

use crate::text::{glue, owned, same_text, starts_with, texts};

verus! {

/// The options that take a value (`--format json`, `--format=json`).
pub open spec fn value_flags() -> Seq<Seq<char>> {
    seq![
        "--api-version"@,
        "--filter"@,
        "--format"@,
        "--json"@,
        "--output"@,
        "-o"@,
        "--output-dir"@,
        "--page-delay"@,
        "--page-limit"@,
        "--params"@,
        "--project"@,
        "--sanitize"@,
        "--scopes"@,
        "--services"@,
        "--upload"@,
        "--upload-content-type"@,
    ]
}

/// The options that every service command accepts.
pub open spec fn global_service_flags() -> Seq<Seq<char>> {
    seq!["--api-version"@, "--dry-run"@, "--format"@, "--sanitize"@]
}

/// The options that may stand before the command and take no value.
pub open spec fn is_help_or_version(word: Seq<char>) -> bool {
    word == "--help"@ || word == "-h"@ || word == "--version"@ || word == "-V"@
}

/// Whether `word` is an option that takes its value as the next word.
pub open spec fn expects_value(word: Seq<char>) -> bool {
    value_flags().contains(word)
}

/// Whether `word` is a long value option with its value attached after `=`.
pub open spec fn spec_is_equals_option(word: Seq<char>) -> bool {
    exists|i: int|
        0 <= i < value_flags().len() && "--"@.is_prefix_of(value_flags()[i])
            && (#[trigger] value_flags()[i] + "="@).is_prefix_of(word)
}

pub fn value_flag_list() -> (r: Vec<String>)
    ensures
        texts(r@) == value_flags(),
{
    let mut r: Vec<String> = Vec::new();
    r.push(owned("--api-version"));
    r.push(owned("--filter"));
    r.push(owned("--format"));
    r.push(owned("--json"));
    r.push(owned("--output"));
    r.push(owned("-o"));
    r.push(owned("--output-dir"));
    r.push(owned("--page-delay"));
    r.push(owned("--page-limit"));
    r.push(owned("--params"));
    r.push(owned("--project"));
    r.push(owned("--sanitize"));
    r.push(owned("--scopes"));
    r.push(owned("--services"));
    r.push(owned("--upload"));
    r.push(owned("--upload-content-type"));
    assert(texts(r@) =~= value_flags());
    r
}

pub fn global_service_flag_list() -> (r: Vec<String>)
    ensures
        texts(r@) == global_service_flags(),
{
    let mut r: Vec<String> = Vec::new();
    r.push(owned("--api-version"));
    r.push(owned("--dry-run"));
    r.push(owned("--format"));
    r.push(owned("--sanitize"));
    assert(texts(r@) =~= global_service_flags());
    r
}

/// Whether `word` is one of the options that take a value.
pub fn option_expects_value(word: &str) -> (r: bool)
    ensures
        r == expects_value(word@),
{
    let flags = value_flag_list();
    let mut i: usize = 0;
    while i < flags.len()
        invariant
            0 <= i <= flags@.len(),
            texts(flags@) == value_flags(),
            forall|k: int| 0 <= k < i ==> value_flags()[k] != word@,
        decreases flags@.len() - i,
    {
        assert(texts(flags@)[i as int] == flags@[i as int]@);
        if same_text(flags[i].as_str(), word) {
            return true;
        }
        i = i + 1;
    }
    false
}

/// Whether `word` is a long value option written as `--option=value`.
pub fn is_equals_option(word: &str) -> (r: bool)
    ensures
        r == spec_is_equals_option(word@),
{
    let flags = value_flag_list();
    let mut i: usize = 0;
    while i < flags.len()
        invariant
            0 <= i <= flags@.len(),
            texts(flags@) == value_flags(),
            forall|k: int|
                0 <= k < i ==> !("--"@.is_prefix_of(value_flags()[k]) && (#[trigger] value_flags()[k]
                    + "="@).is_prefix_of(word@)),
        decreases flags@.len() - i,
    {
        assert(texts(flags@)[i as int] == flags@[i as int]@);
        let flag = flags[i].as_str();
        if starts_with(flag, "--") {
            let with_equals = glue(flag, "=");
            if starts_with(word, with_equals.as_str()) {
                return true;
            }
        }
        i = i + 1;
    }
    false
}

/// Where the run of global options at the front of `words`, from position `i`
/// on, ends. A value option skips the word after it too, so the end may lie
/// one past the last word.
pub open spec fn global_options_end(words: Seq<Seq<char>>, i: int) -> int
    decreases words.len() + 1 - i,
{
    if i < 0 || i >= words.len() {
        i
    } else if is_help_or_version(words[i]) {
        global_options_end(words, i + 1)
    } else if expects_value(words[i]) {
        global_options_end(words, i + 2)
    } else if spec_is_equals_option(words[i]) {
        global_options_end(words, i + 1)
    } else {
        i
    }
}

pub proof fn lemma_global_options_end_bounds(words: Seq<Seq<char>>, i: int)
    requires
        0 <= i,
    ensures
        i <= global_options_end(words, i) <= words.len() + 1 || (i > words.len() && global_options_end(words, i) == i),
    decreases words.len() + 1 - i,
{
    if i < words.len() {
        if is_help_or_version(words[i]) {
            lemma_global_options_end_bounds(words, i + 1);
        } else if expects_value(words[i]) {
            lemma_global_options_end_bounds(words, i + 2);
        } else if spec_is_equals_option(words[i]) {
            lemma_global_options_end_bounds(words, i + 1);
        }
    }
}

/// Computes where the global options at the front of `words` end, or `None`
/// where a value option is the last word and the end lies past the words.
pub fn leading_options_end(words: &[String]) -> (r: Option<usize>)
    ensures
        r == (if global_options_end(texts(words@), 0) <= words@.len() {
            Some(global_options_end(texts(words@), 0) as usize)
        } else {
            None::<usize>
        }),
{
    let ghost w = texts(words@);
    proof {
        lemma_global_options_end_bounds(w, 0);
    }
    let mut i: usize = 0;
    while i < words.len()
        invariant
            0 <= i <= words@.len(),
            w == texts(words@),
            global_options_end(w, i as int) == global_options_end(w, 0),
        decreases words@.len() - i,
    {
        let word = words[i].as_str();
        assert(w[i as int] == word@);
        if same_text(word, "--help") || same_text(word, "-h") || same_text(word, "--version")
            || same_text(word, "-V") {
            i = i + 1;
        } else if option_expects_value(word) {
            if i + 1 == words.len() {
                assert(global_options_end(w, i + 2) == i + 2);
                return None;
            }
            i = i + 2;
        } else if is_equals_option(word) {
            i = i + 1;
        } else {
            return Some(i);
        }
    }
    Some(i)
}

/// Drops the global options (with their values) that stand before the command.
pub fn strip_leading_global_options(words: &[String]) -> (r: Vec<String>)
    requires
        global_options_end(texts(words@), 0) <= words@.len(),
    ensures
        texts(r@) == texts(words@).skip(global_options_end(texts(words@), 0)),
{
    let n = words.len();
    proof {
        lemma_global_options_end_bounds(texts(words@), 0);
    }
    let start = match leading_options_end(words) {
        Some(end) => end,
        None => 0,
    };
    let mut r: Vec<String> = Vec::new();
    let mut j: usize = start;
    while j < words.len()
        invariant
            start <= j <= words@.len(),
            start == global_options_end(texts(words@), 0),
            texts(r@) == texts(words@).subrange(start as int, j as int),
        decreases words@.len() - j,
    {
        let word = words[j].clone();
        assert(word@ == texts(words@)[j as int]);
        let ghost before = r@;
        r.push(word);
        assert(texts(r@) =~= texts(before).push(word@));
        assert(texts(r@) =~= texts(words@).subrange(start as int, j + 1));
        j = j + 1;
    }
    assert(texts(words@).subrange(start as int, j as int) =~= texts(words@).skip(start as int));
    r
}


/// Once the global options are dropped, the first remaining word is none of
/// them: not `--help`, `-h`, `--version` or `-V`, not an option that takes a
/// value, and not such an option with its value after `=`.
pub proof fn lemma_stripped_starts_after_options(words: Seq<Seq<char>>, i: int)
    requires
        0 <= i,
        global_options_end(words, i) < words.len(),
    ensures
        !is_help_or_version(words[global_options_end(words, i)]),
        !expects_value(words[global_options_end(words, i)]),
        !spec_is_equals_option(words[global_options_end(words, i)]),
    decreases words.len() + 1 - i,
{
    if i < words.len() {
        if is_help_or_version(words[i]) {
            lemma_stripped_starts_after_options(words, i + 1);
        } else if expects_value(words[i]) {
            lemma_stripped_starts_after_options(words, i + 2);
        } else if spec_is_equals_option(words[i]) {
            lemma_stripped_starts_after_options(words, i + 1);
        }
    }
}


/// Whether the word at `k` is a global option, or the value of a value
/// option just before it.
pub open spec fn is_option_or_value(words: Seq<Seq<char>>, k: int) -> bool {
    ||| is_help_or_version(words[k])
    ||| expects_value(words[k])
    ||| spec_is_equals_option(words[k])
    ||| (k > 0 && expects_value(words[k - 1]))
}

/// Stripping drops only global options and the values of value options:
/// every word before where the options end is one of them.
pub proof fn lemma_stripped_words_are_options(words: Seq<Seq<char>>, i: int)
    requires
        0 <= i,
    ensures
        forall|k: int|
            i <= k < global_options_end(words, i) && k < words.len() ==> is_option_or_value(words, k),
    decreases words.len() + 1 - i,
{
    if i < words.len() {
        if is_help_or_version(words[i]) {
            lemma_stripped_words_are_options(words, i + 1);
        } else if expects_value(words[i]) {
            lemma_stripped_words_are_options(words, i + 2);
            if i + 1 < words.len() {
                assert(is_option_or_value(words, i + 1));
            }
        } else if spec_is_equals_option(words[i]) {
            lemma_stripped_words_are_options(words, i + 1);
        }
    }
}

/// No option that takes a value has a `=` in its name.
pub proof fn lemma_value_flags_lack_equals()
    ensures
        forall|j: int| 0 <= j < value_flags().len() ==> !(#[trigger] value_flags()[j]).contains('='),
{
    reveal_strlit("--api-version");
    reveal_strlit("--filter");
    reveal_strlit("--format");
    reveal_strlit("--json");
    reveal_strlit("--output");
    reveal_strlit("-o");
    reveal_strlit("--output-dir");
    reveal_strlit("--page-delay");
    reveal_strlit("--page-limit");
    reveal_strlit("--params");
    reveal_strlit("--project");
    reveal_strlit("--sanitize");
    reveal_strlit("--scopes");
    reveal_strlit("--services");
    reveal_strlit("--upload");
    reveal_strlit("--upload-content-type");
    assert forall|j: int| 0 <= j < value_flags().len() implies !(#[trigger] value_flags()[j]).contains('=') by {
        let f = value_flags()[j];
        assert forall|k: int| 0 <= k < f.len() implies f[k] != '=' by {
        }
    }
}

/// A value option with its value attached is never itself a value option.
pub proof fn lemma_equals_option_is_no_value_flag(word: Seq<char>)
    ensures
        spec_is_equals_option(word) ==> !expects_value(word),
{
    if spec_is_equals_option(word) && expects_value(word) {
        lemma_value_flags_lack_equals();
        reveal_strlit("=");
        let i = choose|i: int|
            0 <= i < value_flags().len() && "--"@.is_prefix_of(value_flags()[i])
                && (#[trigger] value_flags()[i] + "="@).is_prefix_of(word);
        let f = value_flags()[i];
        assert(word[f.len() as int] == (f + "="@)[f.len() as int]);
        assert((f + "="@)[f.len() as int] == '=');
        let j = choose|j: int| 0 <= j < value_flags().len() && value_flags()[j] == word;
        assert(value_flags()[j].contains('='));
    }
}


/// A word that does not start with `-` is no global option, and no global
/// options are dropped in front of it.
pub proof fn lemma_dashless_is_no_option(word: Seq<char>, rest: Seq<Seq<char>>)
    requires
        word.len() > 0,
        word[0] != '-',
    ensures
        !is_help_or_version(word),
        !expects_value(word),
        !spec_is_equals_option(word),
        global_options_end(seq![word] + rest, 0) == 0,
{
    reveal_strlit("--help");
    reveal_strlit("-h");
    reveal_strlit("--version");
    reveal_strlit("-V");
    reveal_strlit("--");
    reveal_strlit("--api-version");
    reveal_strlit("--filter");
    reveal_strlit("--format");
    reveal_strlit("--json");
    reveal_strlit("--output");
    reveal_strlit("-o");
    reveal_strlit("--output-dir");
    reveal_strlit("--page-delay");
    reveal_strlit("--page-limit");
    reveal_strlit("--params");
    reveal_strlit("--project");
    reveal_strlit("--sanitize");
    reveal_strlit("--scopes");
    reveal_strlit("--services");
    reveal_strlit("--upload");
    reveal_strlit("--upload-content-type");
    assert forall|j: int| 0 <= j < value_flags().len() implies (#[trigger] value_flags()[j])[0] == '-' by {
    }
    if expects_value(word) {
        let j = choose|j: int| 0 <= j < value_flags().len() && value_flags()[j] == word;
        assert(value_flags()[j][0] == '-');
    }
    if spec_is_equals_option(word) {
        let i = choose|i: int|
            0 <= i < value_flags().len() && "--"@.is_prefix_of(value_flags()[i])
                && (#[trigger] value_flags()[i] + "="@).is_prefix_of(word);
        assert(word[0] == (value_flags()[i] + "="@)[0]);
        assert(value_flags()[i][0] == '-');
    }
    let a = seq![word] + rest;
    assert(a[0] == word);
}

} // verus!
