//! What `gws __complete` answers: the candidates for the word being completed.
//!
//! The built-in commands are answered at once. A service needs its command
//! tree, which comes from the service's Discovery document; there the answer
//! is in two steps: `completion_candidates` names the API and version whose
//! command tree is needed, and `service_command_candidates` answers from the
//! tree that the caller fetched, or with nothing where it could not be had.
use vstd::prelude::*;

use crate::order::strictly_sorted;
use crate::candidates::{
    auth_command_candidates, completion_command_candidates, filter_candidates, fits_current, is_filtered, lemma_filtered_fit,
    spec_auth_command_candidates, spec_completion_command_candidates, spec_top_level_candidates,
    top_level_candidates,
};
use crate::command::{command_candidates, spec_command_candidates, CommandSpec};
use crate::flags::{expects_value, global_options_end, leading_options_end, option_expects_value, strip_leading_global_options};
use crate::services::{resolve_completion_service, spec_resolve_completion_service};
use crate::text::{owned, same_text, texts};
use crate::words::{
    has_portable_file_name, is_gws_program, is_program_name, last_segment, mentions_program_name, normalize_completion_words_with,
    opt_str, spec_normalize,
};

verus! {

/// The answer to a completion request, or what it still needs.
#[derive(Debug)]
pub enum CompletionStep {
    /// The candidates to print, one per line.
    Candidates(Vec<String>),
    /// The command tree of the service `api_name` at `version` is needed; the
    /// candidates are then those of `service_command_candidates` for `words`
    /// (the words after the service) and `current`.
    NeedsService { api_name: String, version: String, words: Vec<String>, current: String },
}

/// Where the completed words lead: to a fixed list of candidates, or to the
/// command tree of a service (the service word, and the words after it).
pub enum Route {
    Offer(Seq<Seq<char>>),
    Service(Seq<char>, Seq<Seq<char>>),
}

/// The options that `gws schema` takes.
pub open spec fn schema_candidates() -> Seq<Seq<char>> {
    seq!["--resolve-refs"@, "--help"@, "-h"@]
}

/// The options that `gws generate-skills` takes.
pub open spec fn generate_skills_candidates() -> Seq<Seq<char>> {
    seq!["--output-dir"@, "--filter"@, "--help"@, "-h"@]
}

/// Where the completed words (global options already dropped) lead. Where
/// the last of them is an option whose value is being typed, nothing is
/// offered.
pub open spec fn spec_route(completed: Seq<Seq<char>>) -> Route {
    if completed.len() > 0 && expects_value(completed.last()) {
        Route::Offer(Seq::empty())
    } else if completed.len() == 0 {
        Route::Offer(spec_top_level_candidates())
    } else {
        let first = completed[0];
        let rest = completed.drop_first();
        if first == "completion"@ {
            Route::Offer(spec_completion_command_candidates(rest))
        } else if first == "auth"@ {
            Route::Offer(spec_auth_command_candidates(rest))
        } else if first == "schema"@ {
            Route::Offer(schema_candidates())
        } else if first == "generate-skills"@ {
            Route::Offer(generate_skills_candidates())
        } else if first == "version"@ {
            Route::Offer(Seq::empty())
        } else {
            Route::Service(first, rest)
        }
    }
}

/// Whether the global options in front of the completed words end within
/// them (a value option as the last of them has no value to skip).
pub open spec fn options_end_within(completed: Seq<Seq<char>>) -> bool {
    global_options_end(completed, 0) <= completed.len()
}

/// Whether `step` answers the completed words and current word: a fixed
/// list is filtered by the current word; a service that does not resolve
/// offers nothing; a service that resolves asks for its command tree.
pub open spec fn step_answers(step: CompletionStep, completed: Seq<Seq<char>>, current: Seq<char>) -> bool {
    let stripped = completed.skip(global_options_end(completed, 0));
    match spec_route(stripped) {
        Route::Offer(offered) => step matches CompletionStep::Candidates(r) && is_filtered(
            texts(r@),
            offered,
            current,
        ),
        Route::Service(service, rest) => match spec_resolve_completion_service(service, rest) {
            Err(_) => step matches CompletionStep::Candidates(r) && r@.len() == 0,
            Ok((api, version)) => step matches CompletionStep::NeedsService {
                api_name,
                version: v,
                words,
                current: c,
            } && api_name@ == api && v@ == version && texts(words@) == rest && c@ == current,
        },
    }
}

fn literal_list3(a: &str, b: &str, c: &str) -> (r: Vec<String>)
    ensures
        texts(r@) == seq![a@, b@, c@],
{
    let mut r: Vec<String> = Vec::new();
    r.push(owned(a));
    r.push(owned(b));
    r.push(owned(c));
    assert(texts(r@) =~= seq![a@, b@, c@]);
    r
}

fn literal_list4(a: &str, b: &str, c: &str, d: &str) -> (r: Vec<String>)
    ensures
        texts(r@) == seq![a@, b@, c@, d@],
{
    let mut r: Vec<String> = Vec::new();
    r.push(owned(a));
    r.push(owned(b));
    r.push(owned(c));
    r.push(owned(d));
    assert(texts(r@) =~= seq![a@, b@, c@, d@]);
    r
}

fn slice_from(words: &Vec<String>, start: usize) -> (r: Vec<String>)
    requires
        start <= words@.len(),
    ensures
        texts(r@) == texts(words@).skip(start as int),
{
    let mut r: Vec<String> = Vec::new();
    let mut j: usize = start;
    assert(texts(r@) =~= texts(words@).subrange(start as int, start as int));
    while j < words.len()
        invariant
            start <= j <= words@.len(),
            texts(r@) == texts(words@).subrange(start as int, j as int),
        decreases words@.len() - j,
    {
        let ghost before = r@;
        let w = words[j].clone();
        assert(w@ == texts(words@)[j as int]);
        r.push(w);
        assert(texts(r@) =~= texts(before).push(w@));
        assert(texts(r@) =~= texts(words@).subrange(start as int, j + 1));
        j = j + 1;
    }
    assert(texts(words@).subrange(start as int, j as int) =~= texts(words@).skip(start as int));
    r
}

/// Answers a completion request from its completed words and current word
/// (the program name and the current word already taken off).
pub fn complete_normalized(completed: &[String], current: &str) -> (r: CompletionStep)
    requires
        options_end_within(texts(completed@)),
    ensures
        step_answers(r, texts(completed@), current@),
{
    let stripped = strip_leading_global_options(completed);
    let ghost s = texts(stripped@);
    if stripped.len() > 0 && option_expects_value(stripped[stripped.len() - 1].as_str()) {
        assert(s.last() == stripped@[stripped@.len() - 1]@);
        let r = filter_candidates(Vec::new(), current);
        return CompletionStep::Candidates(r);
    }
    if stripped.len() == 0 {
        return CompletionStep::Candidates(filter_candidates(top_level_candidates(), current));
    }
    let first = stripped[0].as_str();
    assert(s[0] == first@);
    let rest = slice_from(&stripped, 1);
    assert(texts(rest@) =~= s.drop_first());
    let offered = if same_text(first, "completion") {
        completion_command_candidates(rest.as_slice())
    } else if same_text(first, "auth") {
        auth_command_candidates(rest.as_slice())
    } else if same_text(first, "schema") {
        literal_list3("--resolve-refs", "--help", "-h")
    } else if same_text(first, "generate-skills") {
        literal_list4("--output-dir", "--filter", "--help", "-h")
    } else if same_text(first, "version") {
        let v: Vec<String> = Vec::new();
        assert(texts(v@) =~= Seq::<Seq<char>>::empty());
        v
    } else {
        return match resolve_completion_service(first, rest.as_slice()) {
            Ok((api_name, version)) => CompletionStep::NeedsService {
                api_name,
                version,
                words: rest,
                current: owned(current),
            },
            Err(_) => CompletionStep::Candidates(Vec::new()),
        };
    };
    CompletionStep::Candidates(filter_candidates(offered, current))
}

/// Answers `gws __complete` for the words on the command line and, where the
/// shell told it, the word being completed. The first word goes where it
/// runs the program (see `is_gws_program`); where the first word is a `/`
/// path whose last segment is a plain component (a plain word among them),
/// that is exactly whether the segment is `gws`, `gws.exe` or `run.js`.
/// `None` where a value option is the last of the global options in front of
/// the completed words, so that the options end past the words.
pub fn completion_candidates(words: &[String], explicit_current: Option<&str>) -> (r: Option<CompletionStep>)
    ensures
        exists|dropped: bool|
            #![trigger spec_normalize(texts(words@), opt_str(explicit_current), dropped)]
            {
                let (completed, current) = spec_normalize(texts(words@), opt_str(explicit_current), dropped);
                &&& dropped ==> words@.len() > 0 && mentions_program_name(words@[0]@)
                &&& (words@.len() > 0 && has_portable_file_name(words@[0]@)) ==> dropped
                    == is_program_name(last_segment(words@[0]@))
                &&& match r {
                    Some(step) => options_end_within(completed) && step_answers(step, completed, current),
                    None => !options_end_within(completed),
                }
            },
{
    let first_is_program = words.len() > 0 && is_gws_program(words[0].as_str());
    let (completed, current) = normalize_completion_words_with(words, explicit_current, first_is_program);
    match leading_options_end(completed.as_slice()) {
        Some(_) => Some(complete_normalized(completed.as_slice(), current.as_str())),
        None => None,
    }
}

/// What a service's command tree answers: nothing where the tree could not
/// be had (completion stays quiet), else the candidates along the tree for
/// the words after the service, narrowed to the word being completed.
pub open spec fn tree_answers(
    out: Seq<Seq<char>>,
    command: Option<CommandSpec>,
    words: Seq<Seq<char>>,
    current: Seq<char>,
) -> bool {
    match command {
        None => out.len() == 0,
        Some(tree) => is_filtered(out, spec_command_candidates(tree, words), current),
    }
}

/// The candidates that a service's command tree offers for the words after
/// the service, narrowed to the word being completed; none where the tree
/// (the service's Discovery document) could not be had.
pub fn service_command_candidates(command: Option<&CommandSpec>, words: &[String], current: &str) -> (r: Vec<String>)
    ensures
        tree_answers(
            texts(r@),
            match command {
                Some(c) => Some(*c),
                None => None,
            },
            texts(words@),
            current@,
        ),
{
    match command {
        Some(tree) => filter_candidates(command_candidates(tree, words), current),
        None => {
            let r: Vec<String> = Vec::new();
            assert(texts(r@) =~= Seq::<Seq<char>>::empty());
            r
        },
    }
}

/// What completing a service word answers, all steps together: nothing where
/// the service word does not resolve, nothing where the service's command
/// tree could not be had, else the candidates along the tree narrowed to the
/// word being completed.
pub open spec fn service_answer(
    out: Seq<Seq<char>>,
    service: Seq<char>,
    rest: Seq<Seq<char>>,
    current: Seq<char>,
    tree: Option<CommandSpec>,
) -> bool {
    match spec_resolve_completion_service(service, rest) {
        Err(_) => out.len() == 0,
        Ok(_) => tree_answers(out, tree, rest, current),
    }
}

/// Completing a service word, the step that names the service and the step
/// that answers from its tree taken together, answers as `service_answer`
/// says: `out` is the answer of the first step where it answers at once, and
/// else what the second step gives for the words and current word that the
/// first step hands on, with the tree of the API and version it names.
pub proof fn lemma_service_completion(
    step: CompletionStep,
    completed: Seq<Seq<char>>,
    current: Seq<char>,
    tree: Option<CommandSpec>,
    out: Seq<Seq<char>>,
)
    requires
        step_answers(step, completed, current),
        spec_route(completed.skip(global_options_end(completed, 0))) is Service,
        step matches CompletionStep::Candidates(r) ==> out == texts(r@),
        step matches CompletionStep::NeedsService { words, current: c, .. } ==> tree_answers(
            out,
            tree,
            texts(words@),
            c@,
        ),
    ensures
        ({
            let route = spec_route(completed.skip(global_options_end(completed, 0)));
            service_answer(out, route->Service_0, route->Service_1, current, tree)
        }),
{
}


/// Where the last completed word is an option whose value is being typed,
/// nothing is offered.
pub proof fn lemma_no_candidates_for_option_values(step: CompletionStep, completed: Seq<Seq<char>>, current: Seq<char>)
    requires
        step_answers(step, completed, current),
        completed.skip(global_options_end(completed, 0)).len() > 0,
        expects_value(completed.skip(global_options_end(completed, 0)).last()),
    ensures
        step matches CompletionStep::Candidates(r) && r@.len() == 0,
{
    if let CompletionStep::Candidates(r) = step {
        if r@.len() > 0 {
            assert(texts(r@).contains(texts(r@)[0]));
        }
    }
}

/// Every candidate of an answer fits the word being completed, the
/// candidates are in order, and none is offered twice.
pub proof fn lemma_answers_fit_current(step: CompletionStep, completed: Seq<Seq<char>>, current: Seq<char>)
    requires
        step_answers(step, completed, current),
    ensures
        step matches CompletionStep::Candidates(r) ==> (forall|k: int|
            0 <= k < r@.len() ==> fits_current(#[trigger] texts(r@)[k], current)) && strictly_sorted(texts(r@))
            && texts(r@).no_duplicates(),
{
    if let CompletionStep::Candidates(r) = step {
        match spec_route(completed.skip(global_options_end(completed, 0))) {
            Route::Offer(offered) => {
                lemma_filtered_fit(texts(r@), offered, current);
            },
            Route::Service(service, rest) => {
                if spec_resolve_completion_service(service, rest) is Ok {
                } else {
                    assert(texts(r@).len() == 0);
                }
            },
        }
    }
}

/// A service word that does not resolve offers no candidates.
pub proof fn lemma_unresolved_service_offers_nothing(
    step: CompletionStep,
    completed: Seq<Seq<char>>,
    current: Seq<char>,
)
    requires
        step_answers(step, completed, current),
        spec_route(completed.skip(global_options_end(completed, 0))) matches Route::Service(service, rest)
            && spec_resolve_completion_service(service, rest) is Err,
    ensures
        step matches CompletionStep::Candidates(r) && r@.len() == 0,
{
}


/// `gws schema` and `gws generate-skills` offer their own options whatever
/// words follow the command (unless the last of them is an option whose
/// value is being typed): the answer for `schema` followed by any words is
/// `--resolve-refs`, `--help`, `-h` narrowed to the current word, and for
/// `generate-skills` its four options likewise.
pub proof fn lemma_schema_and_skills_offer_their_options(
    rest: Seq<Seq<char>>,
    current: Seq<char>,
    step1: CompletionStep,
    step2: CompletionStep,
)
    requires
        rest.len() == 0 || !expects_value(rest.last()),
    ensures
        step_answers(step1, seq!["schema"@] + rest, current) ==> (step1 matches CompletionStep::Candidates(r)
            && is_filtered(texts(r@), seq!["--resolve-refs"@, "--help"@, "-h"@], current)),
        step_answers(step2, seq!["generate-skills"@] + rest, current) ==> (step2 matches CompletionStep::Candidates(r)
            && is_filtered(texts(r@), seq!["--output-dir"@, "--filter"@, "--help"@, "-h"@], current)),
{
    reveal_strlit("schema");
    reveal_strlit("generate-skills");
    reveal_strlit("completion");
    reveal_strlit("auth");
    let a = seq!["schema"@] + rest;
    let b = seq!["generate-skills"@] + rest;
    crate::flags::lemma_dashless_is_no_option("schema"@, rest);
    crate::flags::lemma_dashless_is_no_option("generate-skills"@, rest);
    assert(a.skip(0) =~= a);
    assert(b.skip(0) =~= b);
    assert(a[0] == "schema"@ && b[0] == "generate-skills"@);
    if rest.len() > 0 {
        assert(a.last() == rest.last());
        assert(b.last() == rest.last());
    }
    assert("schema"@ != "completion"@ && "schema"@ != "auth"@) by {
        assert("schema"@[0] != "completion"@[0]);
    }
    assert("generate-skills"@ != "completion"@ && "generate-skills"@ != "auth"@
        && "generate-skills"@ != "schema"@) by {
        assert("generate-skills"@[0] != "completion"@[0]);
        assert("generate-skills"@[0] != "schema"@[0]);
    }
}

} // verus!
