//! The candidates that completion offers for the built-in commands, and how
//! candidates are narrowed to the word being completed.
use vstd::prelude::*;

use crate::order::{
    lemma_sorted_unique, lemma_text_lt_irreflexive,
    lemma_text_lt_total, lemma_text_lt_transitive, strictly_sorted, text_less, text_lt,
};
use crate::services::{service_table, services, ServiceView};
use crate::shell::spec_parse_shell;
use crate::text::{owned, same_text, starts_with, texts};

verus! {

/// The commands of `gws` itself.
pub open spec fn top_level_commands() -> Seq<Seq<char>> {
    seq!["auth"@, "schema"@, "generate-skills"@, "completion"@, "version"@]
}

/// The options that `gws` takes before a command.
pub open spec fn top_level_flags() -> Seq<Seq<char>> {
    seq!["--api-version"@, "--help"@, "-h"@, "--version"@, "-V"@]
}

/// The names of the shells that `gws completion` supports.
pub open spec fn shell_names() -> Seq<Seq<char>> {
    seq!["bash"@, "zsh"@, "fish"@]
}

/// Every name of every service, service by service.
pub open spec fn all_aliases(table: Seq<ServiceView>) -> Seq<Seq<char>>
    decreases table.len(),
{
    if table.len() == 0 {
        Seq::empty()
    } else {
        all_aliases(table.drop_last()) + table.last().0
    }
}

/// What may stand first on a command line: a service, a command or an option.
pub open spec fn spec_top_level_candidates() -> Seq<Seq<char>> {
    all_aliases(service_table()) + top_level_commands() + top_level_flags()
}

pub fn push_all(out: &mut Vec<String>, more: &Vec<String>)
    ensures
        texts(final(out)@) == texts(old(out)@) + texts(more@),
{
    let mut i: usize = 0;
    let ghost start = texts(out@);
    while i < more.len()
        invariant
            0 <= i <= more@.len(),
            texts(out@) == start + texts(more@).take(i as int),
        decreases more@.len() - i,
    {
        let ghost before = out@;
        out.push(more[i].clone());
        assert(texts(out@) =~= texts(before).push(more@[i as int]@));
        assert(texts(more@).take(i + 1) =~= texts(more@).take(i as int).push(texts(more@)[i as int]));
        i = i + 1;
    }
    assert(texts(more@).take(i as int) =~= texts(more@));
}

/// The texts of a sequence of string slices.
pub open spec fn str_texts(v: Seq<&str>) -> Seq<Seq<char>> {
    v.map_values(|s: &str| s@)
}

fn texts_of(lits: &[&str]) -> (r: Vec<String>)
    ensures
        texts(r@) == str_texts(lits@),
{
    let mut r: Vec<String> = Vec::new();
    let mut i: usize = 0;
    while i < lits.len()
        invariant
            0 <= i <= lits@.len(),
            texts(r@) == str_texts(lits@).take(i as int),
        decreases lits@.len() - i,
    {
        let ghost before = r@;
        let t = owned(lits[i]);
        assert(t@ == str_texts(lits@)[i as int]);
        r.push(t);
        assert(texts(r@) =~= texts(before).push(t@));
        assert(texts(r@) =~= str_texts(lits@).take(i + 1));
        i = i + 1;
    }
    assert(str_texts(lits@).take(i as int) =~= str_texts(lits@));
    r
}

/// The candidates for the first word: every service name, then the
/// commands, then the options.
pub fn top_level_candidates() -> (r: Vec<String>)
    ensures
        texts(r@) == spec_top_level_candidates(),
{
    let table = services();
    let mut r: Vec<String> = Vec::new();
    let mut i: usize = 0;
    assert(service_table().take(0) =~= Seq::<ServiceView>::empty());
    while i < table.len()
        invariant
            0 <= i <= table@.len(),
            crate::services::entry_views(table@) == service_table(),
            texts(r@) == all_aliases(service_table().take(i as int)),
        decreases table@.len() - i,
    {
        assert(service_table()[i as int] == table@[i as int].view_parts());
        push_all(&mut r, &table[i].aliases);
        assert(service_table().take(i + 1).drop_last() =~= service_table().take(i as int));
        i = i + 1;
    }
    assert(service_table().take(i as int) =~= service_table());
    let commands = texts_of(&["auth", "schema", "generate-skills", "completion", "version"]);
    assert(texts(commands@) =~= top_level_commands());
    push_all(&mut r, &commands);
    let flags = texts_of(&["--api-version", "--help", "-h", "--version", "-V"]);
    assert(texts(flags@) =~= top_level_flags());
    push_all(&mut r, &flags);
    r
}

/// What `gws completion` offers after it: the shell names, where no word follows yet.
pub open spec fn spec_completion_command_candidates(words: Seq<Seq<char>>) -> Seq<Seq<char>> {
    if words.len() == 0 {
        shell_names()
    } else {
        Seq::empty()
    }
}

/// The candidates after `gws completion`.
pub fn completion_command_candidates(words: &[String]) -> (r: Vec<String>)
    ensures
        texts(r@) == spec_completion_command_candidates(texts(words@)),
{
    if words.len() == 0 {
        let r = texts_of(&["bash", "zsh", "fish"]);
        assert(texts(r@) =~= shell_names());
        r
    } else {
        let r: Vec<String> = Vec::new();
        assert(texts(r@) =~= Seq::<Seq<char>>::empty());
        r
    }
}

/// What `gws auth` offers: its subcommands, then the options of the
/// subcommand given.
pub open spec fn spec_auth_command_candidates(words: Seq<Seq<char>>) -> Seq<Seq<char>> {
    if words.len() == 0 {
        seq!["login"@, "setup"@, "status"@, "export"@, "logout"@, "--help"@, "-h"@]
    } else if words[0] == "login"@ {
        seq!["--readonly"@, "--full"@, "--scopes"@, "--services"@, "--help"@, "-h"@]
    } else if words[0] == "setup"@ {
        seq!["--project"@, "--login"@, "--dry-run"@, "--help"@, "-h"@]
    } else if words[0] == "export"@ {
        seq!["--unmasked"@, "--help"@, "-h"@]
    } else if words[0] == "status"@ || words[0] == "logout"@ {
        seq!["--help"@, "-h"@]
    } else {
        Seq::empty()
    }
}

/// The candidates after `gws auth`.
pub fn auth_command_candidates(words: &[String]) -> (r: Vec<String>)
    ensures
        texts(r@) == spec_auth_command_candidates(texts(words@)),
{
    if words.len() == 0 {
        let r = texts_of(&["login", "setup", "status", "export", "logout", "--help", "-h"]);
        assert(texts(r@) =~= spec_auth_command_candidates(texts(words@)));
        return r;
    }
    let first = words[0].as_str();
    assert(texts(words@)[0] == first@);
    let r = if same_text(first, "login") {
        texts_of(&["--readonly", "--full", "--scopes", "--services", "--help", "-h"])
    } else if same_text(first, "setup") {
        texts_of(&["--project", "--login", "--dry-run", "--help", "-h"])
    } else if same_text(first, "export") {
        texts_of(&["--unmasked", "--help", "-h"])
    } else if same_text(first, "status") || same_text(first, "logout") {
        texts_of(&["--help", "-h"])
    } else {
        Vec::new()
    };
    assert(texts(r@) =~= spec_auth_command_candidates(texts(words@)));
    r
}

/// Whether a candidate fits the word being completed: any candidate fits an
/// empty word, and otherwise a candidate that begins with the word.
pub open spec fn fits_current(candidate: Seq<char>, current: Seq<char>) -> bool {
    current.len() == 0 || current.is_prefix_of(candidate)
}

/// `out` lists the candidates that fit `current`, each once, in order.
pub open spec fn is_filtered(out: Seq<Seq<char>>, candidates: Seq<Seq<char>>, current: Seq<char>) -> bool {
    &&& strictly_sorted(out)
    &&& forall|x: Seq<char>|
        #![trigger out.contains(x)]
        #![trigger candidates.contains(x)]
        out.contains(x) <==> (candidates.contains(x) && fits_current(x, current))
}

proof fn lemma_insert_sorted(s: Seq<Seq<char>>, p: int, x: Seq<char>)
    requires
        strictly_sorted(s),
        0 <= p <= s.len(),
        forall|k: int| 0 <= k < p ==> text_lt(#[trigger] s[k], x),
        p < s.len() ==> text_lt(x, s[p]),
    ensures
        strictly_sorted(s.insert(p, x)),
{
    let t = s.insert(p, x);
    assert forall|i: int, j: int| 0 <= i < j < t.len() implies text_lt(#[trigger] t[i], #[trigger] t[j]) by {
        if j < p {
            assert(t[i] == s[i] && t[j] == s[j]);
        } else if j == p {
            assert(t[i] == s[i]);
        } else if i < p {
            assert(t[i] == s[i] && t[j] == s[j - 1]);
            assert(text_lt(s[i], x));
            assert(text_lt(x, s[p]));
            lemma_text_lt_transitive(s[i], x, s[p]);
            if j - 1 > p {
                lemma_text_lt_transitive(s[i], s[p], s[j - 1]);
            }
        } else if i == p {
            assert(t[j] == s[j - 1]);
            if j - 1 > p {
                lemma_text_lt_transitive(x, s[p], s[j - 1]);
            }
        } else {
            assert(t[i] == s[i - 1] && t[j] == s[j - 1]);
        }
    }
}

/// The texts of `o` are those of `seen` that fit `current`.
pub open spec fn holds_fitting(o: Seq<Seq<char>>, seen: Seq<Seq<char>>, current: Seq<char>) -> bool {
    forall|x: Seq<char>| o.contains(x) <==> (seen.contains(x) && fits_current(x, current))
}

proof fn lemma_holds_fitting_insert(
    o: Seq<Seq<char>>,
    p: int,
    c: Seq<char>,
    seen: Seq<Seq<char>>,
    current: Seq<char>,
)
    requires
        0 <= p <= o.len(),
        holds_fitting(o, seen, current),
        fits_current(c, current),
    ensures
        holds_fitting(o.insert(p, c), seen.push(c), current),
{
    let n = o.insert(p, c);
    let t = seen.push(c);
    assert forall|x: Seq<char>| n.contains(x) implies t.contains(x) && fits_current(x, current) by {
        let k = choose|k: int| 0 <= k < n.len() && n[k] == x;
        if k == p {
            assert(t[seen.len() as int] == x);
        } else {
            if k < p {
                assert(o[k] == x);
            } else {
                assert(o[k - 1] == x);
            }
            assert(o.contains(x));
            let j = choose|j: int| 0 <= j < seen.len() && seen[j] == x;
            assert(t[j] == x);
        }
    }
    assert forall|x: Seq<char>| t.contains(x) && fits_current(x, current) implies n.contains(x) by {
        let j = choose|j: int| 0 <= j < t.len() && t[j] == x;
        if j == seen.len() {
            assert(n[p] == x);
        } else {
            assert(seen[j] == x);
            assert(seen.contains(x));
            let k = choose|k: int| 0 <= k < o.len() && o[k] == x;
            if k < p {
                assert(n[k] == x);
            } else {
                assert(n[k + 1] == x);
            }
        }
    }
}

proof fn lemma_holds_fitting_same(o: Seq<Seq<char>>, c: Seq<char>, seen: Seq<Seq<char>>, current: Seq<char>)
    requires
        holds_fitting(o, seen, current),
        !fits_current(c, current) || o.contains(c),
    ensures
        holds_fitting(o, seen.push(c), current),
{
    let t = seen.push(c);
    assert forall|x: Seq<char>| o.contains(x) implies t.contains(x) by {
        let j = choose|j: int| 0 <= j < seen.len() && seen[j] == x;
        assert(t[j] == x);
    }
    assert forall|x: Seq<char>| t.contains(x) && fits_current(x, current) implies o.contains(x) by {
        let j = choose|j: int| 0 <= j < t.len() && t[j] == x;
        if j < seen.len() {
            assert(seen[j] == x);
        }
    }
}

/// Narrows the candidates to those that fit the word being completed, and
/// lists each of them once, in order.
pub fn filter_candidates(candidates: Vec<String>, current: &str) -> (r: Vec<String>)
    ensures
        is_filtered(texts(r@), texts(candidates@), current@),
{
    let ghost cs = texts(candidates@);
    let take_all = current.is_empty();
    let mut out: Vec<String> = Vec::new();
    let mut i: usize = 0;
    assert(texts(out@) =~= Seq::<Seq<char>>::empty());
    assert(cs.take(0) =~= Seq::<Seq<char>>::empty());
    while i < candidates.len()
        invariant
            0 <= i <= candidates@.len(),
            cs == texts(candidates@),
            take_all == (current@.len() == 0),
            strictly_sorted(texts(out@)),
            holds_fitting(texts(out@), cs.take(i as int), current@),
        decreases candidates@.len() - i,
    {
        let candidate = candidates[i].as_str();
        assert(cs[i as int] == candidate@);
        assert(cs.take(i + 1) =~= cs.take(i as int).push(candidate@));
        let ghost o = texts(out@);
        let fits = take_all || starts_with(candidate, current);
        if fits {
            let mut p: usize = 0;
            while p < out.len() && text_less(out[p].as_str(), candidate)
                invariant
                    0 <= p <= out@.len(),
                    o == texts(out@),
                    forall|k: int| 0 <= k < p ==> text_lt(#[trigger] o[k], candidate@),
                decreases out@.len() - p,
            {
                assert(o[p as int] == out@[p as int]@);
                p = p + 1;
            }
            if p < out.len() && same_text(out[p].as_str(), candidate) {
                assert(o[p as int] == candidate@);
                proof {
                    lemma_holds_fitting_same(o, candidate@, cs.take(i as int), current@);
                }
            } else {
                proof {
                    if p < o.len() {
                        assert(o[p as int] == out@[p as int]@);
                        lemma_text_lt_total(o[p as int], candidate@);
                    }
                    lemma_insert_sorted(o, p as int, candidate@);
                    lemma_holds_fitting_insert(o, p as int, candidate@, cs.take(i as int), current@);
                }
                out.insert(p, candidates[i].clone());
                assert(texts(out@) =~= o.insert(p as int, candidate@));
            }
        } else {
            proof {
                lemma_holds_fitting_same(o, candidate@, cs.take(i as int), current@);
            }
        }
        i = i + 1;
    }
    assert(cs.take(i as int) =~= cs);
    out
}

/// The filtered list is determined by the candidates and the current word
/// alone: any two lists that meet the contract of `filter_candidates` for the
/// same candidates (or candidates holding the same texts) are the same list.
pub proof fn lemma_filter_is_determined(
    out1: Seq<Seq<char>>,
    out2: Seq<Seq<char>>,
    candidates1: Seq<Seq<char>>,
    candidates2: Seq<Seq<char>>,
    current: Seq<char>,
)
    requires
        is_filtered(out1, candidates1, current),
        is_filtered(out2, candidates2, current),
        forall|x: Seq<char>| candidates1.contains(x) <==> candidates2.contains(x),
    ensures
        out1 == out2,
{
    assert forall|x: Seq<char>| out1.contains(x) <==> out2.contains(x) by {
        if out1.contains(x) {
            assert(candidates1.contains(x));
        }
        if out2.contains(x) {
            assert(candidates2.contains(x));
        }
    }
    lemma_sorted_unique(out1, out2);
}

/// Filtering twice with the same word changes nothing: a filtered list,
/// filtered again, comes back unchanged.
pub proof fn lemma_filter_idempotent(
    once: Seq<Seq<char>>,
    twice: Seq<Seq<char>>,
    candidates: Seq<Seq<char>>,
    current: Seq<char>,
)
    requires
        is_filtered(once, candidates, current),
        is_filtered(twice, once, current),
    ensures
        twice == once,
{
    assert forall|x: Seq<char>| twice.contains(x) <==> once.contains(x) by {
        if once.contains(x) {
            assert(candidates.contains(x));
        }
    }
    lemma_sorted_unique(twice, once);
}


/// `gws completion` offers exactly the names that select a shell.
pub proof fn lemma_completion_offers_exactly_the_shells(name: Seq<char>)
    ensures
        spec_completion_command_candidates(Seq::empty()).contains(name) <==> spec_parse_shell(name) is Some,
{
    reveal_strlit("bash");
    reveal_strlit("zsh");
    reveal_strlit("fish");
    let names = shell_names();
    if spec_parse_shell(name) is Some {
        if name == "bash"@ {
            assert(names[0] == name);
        } else if name == "zsh"@ {
            assert(names[1] == name);
        } else {
            assert(names[2] == name);
        }
    }
    if names.contains(name) {
        let k = choose|k: int| 0 <= k < names.len() && names[k] == name;
        assert(k == 0 || k == 1 || k == 2);
    }
}

proof fn lemma_all_aliases_contains(table: Seq<ServiceView>, i: int, j: int)
    requires
        0 <= i < table.len(),
        0 <= j < table[i].0.len(),
    ensures
        all_aliases(table).contains(table[i].0[j]),
    decreases table.len(),
{
    let rest = table.drop_last();
    if i == table.len() - 1 {
        assert(all_aliases(table)[all_aliases(rest).len() + j] == table[i].0[j]);
    } else {
        assert(rest[i] == table[i]);
        lemma_all_aliases_contains(rest, i, j);
        let k = choose|k: int| 0 <= k < all_aliases(rest).len() && all_aliases(rest)[k] == table[i].0[j];
        assert(all_aliases(table)[k] == table[i].0[j]);
    }
}

/// The first word may be any name of any known service, and any command or
/// option of `gws` itself.
pub proof fn lemma_top_level_offers_everything(i: int, j: int, name: Seq<char>)
    ensures
        (0 <= i < service_table().len() && 0 <= j < service_table()[i].0.len())
            ==> spec_top_level_candidates().contains(service_table()[i].0[j]),
        (top_level_commands().contains(name) || top_level_flags().contains(name))
            ==> spec_top_level_candidates().contains(name),
{
    let a = all_aliases(service_table());
    let all = spec_top_level_candidates();
    if 0 <= i < service_table().len() && 0 <= j < service_table()[i].0.len() {
        lemma_all_aliases_contains(service_table(), i, j);
        let k = choose|k: int| 0 <= k < a.len() && a[k] == service_table()[i].0[j];
        assert(all[k] == a[k]);
    }
    if top_level_commands().contains(name) {
        let k = choose|k: int| 0 <= k < top_level_commands().len() && top_level_commands()[k] == name;
        assert(all[a.len() + k] == name);
    }
    if top_level_flags().contains(name) {
        let k = choose|k: int| 0 <= k < top_level_flags().len() && top_level_flags()[k] == name;
        assert(all[a.len() + top_level_commands().len() + k] == name);
    }
}

/// Every candidate offered fits the word being completed, and no candidate
/// is offered twice.
pub proof fn lemma_filtered_fit(out: Seq<Seq<char>>, candidates: Seq<Seq<char>>, current: Seq<char>)
    requires
        is_filtered(out, candidates, current),
    ensures
        forall|k: int| 0 <= k < out.len() ==> fits_current(#[trigger] out[k], current),
        out.no_duplicates(),
{
    assert forall|k: int| 0 <= k < out.len() implies fits_current(#[trigger] out[k], current) by {
        assert(out.contains(out[k]));
    }
    assert forall|p: int, q: int| 0 <= p < out.len() && 0 <= q < out.len() && p != q implies out[p] != out[q] by {
        if p < q {
            assert(text_lt(out[p], out[q]));
            lemma_text_lt_irreflexive(out[p]);
        } else {
            assert(text_lt(out[q], out[p]));
            lemma_text_lt_irreflexive(out[q]);
        }
    }
}


/// What `gws auth` offers depends only on the first word after it: any
/// words after that one change nothing, so `auth login` followed by anything
/// offers the login options; and with no word yet it offers the subcommands.
pub proof fn lemma_auth_reads_only_the_first_word(first: Seq<char>, more: Seq<Seq<char>>)
    ensures
        spec_auth_command_candidates(seq![first] + more) == spec_auth_command_candidates(seq![first]),
        spec_auth_command_candidates(seq!["login"@] + more) == seq![
            "--readonly"@,
            "--full"@,
            "--scopes"@,
            "--services"@,
            "--help"@,
            "-h"@,
        ],
        spec_auth_command_candidates(seq!["setup"@] + more) == seq![
            "--project"@,
            "--login"@,
            "--dry-run"@,
            "--help"@,
            "-h"@,
        ],
        spec_auth_command_candidates(seq!["export"@] + more) == seq!["--unmasked"@, "--help"@, "-h"@],
        spec_auth_command_candidates(seq!["status"@] + more) == seq!["--help"@, "-h"@],
        spec_auth_command_candidates(seq!["logout"@] + more) == seq!["--help"@, "-h"@],
        spec_auth_command_candidates(Seq::empty()) == seq![
            "login"@,
            "setup"@,
            "status"@,
            "export"@,
            "logout"@,
            "--help"@,
            "-h"@,
        ],
{
    reveal_strlit("login");
    reveal_strlit("setup");
    reveal_strlit("export");
    reveal_strlit("status");
    reveal_strlit("logout");
    assert((seq![first] + more)[0] == first);
    assert(seq![first][0] == first);
    assert((seq!["login"@] + more)[0] == "login"@);
    assert((seq!["setup"@] + more)[0] == "setup"@);
    assert((seq!["export"@] + more)[0] == "export"@);
    assert((seq!["status"@] + more)[0] == "status"@);
    assert((seq!["logout"@] + more)[0] == "logout"@);
    assert("setup"@[0] != "login"@[0]);
    assert("export"@[0] != "login"@[0] && "export"@[0] != "setup"@[0]);
    assert("status"@[0] != "login"@[0] && "status"@[0] != "export"@[0] && "status"@[1] != "setup"@[1]);
    assert("logout"@[3] != "login"@[3] && "logout"@[0] != "setup"@[0] && "logout"@[0] != "export"@[0]);
}


proof fn lemma_all_aliases_come_from_entries(table: Seq<ServiceView>, x: Seq<char>)
    requires
        all_aliases(table).contains(x),
    ensures
        exists|i: int| 0 <= i < table.len() && (#[trigger] table[i]).0.contains(x),
    decreases table.len(),
{
    let rest = table.drop_last();
    let a = all_aliases(rest);
    let k = choose|k: int| 0 <= k < all_aliases(table).len() && all_aliases(table)[k] == x;
    if k < a.len() {
        assert(a[k] == x);
        lemma_all_aliases_come_from_entries(rest, x);
        let i = choose|i: int| 0 <= i < rest.len() && (#[trigger] rest[i]).0.contains(x);
        assert(table[i] == rest[i]);
    } else {
        assert(table.last().0[k - a.len()] == x);
        assert(table[table.len() - 1].0.contains(x));
    }
}

proof fn lemma_alias_of_entry_resolves(table: Seq<ServiceView>, x: Seq<char>)
    requires
        exists|i: int| 0 <= i < table.len() && (#[trigger] table[i]).0.contains(x),
    ensures
        crate::services::lookup_service(table, x) is Some,
    decreases table.len(),
{
    if !table[0].0.contains(x) {
        let i = choose|i: int| 0 <= i < table.len() && (#[trigger] table[i]).0.contains(x);
        assert(i != 0);
        assert(table.drop_first()[i - 1] == table[i]);
        lemma_alias_of_entry_resolves(table.drop_first(), x);
    }
}

/// The first word is offered only what `gws` accepts there: every top-level
/// candidate is a built-in command, a top-level option, or a name that
/// resolves to a known service (no bare API name that no service goes by).
pub proof fn lemma_top_level_offers_only_known_words(x: Seq<char>)
    ensures
        spec_top_level_candidates().contains(x) ==> (all_aliases(service_table()).contains(x)
            || top_level_commands().contains(x) || top_level_flags().contains(x)),
        spec_top_level_candidates().contains(x) ==> (crate::services::spec_resolve_service(x) is Ok
            || top_level_commands().contains(x) || top_level_flags().contains(x)),
{
    let a = all_aliases(service_table());
    let c = top_level_commands();
    let f = top_level_flags();
    let all = spec_top_level_candidates();
    if all.contains(x) {
        let k = choose|k: int| 0 <= k < all.len() && all[k] == x;
        if k < a.len() {
            assert(a[k] == x);
            assert(a.contains(x));
            lemma_all_aliases_come_from_entries(service_table(), x);
            lemma_alias_of_entry_resolves(service_table(), x);
        } else if k < a.len() + c.len() {
            assert(c[k - a.len()] == x);
        } else {
            assert(f[k - a.len() - c.len()] == x);
        }
    }
}

} // verus!
