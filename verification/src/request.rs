//! What the shell helper script passes to `gws __complete`: the words typed so
//! far, which of them is being completed, and which shell asks.
use vstd::prelude::*;

use crate::shell::{spec_parse_shell, Shell};
use crate::text::{
    joined, lemma_joined_extend_last, lemma_joined_push, lemma_occurs_at_end, lemma_occurs_extend,
    occurs_within, opt_text, same_text, texts,
};

verus! {

/// The arguments of `gws __complete`, sorted out.
#[derive(Debug)]
pub struct CompleteRequest {
    /// The word being completed, where it is known.
    pub current: Option<String>,
    /// The shell that asks, where `--shell` named a supported one.
    pub shell: Option<Shell>,
    /// The words on the command line.
    pub words: Vec<String>,
}

/// A request as plain values: the current word, the shell, the words.
pub type RequestView = (Option<Seq<char>>, Option<Shell>, Seq<Seq<char>>);

impl CompleteRequest {
    pub open spec fn view_parts(&self) -> RequestView {
        (opt_text(self.current), self.shell, texts(self.words@))
    }
}

/// Reads the arguments from position `i` on, given what was read before:
/// whether a `--` was seen (after which every argument is a word), the
/// current word and the shell so far, and the words so far. `--shell` and
/// `--current` take the next argument as their value (the last one given
/// wins; a missing value leaves none); any other argument is a word.
pub open spec fn scan_args(
    args: Seq<Seq<char>>,
    i: int,
    passthrough: bool,
    acc: RequestView,
) -> RequestView
    decreases args.len() + 1 - i,
{
    if i < 0 || i >= args.len() {
        acc
    } else if passthrough {
        scan_args(args, i + 1, true, (acc.0, acc.1, acc.2.push(args[i])))
    } else if args[i] == "--"@ {
        scan_args(args, i + 1, true, acc)
    } else if args[i] == "--shell"@ {
        let shell = if i + 1 < args.len() {
            spec_parse_shell(args[i + 1])
        } else {
            None
        };
        scan_args(args, i + 2, false, (acc.0, shell, acc.2))
    } else if args[i] == "--current"@ {
        let current = if i + 1 < args.len() {
            Some(args[i + 1])
        } else {
            None
        };
        scan_args(args, i + 2, false, (current, acc.1, acc.2))
    } else {
        scan_args(args, i + 1, false, (acc.0, acc.1, acc.2.push(args[i])))
    }
}

/// The word at `index` of `words`, or the empty word past their end; nothing
/// where no index is known.
pub open spec fn spec_current_at_index(words: Seq<Seq<char>>, index: Option<usize>) -> Option<Seq<char>> {
    match index {
        Some(k) => if k < words.len() {
            Some(words[k as int])
        } else {
            Some(Seq::<char>::empty())
        },
        None => None,
    }
}

/// The request that the arguments make. Where no `--current` was given, the
/// current word is the one at the index that the shell put into `COMP_CWORD`
/// (`comp_cword`); for bash, the words are first recombined where bash split
/// them at `:` and `=`, and the index is moved along with them.
pub open spec fn spec_parse_complete_request(
    args: Seq<Seq<char>>,
    comp_cword: Option<usize>,
) -> RequestView {
    let scanned = scan_args(args, 0, false, (None, None, Seq::empty()));
    if scanned.0 is Some {
        scanned
    } else if scanned.1 == Some(Shell::Bash) {
        let (combined, index) = spec_recombine(scanned.2, comp_cword);
        (spec_current_at_index(combined, index), scanned.1, combined)
    } else {
        (spec_current_at_index(scanned.2, comp_cword), scanned.1, scanned.2)
    }
}

/// Sorts out the arguments of `gws __complete`. `comp_cword` is the index
/// that the shell put into `COMP_CWORD`, where it holds one.
pub fn parse_complete_request(args: &[String], comp_cword: Option<usize>) -> (r: CompleteRequest)
    ensures
        r.view_parts() == spec_parse_complete_request(texts(args@), comp_cword),
{
    let ghost a = texts(args@);
    let mut current: Option<String> = None;
    let mut shell: Option<Shell> = None;
    let mut words: Vec<String> = Vec::new();
    assert(texts(words@) =~= Seq::<Seq<char>>::empty());
    let mut passthrough = false;
    let mut i: usize = 0;
    let n = args.len();
    while i < n
        invariant
            0 <= i <= n,
            n == args@.len(),
            a == texts(args@),
            scan_args(a, i as int, passthrough, (opt_text(current), shell, texts(words@)))
                == scan_args(a, 0, false, (None, None, Seq::empty())),
        decreases n - i,
    {
        let arg = args[i].as_str();
        assert(a[i as int] == arg@);
        let ghost acc = (opt_text(current), shell, texts(words@));
        if passthrough {
            let ghost before = words@;
            words.push(args[i].clone());
            assert(texts(words@) =~= texts(before).push(a[i as int]));
            assert(scan_args(a, i as int, true, acc) == scan_args(a, i + 1, true, (opt_text(current), shell, texts(words@))));
            i = i + 1;
        } else if same_text(arg, "--") {
            passthrough = true;
            assert(scan_args(a, i as int, false, acc) == scan_args(a, i + 1, true, acc));
            i = i + 1;
        } else if same_text(arg, "--shell") {
            if i + 1 < n {
                assert(a[i + 1] == args@[i + 1]@);
                shell = Shell::parse(args[i + 1].as_str());
                assert(scan_args(a, i as int, false, acc) == scan_args(a, i + 2, false, (opt_text(current), shell, texts(words@))));
                i = i + 2;
            } else {
                shell = None;
                let ghost now = (opt_text(current), shell, texts(words@));
                assert(scan_args(a, i + 2, false, now) == now);
                assert(scan_args(a, n as int, false, now) == now);
                assert(scan_args(a, i as int, false, acc) == scan_args(a, n as int, false, now));
                i = n;
            }
        } else if same_text(arg, "--current") {
            if i + 1 < n {
                assert(a[i + 1] == args@[i + 1]@);
                current = Some(args[i + 1].clone());
                assert(scan_args(a, i as int, false, acc) == scan_args(a, i + 2, false, (opt_text(current), shell, texts(words@))));
                i = i + 2;
            } else {
                current = None;
                let ghost now = (opt_text(current), shell, texts(words@));
                assert(scan_args(a, i + 2, false, now) == now);
                assert(scan_args(a, n as int, false, now) == now);
                assert(scan_args(a, i as int, false, acc) == scan_args(a, n as int, false, now));
                i = n;
            }
        } else {
            let ghost before = words@;
            words.push(args[i].clone());
            assert(texts(words@) =~= texts(before).push(a[i as int]));
            assert(scan_args(a, i as int, false, acc) == scan_args(a, i + 1, false, (opt_text(current), shell, texts(words@))));
            i = i + 1;
        }
    }
    if current.is_none() {
        if shell == Some(Shell::Bash) {
            let (combined, remapped) = recombine_bash_wordbreaks(words.as_slice(), comp_cword);
            current = current_at_index(combined.as_slice(), remapped);
            words = combined;
        } else {
            current = current_at_index(words.as_slice(), comp_cword);
        }
    }
    CompleteRequest { current, shell, words }
}

/// Reads the index that a shell puts into `COMP_CWORD`: a decimal number,
/// optionally with a leading `+`, that fits in a `usize`.
pub fn completion_word_index(raw: Option<&str>) -> (r: Option<usize>)
    ensures
        r == match raw {
            Some(s) => spec_parse_index(s@),
            None => None::<usize>,
        },
{
    match raw {
        Some(s) => parse_index(s),
        None => None,
    }
}

/// The value of a sequence of decimal digits.
pub open spec fn decimal_value(digits: Seq<char>) -> nat
    decreases digits.len(),
{
    if digits.len() == 0 {
        0
    } else {
        decimal_value(digits.drop_last()) * 10 + ((digits.last() as nat) - ('0' as nat)) as nat
    }
}

pub open spec fn is_digit(c: char) -> bool {
    '0' <= c && c <= '9'
}

/// The digits part of a `COMP_CWORD` text: what follows a leading `+`, if any.
pub open spec fn index_digits(s: Seq<char>) -> Seq<char> {
    if s.len() > 0 && s[0] == '+' {
        s.drop_first()
    } else {
        s
    }
}

pub open spec fn all_digits(digits: Seq<char>) -> bool {
    forall|k: int| 0 <= k < digits.len() ==> is_digit(#[trigger] digits[k])
}

/// What `usize`'s `FromStr` makes of a text: an optional `+`, then one or
/// more decimal digits whose value fits in a `usize`.
pub open spec fn spec_parse_index(s: Seq<char>) -> Option<usize> {
    let digits = index_digits(s);
    if digits.len() > 0 && all_digits(digits) && decimal_value(digits) <= usize::MAX {
        Some(decimal_value(digits) as usize)
    } else {
        None
    }
}

proof fn lemma_decimal_value_grows(digits: Seq<char>, i: int)
    requires
        0 <= i <= digits.len(),
        forall|k: int| 0 <= k < digits.len() ==> is_digit(#[trigger] digits[k]),
    ensures
        decimal_value(digits.take(i)) <= decimal_value(digits),
    decreases digits.len() - i,
{
    if i < digits.len() {
        lemma_decimal_value_grows(digits, i + 1);
        assert(digits.take(i + 1).drop_last() =~= digits.take(i));
    } else {
        assert(digits.take(i) =~= digits);
    }
}

/// Parses the index that a shell put into `COMP_CWORD`.
pub fn parse_index(s: &str) -> (r: Option<usize>)
    ensures
        r == spec_parse_index(s@),
{
    let cs = crate::text::chars_of(s);
    let mut start: usize = 0;
    if cs.len() > 0 && cs[0] == '+' {
        start = 1;
    }
    let ghost digits = index_digits(s@);
    assert(digits =~= cs@.skip(start as int));
    if start >= cs.len() {
        return None;
    }
    let mut value: usize = 0;
    let mut i: usize = start;
    while i < cs.len()
        invariant
            start <= i <= cs@.len(),
            cs@ == s@,
            digits == cs@.skip(start as int),
            digits == index_digits(s@),
            forall|k: int| 0 <= k < i - start ==> is_digit(#[trigger] digits[k]),
            value == decimal_value(digits.take(i - start)),
        decreases cs@.len() - i,
    {
        let c = cs[i];
        assert(digits[i - start] == c);
        if !('0' <= c && c <= '9') {
            assert(!is_digit(digits[i - start]));
            assert(!all_digits(digits));
            return None;
        }
        let d = (c as u32 - '0' as u32) as usize;
        assert(is_digit(digits[i - start]));
        assert(digits.take(i - start + 1).drop_last() =~= digits.take(i - start));
        assert(digits.take(i - start + 1).last() == c);
        assert(decimal_value(digits.take(i - start + 1)) == value * 10 + d);
        match value.checked_mul(10) {
            Some(tens) => match tens.checked_add(d) {
                Some(next) => {
                    value = next;
                },
                None => {
                    proof { rest_all_digits_then_too_large(digits, i - start + 1, cs@, start as int); }
                    return None;
                },
            },
            None => {
                proof { rest_all_digits_then_too_large(digits, i - start + 1, cs@, start as int); }
                return None;
            },
        }
        i = i + 1;
    }
    assert(digits.take(i - start) =~= digits);
    Some(value)
}

/// Once a prefix of the digits is worth more than a `usize` holds, the text is
/// refused whatever follows.
proof fn rest_all_digits_then_too_large(digits: Seq<char>, j: int, cs: Seq<char>, start: int)
    requires
        0 < j <= digits.len(),
        forall|k: int| 0 <= k < j ==> is_digit(#[trigger] digits[k]),
        decimal_value(digits.take(j)) > usize::MAX,
    ensures
        !(digits.len() > 0 && all_digits(digits) && decimal_value(digits) <= usize::MAX),
{
    if digits.len() > 0 && all_digits(digits) {
        lemma_decimal_value_grows(digits, j);
    }
}

/// The word at `index` of `words`, or an empty word past their end.
pub fn current_at_index(words: &[String], index: Option<usize>) -> (r: Option<String>)
    ensures
        opt_text(r) == spec_current_at_index(texts(words@), index),
{
    match index {
        Some(k) => if k < words.len() {
            assert(texts(words@)[k as int] == words@[k as int]@);
            Some(words[k].clone())
        } else {
            Some(String::new())
        },
        None => None,
    }
}

/// Recombines, from position `i` on, the words that bash split at `:` and
/// `=`: a `:` or `=` word is glued, with the word after it, onto the word
/// before it. `map` records for each word read the position of the word it
/// ended up in.
pub open spec fn recombine_from(
    words: Seq<Seq<char>>,
    i: int,
    combined: Seq<Seq<char>>,
    map: Seq<int>,
) -> (Seq<Seq<char>>, Seq<int>)
    decreases words.len() + 1 - i,
{
    if i < 0 || i >= words.len() {
        (combined, map)
    } else if (words[i] == ":"@ || words[i] == "="@) && combined.len() > 0 {
        let last = combined.len() - 1;
        let glued = combined.update(last, combined[last] + words[i]);
        if i + 1 < words.len() {
            recombine_from(
                words,
                i + 2,
                glued.update(last, glued[last] + words[i + 1]),
                map.push(last).push(last),
            )
        } else {
            recombine_from(words, i + 1, glued, map.push(last))
        }
    } else {
        recombine_from(words, i + 1, combined.push(words[i]), map.push(combined.len() as int))
    }
}

/// The recombined words, and the index of the current word moved along with
/// them (past the last recombined word where it lay past the last word).
pub open spec fn spec_recombine(words: Seq<Seq<char>>, current_index: Option<usize>) -> (
    Seq<Seq<char>>,
    Option<usize>,
) {
    let (combined, map) = recombine_from(words, 0, Seq::empty(), Seq::empty());
    let index = match current_index {
        Some(k) => if k < map.len() {
            Some(map[k as int] as usize)
        } else {
            Some(combined.len() as usize)
        },
        None => None,
    };
    (combined, index)
}

/// Undoes bash's splitting of words at `:` and `=` (`drive:v3`,
/// `--api-version=v2`), and moves the index of the current word along.
pub fn recombine_bash_wordbreaks(words: &[String], current_index: Option<usize>) -> (r: (
    Vec<String>,
    Option<usize>,
))
    ensures
        (texts(r.0@), r.1) == spec_recombine(texts(words@), current_index),
{
    let ghost w = texts(words@);
    let mut combined: Vec<String> = Vec::new();
    let mut index_map: Vec<usize> = Vec::new();
    assert(texts(combined@) =~= Seq::<Seq<char>>::empty());
    assert(index_map@.map_values(|x: usize| x as int) =~= Seq::<int>::empty());
    let n = words.len();
    let mut i: usize = 0;
    while i < n
        invariant
            0 <= i <= n,
            n == words@.len(),
            w == texts(words@),
            index_map@.len() == i,
            forall|k: int| 0 <= k < i ==> #[trigger] index_map@[k] < combined@.len(),
            recombine_from(w, i as int, texts(combined@), index_map@.map_values(|x: usize| x as int))
                == recombine_from(w, 0, Seq::empty(), Seq::empty()),
        decreases n - i,
    {
        let word = words[i].as_str();
        assert(w[i as int] == word@);
        let ghost old_map = index_map@;
        let ghost old_combined = texts(combined@);
        if (same_text(word, ":") || same_text(word, "=")) && combined.len() > 0 {
            let last_index = combined.len() - 1;
            let mut last = combined.pop().unwrap();
            last.append(word);
            index_map.push(last_index);
            if i + 1 < n {
                let next = words[i + 1].as_str();
                assert(w[i + 1] == next@);
                last.append(next);
                index_map.push(last_index);
                combined.push(last);
                assert(texts(combined@) =~= old_combined.update(last_index as int, old_combined[last_index as int] + word@).update(
                    last_index as int,
                    old_combined[last_index as int] + word@ + next@,
                ));
                assert(index_map@.map_values(|x: usize| x as int) =~= old_map.map_values(|x: usize| x as int).push(
                    last_index as int,
                ).push(last_index as int));
                i = i + 2;
            } else {
                combined.push(last);
                assert(texts(combined@) =~= old_combined.update(last_index as int, old_combined[last_index as int] + word@));
                assert(index_map@.map_values(|x: usize| x as int) =~= old_map.map_values(|x: usize| x as int).push(
                    last_index as int,
                ));
                i = i + 1;
            }
        } else {
            index_map.push(combined.len());
            combined.push(words[i].clone());
            assert(texts(combined@) =~= old_combined.push(word@));
            assert(index_map@.map_values(|x: usize| x as int) =~= old_map.map_values(|x: usize| x as int).push(
                old_combined.len() as int,
            ));
            i = i + 1;
        }
    }
    let remapped = match current_index {
        Some(k) => if k < index_map.len() {
            Some(index_map[k])
        } else {
            Some(combined.len())
        },
        None => None,
    };
    (combined, remapped)
}

/// The bookkeeping that recombining keeps from word to word.
pub open spec fn recombine_state_ok(
    words: Seq<Seq<char>>,
    i: int,
    combined: Seq<Seq<char>>,
    map: Seq<int>,
) -> bool {
    &&& 0 <= i <= words.len()
    &&& map.len() == i
    &&& combined.len() <= i
    &&& joined(combined) == joined(words.take(i))
    &&& forall|k: int| 0 <= k < map.len() ==> 0 <= #[trigger] map[k] < combined.len()
    &&& forall|k1: int, k2: int| 0 <= k1 <= k2 < map.len() ==> map[k1] <= map[k2]
    &&& forall|k: int|
        #![trigger map[k]]
        0 <= k < map.len() ==> occurs_within(words[k], combined[map[k]])
}

/// Extending the last recombined word keeps every word read so far within
/// the word it ended up in.
proof fn lemma_glue_keeps_words(
    words: Seq<Seq<char>>,
    combined: Seq<Seq<char>>,
    map: Seq<int>,
    more: Seq<char>,
)
    requires
        combined.len() > 0,
        map.len() <= words.len(),
        forall|k: int| 0 <= k < map.len() ==> 0 <= #[trigger] map[k] < combined.len(),
        forall|k: int|
            #![trigger map[k]]
            0 <= k < map.len() ==> occurs_within(words[k], combined[map[k]]),
    ensures
        forall|k: int|
            #![trigger map[k]]
            0 <= k < map.len() ==> occurs_within(
                words[k],
                combined.update(combined.len() - 1, combined.last() + more)[map[k]],
            ),
{
    let last = combined.len() - 1;
    let c = combined.update(last, combined.last() + more);
    assert forall|k: int| #![trigger map[k]] 0 <= k < map.len() implies occurs_within(words[k], c[map[k]]) by {
        if map[k] == last {
            lemma_occurs_extend(words[k], combined[last], more);
        }
    }
}

proof fn lemma_take_step(words: Seq<Seq<char>>, i: int)
    requires
        0 <= i < words.len(),
    ensures
        joined(words.take(i + 1)) == joined(words.take(i)) + words[i],
{
    assert(words.take(i + 1).drop_last() =~= words.take(i));
}

proof fn lemma_recombine_from_keeps(
    words: Seq<Seq<char>>,
    i: int,
    combined: Seq<Seq<char>>,
    map: Seq<int>,
)
    requires
        recombine_state_ok(words, i, combined, map),
    ensures
        recombine_state_ok(
            words,
            words.len() as int,
            recombine_from(words, i, combined, map).0,
            recombine_from(words, i, combined, map).1,
        ),
    decreases words.len() + 1 - i,
{
    if i < words.len() {
        lemma_take_step(words, i);
        if (words[i] == ":"@ || words[i] == "="@) && combined.len() > 0 {
            let last = combined.len() - 1;
            let glued = combined.update(last, combined[last] + words[i]);
            lemma_joined_extend_last(combined, words[i]);
            if i + 1 < words.len() {
                lemma_take_step(words, i + 1);
                lemma_joined_extend_last(glued, words[i + 1]);
                assert(joined(words.take(i)) + words[i] + words[i + 1] == joined(words.take(i + 2)));
                let m2 = map.push(last).push(last);
                assert forall|k: int| 0 <= k < m2.len() implies 0 <= #[trigger] m2[k] < combined.len() by {
                    if k < map.len() {
                        assert(m2[k] == map[k]);
                    }
                }
                assert forall|k1: int, k2: int| 0 <= k1 <= k2 < m2.len() implies m2[k1] <= m2[k2] by {
                    if k2 < map.len() {
                        assert(m2[k1] == map[k1] && m2[k2] == map[k2]);
                    } else if k1 < map.len() {
                        assert(m2[k1] == map[k1]);
                    }
                }
                lemma_glue_keeps_words(words, combined, map, words[i]);
                lemma_occurs_at_end(words[i], combined[last]);
                lemma_glue_keeps_words(words, glued, map.push(last), words[i + 1]);
                lemma_occurs_at_end(words[i + 1], glued[last]);
                let c2 = glued.update(last, glued[last] + words[i + 1]);
                assert forall|k: int| #![trigger m2[k]] 0 <= k < m2.len() implies occurs_within(words[k], c2[m2[k]]) by {
                    if k < map.len() + 1 {
                        assert(m2[k] == map.push(last)[k]);
                    }
                }
                lemma_recombine_from_keeps(words, i + 2, c2, m2);
            } else {
                let m1 = map.push(last);
                assert forall|k: int| 0 <= k < m1.len() implies 0 <= #[trigger] m1[k] < combined.len() by {
                    if k < map.len() {
                        assert(m1[k] == map[k]);
                    }
                }
                assert forall|k1: int, k2: int| 0 <= k1 <= k2 < m1.len() implies m1[k1] <= m1[k2] by {
                    if k2 < map.len() {
                        assert(m1[k1] == map[k1] && m1[k2] == map[k2]);
                    } else if k1 < map.len() {
                        assert(m1[k1] == map[k1]);
                    }
                }
                lemma_glue_keeps_words(words, combined, map, words[i]);
                lemma_occurs_at_end(words[i], combined[last]);
                assert forall|k: int| #![trigger m1[k]] 0 <= k < m1.len() implies occurs_within(words[k], glued[m1[k]]) by {
                    if k < map.len() {
                        assert(m1[k] == map[k]);
                    }
                }
                lemma_recombine_from_keeps(words, i + 1, glued, m1);
            }
        } else {
            lemma_joined_push(combined, words[i]);
            let c1 = combined.push(words[i]);
            let m1 = map.push(combined.len() as int);
            assert forall|k: int| 0 <= k < m1.len() implies 0 <= #[trigger] m1[k] < c1.len() by {
                if k < map.len() {
                    assert(m1[k] == map[k]);
                }
            }
            assert forall|k1: int, k2: int| 0 <= k1 <= k2 < m1.len() implies m1[k1] <= m1[k2] by {
                if k2 < map.len() {
                    assert(m1[k1] == map[k1] && m1[k2] == map[k2]);
                } else if k1 < map.len() {
                    assert(m1[k1] == map[k1]);
                }
            }
            lemma_occurs_at_end(words[i], Seq::<char>::empty());
            assert(Seq::<char>::empty() + words[i] =~= words[i]);
            assert forall|k: int| #![trigger m1[k]] 0 <= k < m1.len() implies occurs_within(words[k], c1[m1[k]]) by {
                if k < map.len() {
                    assert(m1[k] == map[k]);
                    assert(c1[map[k]] == combined[map[k]]);
                }
            }
            lemma_recombine_from_keeps(words, i + 1, c1, m1);
        }
    }
}

/// Recombining the words bash split loses and adds no character: the
/// recombined words, written one after another, are the words as typed. It
/// never makes more words than it was given, and it moves an index within the
/// words to an index within the recombined words, keeping the order of
/// indices, where the recombined word holds the text of the word moved; an
/// index past the words moves past the recombined words, and no index stays none.
pub proof fn lemma_recombine_preserves_text(words: Seq<Seq<char>>, k1: usize, k2: usize)
    requires
        words.len() <= usize::MAX,
    ensures
        joined(spec_recombine(words, None).0) == joined(words),
        spec_recombine(words, None).0.len() <= words.len(),
        spec_recombine(words, None).1 is None,
        k1 < words.len() ==> (spec_recombine(words, Some(k1)).1 matches Some(j) && j < spec_recombine(
            words,
            None,
        ).0.len() && occurs_within(words[k1 as int], spec_recombine(words, None).0[j as int])),
        k1 <= k2 < words.len() ==> (spec_recombine(words, Some(k1)).1 matches Some(j1)
            && spec_recombine(words, Some(k2)).1 matches Some(j2) && j1 <= j2),
        k1 >= words.len() ==> spec_recombine(words, Some(k1)).1 == Some(
            spec_recombine(words, None).0.len() as usize,
        ),
{
    let e: Seq<Seq<char>> = Seq::empty();
    let m: Seq<int> = Seq::empty();
    assert(words.take(0) =~= e);
    lemma_recombine_from_keeps(words, 0, e, m);
    assert(words.take(words.len() as int) =~= words);
    let r = recombine_from(words, 0, e, m);
    if k1 < words.len() {
        assert(occurs_within(words[k1 as int], r.0[r.1[k1 as int]]));
    }
    if k1 <= k2 && k2 < words.len() {
        assert(r.1[k1 as int] <= r.1[k2 as int]);
        assert(0 <= r.1[k1 as int] < r.0.len());
        assert(0 <= r.1[k2 as int] < r.0.len());
    }
}


/// Past the `--` separator every argument is kept as a word, in order, and
/// nothing else changes.
pub proof fn lemma_separator_keeps_rest(args: Seq<Seq<char>>, i: int, acc: RequestView)
    requires
        0 <= i <= args.len(),
    ensures
        scan_args(args, i, true, acc) == (acc.0, acc.1, acc.2 + args.skip(i)),
    decreases args.len() - i,
{
    if i < args.len() {
        lemma_separator_keeps_rest(args, i + 1, (acc.0, acc.1, acc.2.push(args[i])));
        assert(acc.2.push(args[i]) + args.skip(i + 1) =~= acc.2 + args.skip(i));
    } else {
        assert(acc.2 + args.skip(i) =~= acc.2);
    }
}


/// `COMP_CWORD` is consulted only where no `--current` was given.
pub proof fn lemma_explicit_current_wins(args: Seq<Seq<char>>, c1: Option<usize>, c2: Option<usize>)
    requires
        scan_args(args, 0, false, (None, None, Seq::empty())).0 is Some,
    ensures
        spec_parse_complete_request(args, c1) == spec_parse_complete_request(args, c2),
        spec_parse_complete_request(args, c1) == scan_args(args, 0, false, (None, None, Seq::empty())),
{
}

/// What the shell scripts send is read as they mean it: the bash script's
/// `--shell bash -- <words>` as bash with its words (recombined where bash
/// split them), the current word taken from `COMP_CWORD`; the fish script's
/// `--shell fish --current <word> -- <words>` as fish with its current word
/// and its words as given.
pub proof fn lemma_script_arguments_are_read(
    words: Seq<Seq<char>>,
    current: Seq<char>,
    comp_cword: Option<usize>,
)
    ensures
        ({
            let (combined, index) = spec_recombine(words, comp_cword);
            spec_parse_complete_request(seq!["--shell"@, "bash"@, "--"@] + words, comp_cword) == (
                spec_current_at_index(combined, index),
                Some(Shell::Bash),
                combined,
            )
        }),
        spec_parse_complete_request(
            seq!["--shell"@, "fish"@, "--current"@, current, "--"@] + words,
            comp_cword,
        ) == (Some(current), Some(Shell::Fish), words),
{
    reveal_strlit("--shell");
    reveal_strlit("--current");
    reveal_strlit("--");
    reveal_strlit("bash");
    reveal_strlit("fish");
    reveal_strlit("zsh");
    let empty: Seq<Seq<char>> = Seq::empty();
    let b = seq!["--shell"@, "bash"@, "--"@] + words;
    assert(b[0] == "--shell"@ && b[1] == "bash"@ && b[2] == "--"@);
    assert(spec_parse_shell("bash"@) == Some(Shell::Bash));
    lemma_separator_keeps_rest(b, 3, (None, Some(Shell::Bash), empty));
    assert(b.skip(3) =~= words);
    assert(empty + words =~= words);
    assert(scan_args(b, 0, false, (None, None, empty)) == scan_args(b, 2, false, (None, Some(Shell::Bash), empty)));
    assert(scan_args(b, 2, false, (None, Some(Shell::Bash), empty)) == scan_args(b, 3, true, (None, Some(Shell::Bash), empty)));
    let f = seq!["--shell"@, "fish"@, "--current"@, current, "--"@] + words;
    assert(f[0] == "--shell"@ && f[1] == "fish"@ && f[2] == "--current"@ && f[3] == current && f[4] == "--"@);
    assert("fish"@[0] != "bash"@[0]);
    assert("fish"@.len() != "zsh"@.len());
    assert(spec_parse_shell("fish"@) == Some(Shell::Fish));
    lemma_separator_keeps_rest(f, 5, (Some(current), Some(Shell::Fish), empty));
    assert(f.skip(5) =~= words);
    assert(scan_args(f, 0, false, (None, None, empty)) == scan_args(f, 2, false, (None, Some(Shell::Fish), empty)));
    assert(scan_args(f, 2, false, (None, Some(Shell::Fish), empty)) == scan_args(f, 4, false, (Some(current), Some(Shell::Fish), empty)));
    assert(scan_args(f, 4, false, (Some(current), Some(Shell::Fish), empty)) == scan_args(f, 5, true, (Some(current), Some(Shell::Fish), empty)));
}


/// An item of the options part of `gws __complete`'s arguments, before `--`.
pub enum OptionItem {
    /// `--shell <value>`.
    ShellOption(Seq<char>),
    /// `--current <value>`.
    CurrentOption(Seq<char>),
    /// Any other argument, kept as a word.
    Word(Seq<char>),
}

/// The arguments that the items are written as.
pub open spec fn item_args(items: Seq<OptionItem>) -> Seq<Seq<char>>
    decreases items.len(),
{
    if items.len() == 0 {
        Seq::empty()
    } else {
        (match items[0] {
            OptionItem::ShellOption(v) => seq!["--shell"@, v],
            OptionItem::CurrentOption(c) => seq!["--current"@, c],
            OptionItem::Word(p) => seq![p],
        }) + item_args(items.drop_first())
    }
}

/// What the items set, read from left to right after `acc`: each
/// `--shell` sets the shell its value names (the last one wins), each
/// `--current` the current word (the last one wins), and each other
/// argument is added to the words in order.
pub open spec fn items_read(items: Seq<OptionItem>, acc: RequestView) -> RequestView
    decreases items.len(),
{
    if items.len() == 0 {
        acc
    } else {
        items_read(
            items.drop_first(),
            match items[0] {
                OptionItem::ShellOption(v) => (acc.0, spec_parse_shell(v), acc.2),
                OptionItem::CurrentOption(c) => (Some(c), acc.1, acc.2),
                OptionItem::Word(p) => (acc.0, acc.1, acc.2.push(p)),
            },
        )
    }
}

/// Whether every plain word among the items is none of `--`, `--shell`, `--current`.
pub open spec fn items_well_formed(items: Seq<OptionItem>) -> bool {
    forall|k: int|
        #![trigger items[k]]
        0 <= k < items.len() ==> (items[k] matches OptionItem::Word(p) ==> p != "--"@ && p != "--shell"@
            && p != "--current"@)
}

proof fn lemma_items_scan(items: Seq<OptionItem>, args: Seq<Seq<char>>, i: int, acc: RequestView)
    requires
        items_well_formed(items),
        0 <= i,
        i + item_args(items).len() < args.len(),
        args.subrange(i, i + item_args(items).len()) == item_args(items),
    ensures
        scan_args(args, i, false, acc) == scan_args(
            args,
            i + item_args(items).len(),
            false,
            items_read(items, acc),
        ),
    decreases items.len(),
{
    if items.len() > 0 {
        let rest = items.drop_first();
        let a = item_args(items);
        assert(items_well_formed(rest)) by {
            assert forall|k: int| #![trigger rest[k]] 0 <= k < rest.len() implies (rest[k] matches OptionItem::Word(p) ==> p
                != "--"@ && p != "--shell"@ && p != "--current"@) by {
                assert(rest[k] == items[k + 1]);
            }
        }
        let head_len: int = match items[0] {
            OptionItem::Word(_) => 1,
            _ => 2,
        };
        assert(a.len() == head_len + item_args(rest).len());
        assert(args.subrange(i + head_len, i + a.len()) =~= item_args(rest)) by {
            assert(a.subrange(head_len, a.len() as int) =~= item_args(rest));
        }
        assert(args[i] == a[0]);
        reveal_strlit("--");
        reveal_strlit("--shell");
        reveal_strlit("--current");
        assert("--shell"@[2] != "--current"@[2]);
        match items[0] {
            OptionItem::ShellOption(v) => {
                assert(args[i + 1] == a[1]);
                assert(a[1] == v);
                assert("--shell"@ != "--"@);
            },
            OptionItem::CurrentOption(c) => {
                assert(args[i + 1] == a[1]);
                assert(a[1] == c);
                assert("--current"@ != "--"@);
            },
            OptionItem::Word(p) => {
                assert(items[0] matches OptionItem::Word(q) && q != "--"@ && q != "--shell"@ && q != "--current"@);
            },
        }
        let next = match items[0] {
            OptionItem::ShellOption(v) => (acc.0, spec_parse_shell(v), acc.2),
            OptionItem::CurrentOption(c) => (Some(c), acc.1, acc.2),
            OptionItem::Word(p) => (acc.0, acc.1, acc.2.push(p)),
        };
        assert(scan_args(args, i, false, acc) == scan_args(args, i + head_len, false, next));
        lemma_items_scan(rest, args, i + head_len, next);
    }
}

/// Arguments made of `--shell <v>` and `--current <c>` options and plain
/// words, then `--`, then any arguments `rest`: where a `--current` is among
/// the options, the request holds the last `--current` value, the shell of the
/// last `--shell` value (none without one), and the plain words in order
/// followed by `rest` verbatim (`--`, `--shell` and `--current` among them
/// too). `COMP_CWORD` plays no part.
pub proof fn lemma_options_then_separator(
    items: Seq<OptionItem>,
    rest: Seq<Seq<char>>,
    comp_cword: Option<usize>,
)
    requires
        items_well_formed(items),
        items_read(items, (None, None, Seq::empty())).0 is Some,
    ensures
        ({
            let read = items_read(items, (None, None, Seq::empty()));
            spec_parse_complete_request(item_args(items) + seq!["--"@] + rest, comp_cword) == (
                read.0,
                read.1,
                read.2 + rest,
            )
        }),
{
    let args = item_args(items) + seq!["--"@] + rest;
    let n = item_args(items).len() as int;
    let empty: Seq<Seq<char>> = Seq::empty();
    assert(args.subrange(0, n) =~= item_args(items));
    lemma_items_scan(items, args, 0, (None, None, empty));
    let read = items_read(items, (None, None, empty));
    assert(args[n] == "--"@);
    assert(scan_args(args, n, false, read) == scan_args(args, n + 1, true, read));
    lemma_separator_keeps_rest(args, n + 1, read);
    assert(args.skip(n + 1) =~= rest);
}

/// Where no `--current` is given and the shell is not bash, the current word
/// is the word at the index in `COMP_CWORD` (empty past the words, none
/// without an index); the words and the shell do not depend on it.
pub proof fn lemma_comp_cword_picks_current(args: Seq<Seq<char>>, c1: Option<usize>, c2: Option<usize>)
    requires
        scan_args(args, 0, false, (None, None, Seq::empty())).0 is None,
        scan_args(args, 0, false, (None, None, Seq::empty())).1 != Some(Shell::Bash),
    ensures
        ({
            let scanned = scan_args(args, 0, false, (None, None, Seq::empty()));
            &&& spec_parse_complete_request(args, c1) == (
                spec_current_at_index(scanned.2, c1),
                scanned.1,
                scanned.2,
            )
            &&& spec_parse_complete_request(args, c1).1 == spec_parse_complete_request(args, c2).1
            &&& spec_parse_complete_request(args, c1).2 == spec_parse_complete_request(args, c2).2
        }),
{
}

} // verus!
