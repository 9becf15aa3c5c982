//! The words that completion works on: the program name and the word being
//! completed are taken off the command line.
use vstd::prelude::*;

use crate::text::{occurs_within, owned, same_text, texts};

verus! {

/// The names under which `gws` runs (the last is its npm launcher).
pub open spec fn is_program_name(name: Seq<char>) -> bool {
    name == "gws"@ || name == "gws.exe"@ || name == "run.js"@
}

/// A word that is a path of one plain component on every platform: it is not
/// empty, holds no separator (`/` or `\`) and no `:` (Windows prefixes), and
/// is neither `.` nor `..`.
pub open spec fn is_plain_component(word: Seq<char>) -> bool {
    &&& word.len() > 0
    &&& !word.contains('/')
    &&& !word.contains('\\')
    &&& !word.contains(':')
    &&& word != "."@
    &&& word != ".."@
}

/// Whether some name of the program occurs in `word`.
pub open spec fn mentions_program_name(word: Seq<char>) -> bool {
    exists|name: Seq<char>| #[trigger] is_program_name(name) && occurs_within(name, word)
}

/// The text after the last `/` of `word` (all of it where it has none).
pub open spec fn last_segment(word: Seq<char>) -> Seq<char>
    decreases word.len(),
{
    if word.len() == 0 {
        word
    } else if word.last() == '/' {
        Seq::empty()
    } else {
        last_segment(word.drop_last()).push(word.last())
    }
}

/// A path written with `/` alone, read the same way on every platform: no
/// `\` (a separator on Windows), no `:` (Windows prefixes), and no leading
/// `//`.
pub open spec fn slash_path(word: Seq<char>) -> bool {
    &&& !word.contains('\\')
    &&& !word.contains(':')
    &&& !(word.len() >= 2 && word[0] == '/' && word[1] == '/')
}

/// A word whose final path component is the same on every platform: a
/// `/`-only path whose last segment is one plain component.
pub open spec fn has_portable_file_name(word: Seq<char>) -> bool {
    slash_path(word) && is_plain_component(last_segment(word))
}

/// A word without `/` is its own last segment.
pub proof fn lemma_last_segment_without_slash(word: Seq<char>)
    requires
        !word.contains('/'),
    ensures
        last_segment(word) == word,
    decreases word.len(),
{
    if word.len() > 0 {
        let rest = word.drop_last();
        assert(!rest.contains('/')) by {
            if rest.contains('/') {
                let k = choose|k: int| 0 <= k < rest.len() && rest[k] == '/';
                assert(word[k] == '/');
            }
        }
        lemma_last_segment_without_slash(rest);
        assert(word[word.len() - 1] == word.last());
        assert(rest.push(word.last()) =~= word);
    }
}

/// A word of one plain component has a portable final component: itself.
pub proof fn lemma_plain_is_portable(word: Seq<char>)
    requires
        is_plain_component(word),
    ensures
        has_portable_file_name(word),
        last_segment(word) == word,
{
    lemma_last_segment_without_slash(word);
    if word.len() >= 2 && word[0] == '/' {
        assert(word.contains('/'));
    }
}

/// The final component of `word` read as a path (std's `Path::file_name`;
/// `Path::new` and `OsStr::to_str` only change the type, the text being
/// valid UTF-8 already), as text; none where the path ends in `..` or has no
/// component. The contract states what std documents for Unix and Windows
/// alike: a path of one plain component is its own final component; a path
/// written with `/` alone (no `\`, no `:`, no leading `//`) whose last
/// segment is a plain component has that segment as its final component
/// (`/usr/bin/gws` gives `gws`); and a final component is a run of the
/// path's own characters. What else a component holds is not stated: in a
/// Windows verbatim path (`\\?\...`) `/` is no separator, so a component may
/// hold a `/`, and which component a path with `\` or a prefix yields depends
/// on the platform.
#[verifier::external_body]
fn path_file_name(word: &str) -> (r: Option<String>)
    ensures
        is_plain_component(word@) ==> (r is Some && r.unwrap()@ == word@),
        has_portable_file_name(word@) ==> (r is Some && r.unwrap()@ == last_segment(word@)),
        r is Some ==> occurs_within(r.unwrap()@, word@),
{
    match std::path::Path::new(word).file_name() {
        Some(name) => match name.to_str() {
            Some(text) => Some(text.to_string()),
            None => None,
        },
        None => None,
    }
}

/// Whether a name, the final component of a path or the word itself where
/// the path has none, is a name of the program.
pub fn program_name_matches(file_name: Option<&str>, word: &str) -> (r: bool)
    ensures
        r == is_program_name(
            match file_name {
                Some(name) => name@,
                None => word@,
            },
        ),
{
    let name = match file_name {
        Some(name) => name,
        None => word,
    };
    same_text(name, "gws") || same_text(name, "gws.exe") || same_text(name, "run.js")
}

/// Whether `word` runs the program: its final path component is `gws`,
/// `gws.exe` or `run.js`. For a word of one plain component this is whether
/// the word itself is one of those names; for a path written with `/` whose
/// last segment is a plain component, whether that segment is one of them;
/// a word that mentions none of them never runs the program.
pub fn is_gws_program(word: &str) -> (r: bool)
    ensures
        is_plain_component(word@) ==> r == is_program_name(word@),
        has_portable_file_name(word@) ==> r == is_program_name(last_segment(word@)),
        r ==> mentions_program_name(word@),
{
    let file_name = path_file_name(word);
    let r = match &file_name {
        Some(name) => program_name_matches(Some(name.as_str()), word),
        None => program_name_matches(None, word),
    };
    proof {
        if r {
            match file_name {
                Some(name) => {
                    assert(is_program_name(name@));
                },
                None => {
                    assert(word@.subrange(0int, 0int + word@.len()) =~= word@);
                    assert(is_program_name(word@));
                    assert(occurs_within(word@, word@));
                },
            }
        }
    }
    r
}

/// The completed words and the current word: the program name, where the
/// first word is one (`drop_program`), goes; the current word is the one
/// given, or else the last word; a last word equal to the current word goes,
/// and where the current word is empty, so does a last empty word.
pub open spec fn spec_normalize(
    words: Seq<Seq<char>>,
    explicit_current: Option<Seq<char>>,
    drop_program: bool,
) -> (Seq<Seq<char>>, Seq<char>) {
    let tokens = if drop_program && words.len() > 0 {
        words.drop_first()
    } else {
        words
    };
    let current = match explicit_current {
        Some(c) => c,
        None => if tokens.len() > 0 {
            tokens.last()
        } else {
            Seq::empty()
        },
    };
    let without_current = if tokens.len() > 0 && tokens.last() == current {
        tokens.drop_last()
    } else {
        tokens
    };
    let completed = if current.len() == 0 && without_current.len() > 0
        && without_current.last().len() == 0 {
        without_current.drop_last()
    } else {
        without_current
    };
    (completed, current)
}

/// The optional text as a sequence of characters.
pub open spec fn opt_str(o: Option<&str>) -> Option<Seq<char>> {
    match o {
        Some(s) => Some(s@),
        None => None,
    }
}

/// `normalize_completion_words`, given whether the first word runs the program.
pub fn normalize_completion_words_with(
    words: &[String],
    explicit_current: Option<&str>,
    first_is_program: bool,
) -> (r: (Vec<String>, String))
    ensures
        (texts(r.0@), r.1@) == spec_normalize(texts(words@), opt_str(explicit_current), first_is_program),
{
    let ghost w = texts(words@);
    let mut tokens: Vec<String> = Vec::new();
    let start: usize = if first_is_program && words.len() > 0 {
        1
    } else {
        0
    };
    let mut i: usize = start;
    while i < words.len()
        invariant
            start <= i <= words@.len(),
            w == texts(words@),
            texts(tokens@) == w.subrange(start as int, i as int),
        decreases words@.len() - i,
    {
        let ghost before = tokens@;
        let word = words[i].clone();
        assert(word@ == w[i as int]);
        tokens.push(word);
        assert(texts(tokens@) =~= texts(before).push(w[i as int]));
        assert(texts(tokens@) =~= w.subrange(start as int, i + 1));
        i = i + 1;
    }
    let ghost t0 = texts(tokens@);
    proof {
        if first_is_program && w.len() > 0 {
            assert(t0 =~= w.drop_first());
        } else {
            assert(t0 =~= w);
        }
    }
    let current: String = match explicit_current {
        Some(c) => owned(c),
        None => if tokens.len() > 0 {
            assert(t0.last() == tokens@[tokens@.len() - 1]@);
            tokens[tokens.len() - 1].clone()
        } else {
            String::new()
        },
    };
    if tokens.len() > 0 && same_text(tokens[tokens.len() - 1].as_str(), current.as_str()) {
        let ghost before = tokens@;
        tokens.pop();
        assert(texts(tokens@) =~= texts(before).drop_last());
    }
    let ghost t1 = texts(tokens@);
    if current.as_str().is_empty() && tokens.len() > 0 && tokens[tokens.len() - 1].as_str().is_empty() {
        let ghost before = tokens@;
        tokens.pop();
        assert(texts(tokens@) =~= texts(before).drop_last());
    }
    (tokens, current)
}

/// Takes the program name and the word being completed off the command line.
/// The first word goes where it runs the program (see `is_gws_program`): the
/// result is exactly that of `normalize_completion_words_with` where the first
/// word is a `/` path whose last segment is a plain component (a plain word
/// among them), dropped where that segment is a program name; the first word
/// stays where it mentions no program name.
pub fn normalize_completion_words(words: &[String], explicit_current: Option<&str>) -> (r: (
    Vec<String>,
    String,
))
    ensures
        exists|dropped: bool|
            {
                &&& dropped ==> words@.len() > 0 && mentions_program_name(words@[0]@)
                &&& (words@.len() > 0 && has_portable_file_name(words@[0]@)) ==> dropped
                    == is_program_name(last_segment(words@[0]@))
                &&& (texts(r.0@), r.1@) == spec_normalize(
                    texts(words@),
                    opt_str(explicit_current),
                    dropped,
                )
            },
{
    let first_is_program = words.len() > 0 && is_gws_program(words[0].as_str());
    normalize_completion_words_with(words, explicit_current, first_is_program)
}

} // verus!
