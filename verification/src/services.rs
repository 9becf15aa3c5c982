//! The Google Workspace services that `gws` knows by name, and how a service
//! word on the command line resolves to an API name and version.
use vstd::prelude::*;

use crate::error::{validation_message, GwsError};
use crate::text::{
    chars_of, glue, find_char, first_index_of, lemma_first_index_of, lemma_first_index_prefix, opt_text, owned, same_text,
    starts_with, substring, texts,
};

verus! {

/// A known service: the names it goes by, its Discovery API name and the
/// version used when none is asked for.
#[derive(Debug)]
pub struct ServiceEntry {
    pub aliases: Vec<String>,
    pub api_name: String,
    pub version: String,
}

/// A service entry as plain values.
pub type ServiceView = (Seq<Seq<char>>, Seq<char>, Seq<char>);

impl ServiceEntry {
    pub open spec fn view_parts(&self) -> ServiceView {
        (texts(self.aliases@), self.api_name@, self.version@)
    }
}

/// The known services, in the order in which their names are looked up.
pub open spec fn service_table() -> Seq<ServiceView> {
    seq![
        (seq!["drive"@], "drive"@, "v3"@),
        (seq!["sheets"@], "sheets"@, "v4"@),
        (seq!["gmail"@], "gmail"@, "v1"@),
        (seq!["calendar"@], "calendar"@, "v3"@),
        (seq!["admin-reports"@, "reports"@], "admin"@, "reports_v1"@),
        (seq!["docs"@], "docs"@, "v1"@),
        (seq!["slides"@], "slides"@, "v1"@),
        (seq!["tasks"@], "tasks"@, "v1"@),
        (seq!["people"@], "people"@, "v1"@),
        (seq!["chat"@], "chat"@, "v1"@),
        (seq!["classroom"@], "classroom"@, "v1"@),
        (seq!["forms"@], "forms"@, "v1"@),
        (seq!["keep"@], "keep"@, "v1"@),
        (seq!["meet"@], "meet"@, "v2"@),
        (seq!["events"@], "workspaceevents"@, "v1"@),
        (seq!["modelarmor"@], "modelarmor"@, "v1"@),
        (seq!["workflow"@, "wf"@], "workflow"@, "v1"@),
    ]
}

fn entry(aliases: Vec<String>, api_name: &str, version: &str) -> (r: ServiceEntry)
    ensures
        r.view_parts() == (texts(aliases@), api_name@, version@),
{
    ServiceEntry { aliases, api_name: owned(api_name), version: owned(version) }
}

fn names1(a: &str) -> (r: Vec<String>)
    ensures
        texts(r@) == seq![a@],
{
    let mut r: Vec<String> = Vec::new();
    r.push(owned(a));
    assert(texts(r@) =~= seq![a@]);
    r
}

fn names2(a: &str, b: &str) -> (r: Vec<String>)
    ensures
        texts(r@) == seq![a@, b@],
{
    let mut r: Vec<String> = Vec::new();
    r.push(owned(a));
    r.push(owned(b));
    assert(texts(r@) =~= seq![a@, b@]);
    r
}

/// The entries of a list of services as plain values.
pub open spec fn entry_views(v: Seq<ServiceEntry>) -> Seq<ServiceView> {
    v.map_values(|e: ServiceEntry| e.view_parts())
}

/// The known services.
pub fn services() -> (r: Vec<ServiceEntry>)
    ensures
        entry_views(r@) == service_table(),
{
    let mut r: Vec<ServiceEntry> = Vec::new();
    r.push(entry(names1("drive"), "drive", "v3"));
    r.push(entry(names1("sheets"), "sheets", "v4"));
    r.push(entry(names1("gmail"), "gmail", "v1"));
    r.push(entry(names1("calendar"), "calendar", "v3"));
    r.push(entry(names2("admin-reports", "reports"), "admin", "reports_v1"));
    r.push(entry(names1("docs"), "docs", "v1"));
    r.push(entry(names1("slides"), "slides", "v1"));
    r.push(entry(names1("tasks"), "tasks", "v1"));
    r.push(entry(names1("people"), "people", "v1"));
    r.push(entry(names1("chat"), "chat", "v1"));
    r.push(entry(names1("classroom"), "classroom", "v1"));
    r.push(entry(names1("forms"), "forms", "v1"));
    r.push(entry(names1("keep"), "keep", "v1"));
    r.push(entry(names1("meet"), "meet", "v2"));
    r.push(entry(names1("events"), "workspaceevents", "v1"));
    r.push(entry(names1("modelarmor"), "modelarmor", "v1"));
    r.push(entry(names2("workflow", "wf"), "workflow", "v1"));
    assert(entry_views(r@) =~= service_table());
    r
}

/// The API name and default version of the first service that goes by `name`.
pub open spec fn lookup_service(table: Seq<ServiceView>, name: Seq<char>) -> Option<(Seq<char>, Seq<char>)>
    decreases table.len(),
{
    if table.len() == 0 {
        None
    } else if table[0].0.contains(name) {
        Some((table[0].1, table[0].2))
    } else {
        lookup_service(table.drop_first(), name)
    }
}

/// The message for a name that no known service goes by.
pub open spec fn unknown_service_message(name: Seq<char>) -> Seq<char> {
    "Unknown service '"@ + name + "'."@
}

/// What `resolve_service` gives for a name.
pub open spec fn spec_resolve_service(name: Seq<char>) -> Result<(Seq<char>, Seq<char>), Seq<char>> {
    match lookup_service(service_table(), name) {
        Some(found) => Ok(found),
        None => Err(unknown_service_message(name)),
    }
}

/// A result of the library as plain values, its error by its message.
pub open spec fn pair_result_view(r: Result<(String, String), GwsError>) -> Result<
    (Seq<char>, Seq<char>),
    Seq<char>,
> {
    match r {
        Ok((a, b)) => Ok((a@, b@)),
        Err(e) => Err(validation_message(e)),
    }
}

fn contains_text(list: &Vec<String>, name: &str) -> (r: bool)
    ensures
        r == texts(list@).contains(name@),
{
    let mut i: usize = 0;
    while i < list.len()
        invariant
            0 <= i <= list@.len(),
            forall|k: int| 0 <= k < i ==> texts(list@)[k] != name@,
        decreases list@.len() - i,
    {
        assert(texts(list@)[i as int] == list@[i as int]@);
        if same_text(list[i].as_str(), name) {
            return true;
        }
        i = i + 1;
    }
    false
}

/// Resolves a service name to its API name and default version.
pub fn resolve_service(name: &str) -> (r: Result<(String, String), GwsError>)
    ensures
        pair_result_view(r) == spec_resolve_service(name@),
{
    let table = services();
    assert(service_table().skip(0) =~= service_table());
    let mut i: usize = 0;
    while i < table.len()
        invariant
            0 <= i <= table@.len(),
            entry_views(table@) == service_table(),
            lookup_service(service_table(), name@) == lookup_service(
                service_table().skip(i as int),
                name@,
            ),
        decreases table@.len() - i,
    {
        let e = &table[i];
        assert(service_table()[i as int] == e.view_parts());
        assert(service_table().skip(i as int).drop_first() =~= service_table().skip(i + 1));
        if contains_text(&e.aliases, name) {
            return Ok((e.api_name.clone(), e.version.clone()));
        }
        i = i + 1;
    }
    assert(service_table().skip(i as int) =~= Seq::<ServiceView>::empty());
    let head = glue("Unknown service '", name);
    Err(GwsError::Validation(glue(head.as_str(), "'.")))
}

/// The version that the words ask for with `--api-version`, from position
/// `i` on: the first `--api-version=<v>`, or `--api-version <v>` with a word
/// after it.
pub open spec fn flag_version_from(words: Seq<Seq<char>>, i: int) -> Option<Seq<char>>
    decreases words.len() - i,
{
    if i < 0 || i >= words.len() {
        None
    } else if "--api-version="@.is_prefix_of(words[i]) {
        Some(words[i].skip("--api-version="@.len() as int))
    } else if words[i] == "--api-version"@ && i + 1 < words.len() {
        Some(words[i + 1])
    } else {
        flag_version_from(words, i + 1)
    }
}

/// The message for a service override with an empty API name or version.
pub open spec fn override_syntax_message() -> Seq<char> {
    "Service override must use <api>:<version> syntax"@
}

/// What `resolve_completion_service` gives: the service word is a name, or
/// `<name>:<version>` (split at its first `:`, neither part empty); the name
/// resolves to an API and default version; the version is the one asked for
/// with `--api-version`, else the one after the `:`, else the default.
pub open spec fn spec_resolve_completion_service(service: Seq<char>, words: Seq<Seq<char>>) -> Result<
    (Seq<char>, Seq<char>),
    Seq<char>,
> {
    let split = match first_index_of(service, ':') {
        Some(k) => if k == 0 || k + 1 == service.len() {
            None
        } else {
            Some((service.take(k), Some(service.skip(k + 1))))
        },
        None => Some((service, None)),
    };
    match split {
        None => Err(override_syntax_message()),
        Some((name, colon_version)) => match spec_resolve_service(name) {
            Err(m) => Err(m),
            Ok((api_name, default_version)) => Ok(
                (
                    api_name,
                    match flag_version_from(words, 0) {
                        Some(v) => v,
                        None => match colon_version {
                            Some(v) => v,
                            None => default_version,
                        },
                    },
                ),
            ),
        },
    }
}

/// Finds the version that `--api-version` asks for, if any.
pub fn flag_version(words: &[String]) -> (r: Option<String>)
    ensures
        opt_text(r) == flag_version_from(texts(words@), 0),
{
    let ghost w = texts(words@);
    let prefix = chars_of("--api-version=");
    let mut i: usize = 0;
    while i < words.len()
        invariant
            0 <= i <= words@.len(),
            w == texts(words@),
            prefix@ == "--api-version="@,
            flag_version_from(w, i as int) == flag_version_from(w, 0),
        decreases words@.len() - i,
    {
        let word = words[i].as_str();
        assert(w[i as int] == word@);
        if starts_with(word, "--api-version=") {
            let cs = chars_of(word);
            let value = substring(&cs, prefix.len(), cs.len());
            assert(value@ =~= word@.skip("--api-version="@.len() as int));
            return Some(value);
        }
        if same_text(word, "--api-version") && i + 1 < words.len() {
            assert(w[i + 1] == words@[i + 1]@);
            return Some(words[i + 1].clone());
        }
        i = i + 1;
    }
    None
}

/// Resolves the service word of a completion request, with the words after
/// it, to the API name and version whose Discovery document describes it.
pub fn resolve_completion_service(service: &str, words: &[String]) -> (r: Result<
    (String, String),
    GwsError,
>)
    ensures
        pair_result_view(r) == spec_resolve_completion_service(service@, texts(words@)),
{
    let cs = chars_of(service);
    let found = find_char(cs.as_slice(), ':');
    proof {
        lemma_first_index_of(service@, ':');
    }
    let (name, colon_version): (String, Option<String>) = match found {
        Some(k) => {
            let n = cs.len();
            assert(k < n);
            if k == 0 || k + 1 == n {
                return Err(GwsError::Validation(owned("Service override must use <api>:<version> syntax")));
            }
            let name = substring(&cs, 0, k);
            let version = substring(&cs, k + 1, cs.len());
            assert(name@ =~= service@.take(k as int));
            assert(version@ =~= service@.skip(k + 1));
            (name, Some(version))
        },
        None => (owned(service), None),
    };
    let (api_name, default_version) = match resolve_service(name.as_str()) {
        Ok(found) => found,
        Err(e) => return Err(e),
    };
    let version = match flag_version(words) {
        Some(v) => v,
        None => match colon_version {
            Some(v) => v,
            None => default_version,
        },
    };
    Ok((api_name, version))
}


/// Whichever way the version is given, it is taken in this order: an
/// `--api-version` among the words, else a version after `:` in the service
/// word, else the service's default. The API is that of the name before
/// any `:`, whatever the version.
pub proof fn lemma_version_precedence(
    name: Seq<char>,
    colon_version: Seq<char>,
    words: Seq<Seq<char>>,
)
    requires
        name.len() > 0,
        !name.contains(':'),
        colon_version.len() > 0,
    ensures
        ({
            let with_colon = spec_resolve_completion_service(name + seq![':'] + colon_version, words);
            let bare = spec_resolve_completion_service(name, words);
            match spec_resolve_service(name) {
                Ok((api, default_version)) => {
                    &&& with_colon == Ok::<(Seq<char>, Seq<char>), Seq<char>>((api, match flag_version_from(words, 0) {
                        Some(v) => v,
                        None => colon_version,
                    }))
                    &&& bare == Ok::<(Seq<char>, Seq<char>), Seq<char>>((api, match flag_version_from(words, 0) {
                        Some(v) => v,
                        None => default_version,
                    }))
                },
                Err(m) => with_colon == Err::<(Seq<char>, Seq<char>), Seq<char>>(m) && bare == Err::<(Seq<char>, Seq<char>), Seq<char>>(m),
            }
        }),
{
    let s = name + seq![':'] + colon_version;
    let n = name.len() as int;
    lemma_first_index_of(name, ':');
    assert(s.take(n) =~= name);
    assert(s[n] == ':');
    lemma_first_index_prefix(s, ':', n);
    assert(s.skip(n + 1) =~= colon_version);
    if first_index_of(name, ':') matches Some(k) {
        assert(name.contains(':'));
    }
}


/// Whether an API is described by `gws` itself rather than by a Discovery
/// document: the cross-service `workflow` helpers.
pub open spec fn spec_is_local_service(api_name: Seq<char>) -> bool {
    api_name == "workflow"@
}

/// Whether the command tree of an API comes from `gws` itself, so that no
/// Discovery document is fetched for it.
pub fn is_local_service(api_name: &str) -> (r: bool)
    ensures
        r == spec_is_local_service(api_name@),
{
    same_text(api_name, "workflow")
}

} // verus!
