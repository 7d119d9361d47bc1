use vstd::prelude::*;
use crate::command::{owned, invocation, Invocation, InvocationView};
use crate::naming::{after_last, after_last_char, drop_suffix, strip_suffix};
use crate::text::{chars_of, string_of};

verus! {

#[verifier::external_type_specification]
#[verifier::external_body]
pub struct ExIni(ini::Ini);

#[verifier::external_type_specification]
#[verifier::external_body]
pub struct ExIniParseError(ini::ParseError);

/// What `ini::Ini::load_from_str` makes of a text: nothing when it refuses
/// the text, else the named sections, each section's keys mapped to their
/// values.
pub uninterp spec fn ini_loaded(text: Seq<char>) -> Option<Map<Seq<char>, Map<Seq<char>, Seq<char>>>>;

/// What a loaded `ini::Ini` holds: for each section name, the keys of the
/// first section of that name mapped to their first values.
pub uninterp spec fn ini_contents(i: ini::Ini) -> Map<Seq<char>, Map<Seq<char>, Seq<char>>>;

/// Relies on `ini::Ini::load_from_str`: reads an INI text, or says where
/// it is malformed.
#[verifier::external_body]
fn load_ini(text: &str) -> (r: Result<ini::Ini, ini::ParseError>)
    ensures
        r is Ok <==> ini_loaded(text@) is Some,
        r matches Ok(i) ==> ini_loaded(text@) == Some(ini_contents(i)),
{
    ini::Ini::load_from_str(text)
}

/// Relies on `ini::Ini::section`: whether a section of that name exists.
#[verifier::external_body]
fn has_section(i: &ini::Ini, name: &str) -> (r: bool)
    ensures
        r == ini_contents(*i).contains_key(name@),
{
    i.section(Some(name)).is_some()
}

/// Relies on `ini::Ini::get_from`: the first value of `key` in the first
/// section named `section`.
#[verifier::external_body]
fn ini_value(i: &ini::Ini, section: &str, key: &str) -> (r: Option<String>)
    ensures
        match r {
            Some(v) => ini_contents(*i).contains_key(section@) && ini_contents(
                *i,
            )[section@].contains_key(key@) && v@ == ini_contents(*i)[section@][key@],
            None => !(ini_contents(*i).contains_key(section@) && ini_contents(
                *i,
            )[section@].contains_key(key@)),
        },
{
    i.get_from(Some(section), key).map(|v| v.to_owned())
}

/// Relies on `ini::ParseError`'s `Display`: where and why the text is
/// malformed.
#[verifier::external_body]
fn parse_error_text(e: &ini::ParseError) -> (r: String) {
    e.to_string()
}

/// Why a repository's remote URL could not be found.
#[derive(Debug, PartialEq, Eq)]
pub enum OriginError {
    /// The git config could not be read or is not valid INI.
    Unreadable(String),
    /// The config has no `remote "origin"` section.
    NoOrigin,
    /// The `remote "origin"` section has no `url`.
    NoUrl,
}

pub open spec fn origin_section() -> Seq<char> {
    "remote \"origin\""@
}

/// The URL of the `origin` remote in a repository's `.git/config` text.
pub fn get_origin(config: &str) -> (r: Result<String, OriginError>)
    ensures
        match ini_loaded(config@) {
            None => r matches Err(OriginError::Unreadable(_)),
            Some(m) => if !m.contains_key(origin_section()) {
                r == Err::<String, OriginError>(OriginError::NoOrigin)
            } else if !m[origin_section()].contains_key("url"@) {
                r == Err::<String, OriginError>(OriginError::NoUrl)
            } else {
                r matches Ok(u) && u@ == m[origin_section()]["url"@]
            },
        },
{
    let file = match load_ini(config) {
        Ok(file) => file,
        Err(e) => {
            let mut msg = owned("Could not load .git/config: ");
            msg.append(parse_error_text(&e).as_str());
            return Err(OriginError::Unreadable(msg));
        },
    };
    if !has_section(&file, "remote \"origin\"") {
        return Err(OriginError::NoOrigin);
    }
    match ini_value(&file, "remote \"origin\"", "url") {
        Some(url) => Ok(url),
        None => Err(OriginError::NoUrl),
    }
}

/// The folder that `git clone` makes for a repository path: its last
/// segment without `.git`.
pub open spec fn folder_of(path: Seq<char>) -> Seq<char> {
    strip_suffix(after_last(path, '/'), ".git"@)
}

pub fn get_folder_from_path(path: &str) -> (r: String)
    ensures
        r@ == folder_of(path@),
{
    let last = after_last_char(&chars_of(path), '/');
    string_of(&drop_suffix(last, ".git"))
}

/// The git command that clones `repository` into `folder`, or into the
/// folder its path names; and that folder.
pub fn git_clone(repository: &str, folder: &Option<String>) -> (r: (Invocation, String))
    ensures
        r.1@ == match folder {
            Some(f) => f@,
            None => folder_of(repository@),
        },
        r.0@ == (InvocationView {
            program: "git"@,
            args: seq!["clone"@, repository@, r.1@],
            input: None,
        }),
{
    let target = match folder {
        Some(f) => f.clone(),
        None => get_folder_from_path(repository),
    };
    let args = vec![owned("clone"), owned(repository), target.clone()];
    let r = invocation("git", args);
    proof {
        assert(r@.args =~= seq!["clone"@, repository@, target@]);
    }
    (r, target)
}

} // verus!
