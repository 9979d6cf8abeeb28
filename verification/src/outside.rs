//! The calls into other crates that the library makes, and what it takes them to do.

use regex::Regex;
use serde_yaml::Value;
use std::path::PathBuf;
use vstd::prelude::*;

use crate::text;

verus! {

/// A YAML value, held as it was parsed.
#[verifier::external_type_specification]
#[verifier::external_body]
pub struct ExYamlValue(serde_yaml::Value);

/// The reason why a text is not YAML.
#[verifier::external_type_specification]
#[verifier::external_body]
pub struct ExYamlError(serde_yaml::Error);

/// What `serde_yaml::from_str` makes of a text when asked for a YAML value.
pub uninterp spec fn yaml_document(text: Seq<char>) -> Result<Value, serde_yaml::Error>;

/// The text that `serde_yaml::Error` displays.
pub uninterp spec fn yaml_error_message(error: serde_yaml::Error) -> Seq<char>;

/// The items of a YAML value that is an untagged sequence; `None` for every other value.
pub uninterp spec fn yaml_items(value: Value) -> Option<Seq<Value>>;

/// Calls `serde_yaml::from_str` for a [`serde_yaml::Value`]. The outcome depends on the text
/// alone and is named [`yaml_document`].
#[verifier::external_body]
pub(crate) fn yaml_from_str(text: &str) -> (result: Result<Value, serde_yaml::Error>)
    ensures
        result == yaml_document(text@),
{
    serde_yaml::from_str(text)
}

/// Displays a [`serde_yaml::Error`]. The text depends on the error alone and is named
/// [`yaml_error_message`].
#[verifier::external_body]
pub(crate) fn yaml_error_text(error: &serde_yaml::Error) -> (text: String)
    ensures
        text@ == yaml_error_message(*error),
{
    error.to_string()
}

/// Takes a [`serde_yaml::Value`] apart: the items when it is the variant `Sequence`, in their
/// order, and `None` when it is any other variant.
#[verifier::external_body]
pub(crate) fn yaml_into_sequence(value: Value) -> (items: Option<Vec<Value>>)
    ensures
        yaml_items(value) == match items {
            Some(list) => Some(list@),
            None => None,
        },
{
    match value {
        Value::Sequence(items) => Some(items),
        Value::Null => None,
        Value::Bool(_) => None,
        Value::Number(_) => None,
        Value::String(_) => None,
        Value::Mapping(_) => None,
        Value::Tagged(_) => None,
    }
}

/// The format of the timestamps in log lines.
pub const TIMESTAMP_FORMAT: &'static str = "%Y-%m-%d %H:%M:%S";

/// A decimal digit.
pub open spec fn is_digit(c: char) -> bool {
    '0' <= c <= '9'
}

/// A year of at least four digits, with a sign in front where it needs one, then month, day, hour,
/// minute and second of two digits each: `2024-05-01 12:30:00`.
pub open spec fn is_timestamp(text: Seq<char>) -> bool {
    let y = text.len() - 15;
    &&& y >= 4
    &&& forall|i: int|
        0 <= i < y ==> is_digit(#[trigger] text[i]) || i == 0 && (text[i] == '+' || text[i] == '-')
    &&& text[y] == '-' && is_digit(text[y + 1]) && is_digit(text[y + 2])
    &&& text[y + 3] == '-' && is_digit(text[y + 4]) && is_digit(text[y + 5])
    &&& text[y + 6] == ' ' && is_digit(text[y + 7]) && is_digit(text[y + 8])
    &&& text[y + 9] == ':' && is_digit(text[y + 10]) && is_digit(text[y + 11])
    &&& text[y + 12] == ':' && is_digit(text[y + 13]) && is_digit(text[y + 14])
}

/// Reads the local time with `chrono::Local::now` and renders it with `DateTime::format`. Which
/// time it is rests on the clock and the time zone, so only the shape of the text is known. `chrono`
/// panics where the machine gives it no time: on a clock set before 1970 or beyond the dates that it
/// can hold, and on a time zone whose offset is a day or more.
#[verifier::external_body]
pub(crate) fn local_time(format: &str) -> (text: String)
    requires
        format@ == TIMESTAMP_FORMAT@,
    ensures
        is_timestamp(text@),
{
    chrono::Local::now().format(format).to_string()
}

/// A compiled regular expression.
#[verifier::external_type_specification]
#[verifier::external_body]
pub struct ExRegex(regex::Regex);

/// The reason why a text is not a regular expression.
#[verifier::external_type_specification]
#[verifier::external_body]
pub struct ExRegexError(regex::Error);

/// What `Regex::new` makes of a pattern.
pub uninterp spec fn regex_compiled(pattern: Seq<char>) -> Result<Regex, regex::Error>;

/// The text that `regex::Error` displays.
pub uninterp spec fn regex_error_message(error: regex::Error) -> Seq<char>;

/// Whether a compiled expression matches somewhere in a text.
pub uninterp spec fn regex_matches(regex: Regex, text: Seq<char>) -> bool;

/// `Regex::new`: the outcome depends on the pattern alone and is named [`regex_compiled`].
pub assume_specification[ Regex::new ](re: &str) -> (result: Result<Regex, regex::Error>)
    ensures
        result == regex_compiled(re@),
;

/// `Regex::is_match`: the answer depends on the expression and the text alone and is named
/// [`regex_matches`].
pub assume_specification[ Regex::is_match ](regex: &Regex, haystack: &str) -> (result: bool)
    ensures
        result == regex_matches(*regex, haystack@),
;

/// Displays a [`regex::Error`]. The text depends on the error alone and is named
/// [`regex_error_message`].
#[verifier::external_body]
pub(crate) fn regex_error_text(error: &regex::Error) -> (text: String)
    ensures
        text@ == regex_error_message(*error),
{
    error.to_string()
}

/// The reason why a command line cannot be split.
#[verifier::external_type_specification]
#[verifier::external_body]
pub struct ExParseError(shell_words::ParseError);

/// The words that `shell_words::split` finds in a command line; `None` when a quote is not closed.
pub uninterp spec fn shell_split(line: Seq<char>) -> Option<Seq<Seq<char>>>;

/// `shell_words::split`: the outcome depends on the text alone. The words, in order, are named
/// [`shell_split`], which is `None` exactly when the call returns an error.
pub assume_specification[ shell_words::split ](s: &str) -> (result: Result<
    Vec<String>,
    shell_words::ParseError,
>)
    ensures
        shell_split(s@) == match result {
            Ok(words) => Some(text::texts(words@)),
            Err(_) => None,
        },
;

/// Displays a [`shell_words::ParseError`], whose text is always the same.
#[verifier::external_body]
pub(crate) fn split_error_text(error: &shell_words::ParseError) -> (text: String)
    ensures
        text@ == "missing closing quote"@,
{
    error.to_string()
}

/// A path in the file system.
#[verifier::external_type_specification]
#[verifier::external_body]
pub struct ExPathBuf(std::path::PathBuf);

/// What is left of a path below another; `None` when the path does not begin with the other.
pub uninterp spec fn path_below(path: PathBuf, base: PathBuf) -> Option<PathBuf>;

/// The text of a path, with a replacement character for what is not Unicode.
pub uninterp spec fn path_text(path: PathBuf) -> Seq<char>;

/// Calls `Path::strip_prefix`, which takes the base off a path that begins with it and fails on
/// every other path. The outcome depends on the two paths alone, read in the path syntax of the
/// platform that the program is built for, and is named [`path_below`].
#[verifier::external_body]
pub(crate) fn path_strip_prefix(path: &PathBuf, base: &PathBuf) -> (rest: Option<PathBuf>)
    ensures
        rest == path_below(*path, *base),
{
    match path.strip_prefix(base) {
        Ok(rest) => Some(rest.to_path_buf()),
        Err(_) => None,
    }
}

/// Calls `Path::to_string_lossy`. The text depends on the path alone and is named [`path_text`].
#[verifier::external_body]
pub(crate) fn path_lossy_text(path: &PathBuf) -> (text: String)
    ensures
        text@ == path_text(*path),
{
    path.to_string_lossy().into_owned()
}

} // verus!
