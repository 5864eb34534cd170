//! What is taken from `compact_str` and from the parts of `std` that `vstd` does not describe.
//!
//! The contracts in this file are not proved. Each states what the function that it calls is
//! documented to do.

use crate::path::{Component, components, final_name, joined};
use compact_str::{CompactString, ToCompactString};
use std::collections::HashMap;
use std::hash::BuildHasher;
use std::path::{PathBuf, StripPrefixError};
use std::str::Utf8Error;
use vstd::prelude::*;
use vstd::std_specs::hash::builds_valid_hashers;
use vstd::string::StringSliceAdditionalSpecFns;
use vstd::utf8::{decode_utf8, valid_utf8};

verus! {

/// `compact_str`'s string; [`compact_text`] is what it holds.
#[verifier::external_type_specification]
#[verifier::external_body]
pub struct ExCompactString(CompactString);

/// `std`'s owned path; [`path_bytes`] is what it holds.
#[verifier::external_type_specification]
#[verifier::external_body]
pub struct ExPathBuf(PathBuf);

/// The error of [`std::str::from_utf8`].
#[verifier::external_type_specification]
#[verifier::external_body]
pub struct ExUtf8Error(Utf8Error);

/// The error of [`std::path::Path::strip_prefix`].
#[verifier::external_type_specification]
#[verifier::external_body]
pub struct ExStripPrefixError(StripPrefixError);

/// `std`'s error of reading and writing, which is only passed on.
#[verifier::external_type_specification]
#[verifier::external_body]
pub struct ExIoError(std::io::Error);

/// The characters that a `CompactString` holds.
pub uninterp spec fn compact_text(s: CompactString) -> Seq<char>;

/// The bytes that a `PathBuf` holds: those of `as_os_str().as_encoded_bytes()`.
pub uninterp spec fn path_bytes(p: PathBuf) -> Seq<u8>;

/// What a path of these bytes reads as where every sequence in it that is not UTF-8 is replaced
/// by U+FFFD.
pub uninterp spec fn lossy_text(bytes: Seq<u8>) -> Seq<char>;

/// The components of a path.
pub open spec fn path_components(p: PathBuf) -> Seq<Component> {
    components(path_bytes(p))
}

/// A map between `CompactString`s as a map between their texts.
pub open spec fn text_map(m: Map<CompactString, CompactString>) -> Map<Seq<char>, Seq<char>> {
    Map::new(
        |k: Seq<char>|
            exists|c: CompactString| #[trigger] m.contains_key(c) && compact_text(c) == k,
        |k: Seq<char>|
            compact_text(
                m[choose|c: CompactString| #[trigger] m.contains_key(c) && compact_text(c) == k],
            ),
    )
}

/// [`std::str::from_utf8`] accepts the bytes that are valid UTF-8, and these only. It gives the
/// text of which they are the encoding.
pub assume_specification[ std::str::from_utf8 ](v: &[u8]) -> (res: Result<&str, Utf8Error>)
    ensures
        res is Ok <==> valid_utf8(v@),
        res matches Ok(s) ==> s.spec_bytes() == v@,
;

/// `to_compact_string` of `compact_str`'s `ToCompactString` gives a string that holds the text of
/// `s`.
#[verifier::external_body]
pub(crate) fn to_compact(s: &str) -> (res: CompactString)
    ensures
        compact_text(res) == s@,
{
    s.to_compact_string()
}

/// `CompactString`'s `==` compares the texts.
#[verifier::external_body]
pub(crate) fn compact_eq(a: &CompactString, b: &CompactString) -> (res: bool)
    ensures
        res == (compact_text(*a) == compact_text(*b)),
{
    a == b
}

/// A clone of a `CompactString` holds the same text.
pub assume_specification[ <CompactString as Clone>::clone ](s: &CompactString) -> (res:
    CompactString)
    ensures
        compact_text(res) == compact_text(*s),
;

/// `HashMap::insert` gives the key that value, in place of the value that it had before, and
/// leaves the other keys alone. `CompactString` is hashed and compared by its text, so keys of
/// the same text are the same key. Of a hasher that does not always hash alike nothing is said.
#[verifier::external_body]
pub(crate) fn env_insert<S: BuildHasher>(
    env: &mut HashMap<CompactString, CompactString, S>,
    key: CompactString,
    value: CompactString,
)
    ensures
        builds_valid_hashers::<S>() ==> text_map(final(env)@) == text_map(
            old(env)@,
        ).insert(compact_text(key), compact_text(value)),
{
    env.insert(key, value);
}

/// `HashMap`'s `==` is true of maps that have the same keys with the same values. Keys and values
/// are compared by their texts. Of a hasher that does not always hash alike nothing is said.
#[verifier::external_body]
pub(crate) fn env_eq<S: BuildHasher>(
    a: &HashMap<CompactString, CompactString, S>,
    b: &HashMap<CompactString, CompactString, S>,
) -> (res: bool)
    ensures
        builds_valid_hashers::<S>() ==> res == (text_map(a@) == text_map(b@)),
{
    a == b
}

/// `PathBuf::from` of a string holds the UTF-8 bytes of that string.
#[verifier::external_body]
pub(crate) fn path_from_text(s: &str) -> (res: PathBuf)
    ensures
        path_bytes(res) == s.spec_bytes(),
{
    PathBuf::from(s)
}

/// `PathBuf`'s `==` compares the components.
#[verifier::external_body]
pub(crate) fn path_eq(a: &PathBuf, b: &PathBuf) -> (res: bool)
    ensures
        res == (path_components(*a) == path_components(*b)),
{
    a == b
}

/// A clone of a `PathBuf` holds the same bytes.
pub assume_specification[ <PathBuf as Clone>::clone ](p: &PathBuf) -> (res: PathBuf)
    ensures
        path_bytes(res) == path_bytes(*p),
;

/// `Path::strip_prefix` succeeds where `path` starts with the components of `base`, and gives the
/// path of the components that follow. How that path is spelled, beyond its components, is not
/// stated.
#[verifier::external_body]
pub(crate) fn strip_prefix(path: &PathBuf, base: &PathBuf) -> (res: Result<
    PathBuf,
    StripPrefixError,
>)
    ensures
        res is Ok <==> path_components(*base).is_prefix_of(path_components(*path)),
        res matches Ok(rest) ==> path_components(rest) == path_components(*path).skip(
            path_components(*base).len() as int,
        ),
{
    match path.strip_prefix(base) {
        Ok(rest) => Ok(rest.to_path_buf()),
        Err(e) => Err(e),
    }
}

/// `Path::join` goes on from `base` with `path`, which takes the place of `base` where it is
/// absolute. How the result is spelled, beyond its components, is not stated.
#[verifier::external_body]
pub(crate) fn join(base: &PathBuf, path: &PathBuf) -> (res: PathBuf)
    ensures
        path_components(res) == joined(path_components(*base), path_components(*path)),
{
    base.join(path)
}

/// `Path::file_name` gives the last component of the path, if that is a name.
#[verifier::external_body]
pub(crate) fn file_name(path: &PathBuf) -> (res: Option<PathBuf>)
    ensures
        match res {
            Some(name) => final_name(path_components(*path)) == Some(path_bytes(name)),
            None => final_name(path_components(*path)) is None,
        },
{
    path.file_name().map(PathBuf::from)
}

/// `Path::to_string_lossy` gives the text of the path if it is valid UTF-8. If it is not, the
/// result depends on the bytes alone; the characters that stand for the invalid sequences are not
/// stated.
#[verifier::external_body]
pub(crate) fn to_string_lossy(path: &PathBuf) -> (res: String)
    ensures
        res@ == lossy_text(path_bytes(*path)),
        valid_utf8(path_bytes(*path)) ==> res@ == decode_utf8(path_bytes(*path)),
{
    path.to_string_lossy().into_owned()
}

} // verus!
