//! What the library has from other crates and from `std`, each call behind a
//! function that says what is relied on.

use crate::json::{Json, JsonTree};
use vstd::prelude::*;
use vstd::utf8::{decode_utf8, valid_utf8};

verus! {

/// The SHA-256 digest of a message.
pub uninterp spec fn sha256(message: Seq<u8>) -> Seq<u8>;

/// `sha2::Sha256::digest`: the digest, which is 32 bytes long, depends on the
/// message alone.
#[verifier::external_body]
pub(crate) fn sha256_digest(message: &Vec<u8>) -> (digest: Vec<u8>)
    ensures
        digest@ == sha256(message@),
        digest@.len() == 32,
{
    <sha2::Sha256 as sha2::Digest>::digest(message).to_vec()
}

/// The text that bytes stand for when every piece of them that is not UTF-8
/// is read as U+FFFD.
pub uninterp spec fn lossy_text(bytes: Seq<u8>) -> Seq<char>;

/// `String::from_utf8_lossy`: the text depends on the bytes alone, and bytes
/// that are UTF-8 are read as such.
#[verifier::external_body]
pub(crate) fn text_lossy(bytes: &Vec<u8>) -> (text: String)
    ensures
        text@ == lossy_text(bytes@),
        valid_utf8(bytes@) ==> text@ == decode_utf8(bytes@),
{
    String::from_utf8_lossy(bytes).into_owned()
}

/// What is said of bytes that are not UTF-8.
pub uninterp spec fn utf8_problem(bytes: Seq<u8>) -> Seq<char>;

/// `String::from_utf8`: the text that the bytes encode, exactly where they are
/// UTF-8. What the error says of other bytes depends on them alone.
#[verifier::external_body]
pub(crate) fn text_strict(bytes: &Vec<u8>) -> (text: Result<String, String>)
    ensures
        text is Ok <==> valid_utf8(bytes@),
        text matches Ok(s) ==> s@ == decode_utf8(bytes@),
        text matches Err(problem) ==> problem@ == utf8_problem(bytes@),
{
    String::from_utf8(bytes.clone()).map_err(|error| error.to_string())
}

/// What is said of a text that is no `i64`; nothing of one that is.
pub uninterp spec fn i64_problem(text: Seq<char>) -> Seq<char>;

/// `str::parse`, to an `i64`: what the error says depends on the text alone.
#[verifier::external_body]
pub(crate) fn describe_i64(text: &str) -> (problem: String)
    ensures
        problem@ == i64_problem(text@),
{
    text.parse::<i64>().map_or_else(|error| error.to_string(), |_| String::new())
}

#[verifier::external_type_specification]
#[verifier::external_body]
pub struct ExJsonError(serde_json::Error);

#[verifier::external_type_specification]
#[verifier::external_body]
pub struct ExJsonValue(serde_json::Value);

/// The document that a JSON text writes down; nothing where it is no JSON.
pub uninterp spec fn json_of_text(text: Seq<u8>) -> Result<JsonTree, Seq<char>>;

/// `serde_json::from_slice`, into a `serde_json::Value`: the document depends
/// on the bytes alone, and so does what the error says.
#[verifier::external_body]
pub(crate) fn parse_json(text: &Vec<u8>) -> (json: Result<Json, String>)
    ensures
        json is Ok <==> json_of_text(text@) is Ok,
        json matches Ok(j) ==> json_of_text(text@)->Ok_0 == j.tree(),
        json matches Err(problem) ==> json_of_text(text@)->Err_0 == problem@,
{
    serde_json::from_slice::<serde_json::Value>(text).map(json_from_value).map_err(
        |error| error.to_string(),
    )
}

/// A `serde_json::Value`, variant by variant.
#[verifier::external_body]
fn json_from_value(value: serde_json::Value) -> Json {
    match value {
        serde_json::Value::Null => Json::Null,
        serde_json::Value::Bool(b) => Json::Bool(b),
        serde_json::Value::Number(n) => n.as_u64().map_or(Json::OtherNumber, Json::Number),
        serde_json::Value::String(s) => Json::Text(s),
        serde_json::Value::Array(a) => Json::Array(a.into_iter().map(json_from_value).collect()),
        serde_json::Value::Object(o) => Json::Object(
            o.into_iter().map(|e| (e.0, json_from_value(e.1))).collect(),
        ),
    }
}

/// The JSON text of a document.
pub uninterp spec fn text_of_json(tree: JsonTree) -> Seq<u8>;

/// `serde_json::to_vec`, of a `serde_json::Value`: it never fails, for every
/// variant of a value can be written and so can every byte into a vector, and
/// the text depends on the document alone.
#[verifier::external_body]
fn try_write_json(json: &Json) -> (text: Result<Vec<u8>, serde_json::Error>)
    ensures
        text is Ok,
        text matches Ok(t) ==> t@ == text_of_json(json.tree()),
{
    serde_json::to_vec(&json_to_value(json))
}

/// The JSON text of a document.
pub(crate) fn write_json(json: &Json) -> (text: Vec<u8>)
    ensures
        text@ == text_of_json(json.tree()),
{
    try_write_json(json).unwrap()
}

/// A `serde_json::Value`, variant by variant; a number whose value was not
/// kept becomes null.
#[verifier::external_body]
fn json_to_value(json: &Json) -> serde_json::Value {
    match json {
        Json::Null | Json::OtherNumber => serde_json::Value::Null,
        Json::Bool(b) => serde_json::Value::Bool(*b),
        Json::Number(n) => serde_json::Value::from(*n),
        Json::Text(s) => serde_json::Value::String(s.clone()),
        Json::Array(a) => serde_json::Value::Array(a.iter().map(json_to_value).collect()),
        Json::Object(o) => serde_json::Value::Object(
            o.iter().map(|e| (e.0.clone(), json_to_value(&e.1))).collect(),
        ),
    }
}

#[verifier::external_type_specification]
#[verifier::external_body]
pub struct ExGlob(globset::Glob);

#[verifier::external_type_specification]
#[verifier::external_body]
pub struct ExGlobSetBuilder(globset::GlobSetBuilder);

#[verifier::external_type_specification]
#[verifier::external_body]
pub struct ExGlobSet(globset::GlobSet);

/// What is said of a pattern without backslashes that is no glob; nothing of one that is.
pub uninterp spec fn glob_problem(pattern: Seq<char>) -> Option<Seq<char>>;

/// Whether a glob matches the path with these bytes, neither of them with backslashes.
pub uninterp spec fn glob_matches(pattern: Seq<char>, path: Seq<u8>) -> bool;

/// Whether one of the globs matches the path with these bytes.
pub open spec fn any_glob_matches(patterns: Seq<Seq<char>>, path: Seq<u8>) -> bool {
    exists|i: int| 0 <= i < patterns.len() && glob_matches(#[trigger] patterns[i], path)
}

/// The pattern that a glob was made from.
pub uninterp spec fn glob_pattern(glob: globset::Glob) -> Seq<char>;

/// The patterns that a set under construction holds.
pub uninterp spec fn builder_patterns(builder: globset::GlobSetBuilder) -> Seq<Seq<char>>;

/// The patterns that a set of globs holds.
pub uninterp spec fn set_patterns(set: globset::GlobSet) -> Seq<Seq<char>>;

/// `globset::Glob::new`: whether the pattern is a glob, and what the error says
/// of it otherwise, depends on it alone. What a backslash means
/// there depends on the platform, so there is none.
#[verifier::external_body]
pub(crate) fn new_glob(pattern: &str) -> (glob: Result<globset::Glob, String>)
    requires
        !pattern@.contains('\\'),
    ensures
        glob is Ok <==> glob_problem(pattern@) is None,
        glob matches Ok(g) ==> glob_pattern(g) == pattern@,
        glob matches Err(problem) ==> glob_problem(pattern@) == Some(problem@),
{
    globset::Glob::new(pattern).map_err(|error| error.to_string())
}

/// `globset::GlobSetBuilder::new`: no pattern yet.
#[verifier::external_body]
pub(crate) fn new_glob_set() -> (builder: globset::GlobSetBuilder)
    ensures
        builder_patterns(builder) == Seq::<Seq<char>>::empty(),
{
    globset::GlobSetBuilder::new()
}

/// `globset::GlobSetBuilder::add`: one more pattern, behind the others.
#[verifier::external_body]
pub(crate) fn add_glob(builder: &mut globset::GlobSetBuilder, glob: globset::Glob)
    ensures
        builder_patterns(*final(builder)) == builder_patterns(*old(builder)).push(
            glob_pattern(glob),
        ),
{
    builder.add(glob);
}

/// `globset::GlobSetBuilder::build`: a set with the same patterns. It can be
/// refused for the size of the matcher, which depends on the platform; a set
/// without patterns never is. Nothing is stated of what the error says.
#[verifier::external_body]
pub(crate) fn build_glob_set(builder: &globset::GlobSetBuilder) -> (set: Result<
    globset::GlobSet,
    String,
>)
    ensures
        set matches Ok(s) ==> set_patterns(s) == builder_patterns(*builder),
        builder_patterns(*builder).len() == 0 ==> set is Ok,
{
    builder.build().map_err(|error| error.to_string())
}

/// `globset::GlobSet::is_match_candidate`, of `globset::Candidate::from_bytes`:
/// whether one of the globs matches the path with these bytes. What a
/// backslash in the path means depends on the platform, so nothing is said of
/// a path with one, but that a set without patterns does not match it.
#[verifier::external_body]
pub(crate) fn glob_set_matches(set: &globset::GlobSet, path: &Vec<u8>) -> (yes: bool)
    ensures
        !path@.contains(92u8) ==> (yes == (exists|i: int|
            0 <= i < set_patterns(*set).len() && glob_matches(
                #[trigger] set_patterns(*set)[i],
                path@,
            ))),
        set_patterns(*set).len() == 0 ==> !yes,
{
    set.is_match_candidate(&globset::Candidate::from_bytes(path))
}

/// `dirs::home_dir`: the bytes of the user's home, as the environment has it.
/// Nothing is said of which path it is.
#[verifier::external_body]
pub(crate) fn home_directory() -> (path: Option<Vec<u8>>) {
    dirs::home_dir().map(|p| p.into_os_string().into_encoded_bytes())
}

/// `dirs::config_dir`, in the same way.
#[verifier::external_body]
pub(crate) fn config_directory() -> (path: Option<Vec<u8>>) {
    dirs::config_dir().map(|p| p.into_os_string().into_encoded_bytes())
}

/// `dirs::data_local_dir`, in the same way.
#[verifier::external_body]
pub(crate) fn data_directory() -> (path: Option<Vec<u8>>) {
    dirs::data_local_dir().map(|p| p.into_os_string().into_encoded_bytes())
}

/// `dirs::state_dir`, in the same way.
#[verifier::external_body]
pub(crate) fn state_directory() -> (path: Option<Vec<u8>>) {
    dirs::state_dir().map(|p| p.into_os_string().into_encoded_bytes())
}

} // verus!
