//! Calls into other crates and into the parts of the standard library that have no
//! specification. What these items claim is believed, not proved.

use crate::paths::{is_absolute, join};
use crate::text::{decimal, is_space};
use vstd::prelude::*;
use vstd::utf8::{
    decode_utf8, encode_utf8, encode_utf8_decode_utf8, encode_utf8_valid_utf8, is_ascii_chars,
    valid_utf8,
};

verus! {

/// The text that `String::from_utf8_lossy` makes of bytes that are no valid UTF-8.
pub uninterp spec fn repaired_utf8(bytes: Seq<u8>) -> Seq<char>;

/// The name of the directory that `directories::ProjectDirs::from` gives an application
/// on Linux.
pub uninterp spec fn project_dir_name(application: Seq<char>) -> Seq<char>;

/// The reason that the `Display` of a status code puts behind its number.
pub uninterp spec fn status_reason(code: u16) -> Seq<char>;

/// Bytes read as text: what they encode, or the repaired text.
pub open spec fn lossy(bytes: Seq<u8>) -> Seq<char> {
    if valid_utf8(bytes) {
        decode_utf8(bytes)
    } else {
        repaired_utf8(bytes)
    }
}

/// An ASCII application name as a directory name: in lower case, without its spaces.
pub open spec fn directory_name(application: Seq<char>) -> Seq<char> {
    application.filter(|c: char| !is_space(c)).map_values(|c: char| lower_case(c))
}

pub open spec fn lower_case(c: char) -> char {
    if 'A' <= c <= 'Z' {
        (c as u32 + 32) as char
    } else {
        c
    }
}

/// Whether a name is a directory name already.
pub open spec fn is_plain_name(name: Seq<char>) -> bool {
    forall|i: int| 0 <= i < name.len() ==> !is_space(#[trigger] name[i]) && lower_case(name[i])
        == name[i]
}

/// A name that is a directory name already stays as it is.
pub proof fn lemma_plain_name(name: Seq<char>)
    requires
        is_plain_name(name),
    ensures
        directory_name(name) == name,
{
    lemma_nothing_filtered(name);
    assert(directory_name(name) =~= name);
}

proof fn lemma_nothing_filtered(name: Seq<char>)
    requires
        is_plain_name(name),
    ensures
        name.filter(|c: char| !is_space(c)) == name,
    decreases name.len(),
{
    reveal(Seq::filter);
    if name.len() > 0 {
        let front = name.drop_last();
        assert forall|i: int| 0 <= i < front.len() implies !is_space(#[trigger] front[i])
            && lower_case(front[i]) == front[i] by {
            assert(front[i] == name[i]);
        }
        lemma_nothing_filtered(front);
        assert(!is_space(name[name.len() - 1]));
        assert(front.push(name.last()) =~= name);
    }
}

/// Whether `dir` can be the directory for a user's caches: an absolute path, or
/// `.cache` in a home directory.
pub open spec fn may_hold_caches(dir: Seq<u8>) -> bool {
    is_absolute(dir) || exists|home: Seq<u8>|
        home.len() > 0 && #[trigger] join(home, encode_utf8(".cache"@)) == dir
}

/// Whether `dir` is the directory that an application of this name has in a directory
/// for caches.
pub open spec fn is_own_directory(dir: Seq<u8>, application: Seq<char>) -> bool {
    exists|parent: Seq<u8>| #[trigger]
        join(parent, encode_utf8(project_dir_name(application))) == dir && may_hold_caches(parent)
}

/// Calls `String::from_utf8_lossy`. Claims that valid UTF-8 is read as what it
/// encodes, and that the text depends on the bytes alone.
#[verifier::external_body]
pub(crate) fn text_of(bytes: &[u8]) -> (text: String)
    ensures
        text@ == if valid_utf8(bytes@) {
            decode_utf8(bytes@)
        } else {
            repaired_utf8(bytes@)
        },
{
    String::from_utf8_lossy(bytes).into_owned()
}

/// Calls `directories::ProjectDirs::from` and `ProjectDirs::cache_dir`, as they are
/// on Linux, where the first two arguments have no effect. The result depends on the
/// environment and on the user database. Claims that a directory that is found is the
/// application's own one in a directory for caches; that its name depends on the
/// application's alone; and that an ASCII name is put in lower case, without its
/// spaces. What Unicode makes of other names is left unsaid.
#[verifier::external_body]
pub(crate) fn project_cache_dir(qualifier: &str, organization: &str, application: &str) -> (dir:
    Option<Vec<u8>>)
    ensures
        dir matches Some(d) ==> is_own_directory(d@, application@) && (is_ascii_chars(application@)
            ==> project_dir_name(application@) == directory_name(application@)),
{
    directories::ProjectDirs::from(qualifier, organization, application).map(
        |dirs| dirs.cache_dir().to_path_buf().into_os_string().into_encoded_bytes(),
    )
}

/// Calls `directories::BaseDirs::new` and `BaseDirs::home_dir`. The result depends on
/// the environment and on the user database. Claims that a directory that is found is
/// not the empty path.
#[verifier::external_body]
pub(crate) fn home_dir() -> (dir: Option<Vec<u8>>)
    ensures
        dir matches Some(d) ==> d@.len() > 0,
{
    directories::BaseDirs::new().map(
        |dirs| dirs.home_dir().to_path_buf().into_os_string().into_encoded_bytes(),
    )
}

/// Calls `reqwest::StatusCode::from_u16` and formats the code with its `Display`.
/// Claims that the text is the number, a space and a reason that depends on the
/// number alone.
#[verifier::external_body]
pub(crate) fn status_text(code: u16) -> (text: String)
    requires
        100 <= code <= 999,
    ensures
        text@ == decimal(code as nat) + " "@ + status_reason(code),
{
    reqwest::StatusCode::from_u16(code).unwrap().to_string()
}

/// Bytes that encode a text read as that text, whatever it is; others read as what the
/// repair makes of them.
pub proof fn law_encoded_text_reads_back(text: Seq<char>, bytes: Seq<u8>)
    ensures
        lossy(encode_utf8(text)) == text,
        !valid_utf8(bytes) ==> lossy(bytes) == repaired_utf8(bytes),
{
    encode_utf8_valid_utf8(text);
    encode_utf8_decode_utf8(text);
}

} // verus!
