//! File-system paths: the few questions asked of them, and what is trusted of the answers.
//!
//! The paths are those of Unix: a sequence of bytes, with `/` between the components. How the
//! standard library takes a path apart and puts one together is named here rather than spelled
//! out; the facts stated beside the names are those of its Unix implementation.
use std::path::{Path, PathBuf};
use vstd::prelude::*;
use vstd::utf8::{encode_utf8, valid_utf8};

verus! {

/// `std::path::Path`, a borrowed path.
#[verifier::external_type_specification]
#[verifier::external_body]
pub struct ExPath(Path);

/// `std::path::PathBuf`, an owned path.
#[verifier::external_type_specification]
#[verifier::external_body]
pub struct ExPathBuf(PathBuf);

/// The bytes of a borrowed path.
pub uninterp spec fn path_bytes(path: &Path) -> Seq<u8>;

/// The bytes of an owned path.
pub uninterp spec fn path_buf_bytes(path: PathBuf) -> Seq<u8>;

/// What `Path::parent` gives for a path with these bytes.
pub uninterp spec fn parent_bytes(path: Seq<u8>) -> Option<Seq<u8>>;

/// What `Path::file_stem` gives for a path with these bytes.
pub uninterp spec fn stem_bytes(path: Seq<u8>) -> Option<Seq<u8>>;

/// What `Path::to_string_lossy` gives for a path with these bytes.
pub uninterp spec fn lossy_text(path: Seq<u8>) -> Seq<char>;

/// What `Path::join` gives for a directory with these bytes and a name.
pub uninterp spec fn joined_bytes(dir: Seq<u8>, name: Seq<char>) -> Seq<u8>;

/// The byte of the separator between the components of a path.
pub const SLASH: u8 = 47;

/// `bytes` ends with `tail`.
pub open spec fn ends_with(bytes: Seq<u8>, tail: Seq<u8>) -> bool {
    tail.len() <= bytes.len() && bytes.skip(bytes.len() - tail.len()) == tail
}

/// A name that is one ordinary component of a path: not empty, without a separator, and neither of
/// the two names that stand for a directory itself and for the one above it.
pub open spec fn is_file_name(name: Seq<char>) -> bool {
    name.len() > 0 && name != seq!['.'] && name != seq!['.', '.'] && !name.contains('/')
}

/// `dot` is where the extension of a file name begins: at the last dot of the name, where that is
/// not its first character.
pub open spec fn extension_at(name: Seq<char>, dot: int) -> bool {
    0 < dot < name.len() && name[dot] == '.' && !name.skip(dot + 1).contains('.')
}

/// The current directory, or what `Path::parent` gives for some path: a directory with no
/// separator or `.` left at its end that taking a path apart would drop.
pub open spec fn is_parent_dir(dir: Seq<u8>) -> bool {
    ||| dir == encode_utf8("."@)
    ||| exists|path: Seq<u8>| #[trigger] parent_bytes(path) == Some(dir)
}

/// `Path::new` on a string slice: the path whose bytes are the UTF-8 bytes of the text.
#[verifier::external_body]
pub(crate) fn text_path(text: &str) -> (path: &Path)
    ensures
        path_bytes(path) == encode_utf8(text@),
{
    Path::new(text)
}

/// `Path::parent`: the path without its final component, or `None` where the path ends in a root
/// or is empty. Which bytes those are is left to the name `parent_bytes`.
#[verifier::external_body]
pub(crate) fn path_parent<'a>(path: &'a Path) -> (parent: Option<&'a Path>)
    ensures
        match parent {
            Some(p) => parent_bytes(path_bytes(path)) == Some(path_bytes(p)),
            None => parent_bytes(path_bytes(path)) is None,
        },
{
    path.parent()
}

/// `Path::file_stem` on Unix: the final component without its extension, or `None` where the path
/// has no file name. Which bytes those are is left to the name `stem_bytes`; a stem is part of one
/// component, so it holds no separator.
#[verifier::external_body]
pub(crate) fn path_stem<'a>(path: &'a Path) -> (stem: Option<&'a Path>)
    ensures
        match stem {
            Some(s) => stem_bytes(path_bytes(path)) == Some(path_bytes(s)) && !path_bytes(
                s,
            ).contains(SLASH),
            None => stem_bytes(path_bytes(path)) is None,
        },
{
    path.file_stem().map(Path::new)
}

/// `Path::to_string_lossy`: the text of the path, with a replacement character for each sequence
/// that is not UTF-8. A path that is UTF-8 is kept as it is; in any case no separator is made up.
/// Where the replacements go in other paths is left to the name `lossy_text`.
#[verifier::external_body]
pub(crate) fn path_text(path: &Path) -> (text: String)
    ensures
        text@ == lossy_text(path_bytes(path)),
        valid_utf8(path_bytes(path)) ==> encode_utf8(text@) == path_bytes(path),
        !path_bytes(path).contains(SLASH) ==> !text@.contains('/'),
{
    path.to_string_lossy().into_owned()
}

/// `Path::join` on Unix: the directory extended by a name. Which bytes those are is left to the
/// name `joined_bytes`; a name without a separator stands, as it is, at the end of the result.
///
/// A file name becomes the final component of the result. So `Path::file_stem` of the result is
/// the part of the name before its last dot, and `Path::parent` of the result is the directory.
/// The latter is stated for directories that are such as `Path::parent` gives: of others, the
/// parent may lack a separator or a `.` at the end.
#[verifier::external_body]
pub(crate) fn path_join(dir: &Path, name: &str) -> (path: PathBuf)
    ensures
        path_buf_bytes(path) == joined_bytes(path_bytes(dir), name@),
        !name@.contains('/') ==> ends_with(path_buf_bytes(path), encode_utf8(name@)),
        forall|dot: int|
            is_file_name(name@) && #[trigger] extension_at(name@, dot) ==> stem_bytes(
                path_buf_bytes(path),
            ) == Some(encode_utf8(name@.take(dot))),
        is_file_name(name@) && is_parent_dir(path_bytes(dir)) ==> parent_bytes(
            path_buf_bytes(path),
        ) == Some(path_bytes(dir)),
{
    dir.join(name)
}

} // verus!
