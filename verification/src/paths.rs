//! File-system paths, held as text. The path rules themselves are those of
//! `std::path::Path`, which is called for them.

use vstd::prelude::*;

use crate::text::{after_last_slash, last_index_of, lacks, opt_text};

verus! {

/// What `Path::extension` gives for the path `p`.
pub uninterp spec fn path_extension_of(p: Seq<char>) -> Option<Seq<char>>;

/// What `Path::with_extension` gives for the path `p` and extension `ext`.
pub uninterp spec fn path_with_extension_of(p: Seq<char>, ext: Seq<char>) -> Seq<char>;

/// What `Path::join` gives for the path `base` and the path `name`.
pub uninterp spec fn path_join_of(base: Seq<char>, name: Seq<char>) -> Seq<char>;

/// Whether `f` is a bare file name: not empty, no `/`, and neither `.` nor
/// `..` (which name no file).
pub open spec fn bare_file_name(f: Seq<char>) -> bool {
    &&& f.len() > 0
    &&& lacks(f, '/')
    &&& !(f.len() == 1 && f[0] == '.')
    &&& !(f.len() == 2 && f[0] == '.' && f[1] == '.')
}

/// The file name of the path `p`: the text after its last `/`.
pub open spec fn file_name_text(p: Seq<char>) -> Seq<char> {
    after_last_slash(p)
}

/// The text of the path `p` before its file name (empty, or ending in `/`).
pub open spec fn dir_text(p: Seq<char>) -> Seq<char> {
    p.subrange(0, p.len() - after_last_slash(p).len())
}

/// The stem of a bare file name, as `Path::file_stem` documents it: the
/// whole name when it holds no `.` or its only `.` is the first character,
/// else the part before the last `.`.
pub open spec fn file_stem_of(f: Seq<char>) -> Seq<char> {
    match last_index_of(f, '.') {
        Some(k) => if k > 0 {
            f.subrange(0, k)
        } else {
            f
        },
        None => f,
    }
}

/// Calls `std::path::Path::extension` on `p`. Claimed: the result is
/// `path_extension_of(p)`, a function of the text of `p` alone. The
/// extension of a path given as UTF-8 text is UTF-8 text too, so the
/// conversion to `String` loses nothing.
#[verifier::external_body]
pub(crate) fn path_extension(p: &str) -> (r: Option<String>)
    ensures
        opt_text(r) == path_extension_of(p@),
{
    match std::path::Path::new(p).extension() {
        Some(e) => Some(e.to_string_lossy().into_owned()),
        None => None,
    }
}

/// Calls `std::path::Path::with_extension` on `p` and `ext`. It panics when
/// `ext` holds a path separator (`/` on Unix), so such an extension is not
/// admitted. Claimed: the result is `path_with_extension_of(p, ext)`, a
/// function of the two texts alone; both are UTF-8, so the resulting path is
/// too and the conversion to `String` loses nothing. Claimed too, from the
/// documentation of `PathBuf::set_extension` (an empty extension leaves the
/// path without one; only the extension changes) and of `Path::file_stem`
/// and `Path::extension`: with an empty `ext`, when the file name of `p` is
/// a bare file name, the result is `p` with its file name replaced by the
/// file name's stem.
#[verifier::external_body]
pub(crate) fn path_with_extension(p: &str, ext: &str) -> (r: String)
    requires
        forall|i: int| 0 <= i < ext@.len() ==> ext@[i] != '/',
    ensures
        r@ == path_with_extension_of(p@, ext@),
        ext@.len() == 0 && bare_file_name(file_name_text(p@)) ==> r@ == dir_text(p@)
            + file_stem_of(file_name_text(p@)),
{
    std::path::Path::new(p).with_extension(ext).to_string_lossy().into_owned()
}

/// Calls `std::path::Path::join` on `base` and `name`. Claimed: the result
/// is `path_join_of(base, name)`, a function of the two texts alone; both
/// are UTF-8, so the resulting path is too.
#[verifier::external_body]
pub(crate) fn path_join(base: &str, name: &str) -> (r: String)
    ensures
        r@ == path_join_of(base@, name@),
{
    std::path::Path::new(base).join(name).to_string_lossy().into_owned()
}

} // verus!
