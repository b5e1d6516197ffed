//! Naming and classifying snapshot archives.

use vstd::prelude::*;

use crate::paths::{
    bare_file_name, dir_text, file_name_text, file_stem_of, path_extension, path_extension_of,
    path_with_extension, path_with_extension_of,
};
use crate::text::{
    after_last_slash, lacks, last_index_of, lemma_after_last_slash_append,
    lemma_after_last_slash_split,
    lemma_last_index_of_append,
};

verus! {

/// Declares `std::io::Error` so that errors of the library can carry one.
#[verifier::external_type_specification]
#[verifier::external_body]
pub struct ExIoError(std::io::Error);

/// Why an archive could not be unpacked.
#[derive(Debug)]
pub enum FileDecompressionError {
    /// Reading or writing a file failed.
    Io(std::io::Error),
    /// The archive's extension names a compression that is not supported.
    UnsupportedArchiveType { extension: String },
    /// The archive's name has no extension.
    UnknownArchiveType,
}

/// The compressions that snapshot archives come in.
#[derive(Debug, Clone, Copy, PartialEq, Eq, Structural)]
pub enum ArchiveKind {
    /// `.bz2`
    Bzip2,
    /// `.zst`
    Zstd,
}

/// The path without its last two extensions, as `strip_tar_extension`
/// gives it.
pub open spec fn tar_stripped(path: Seq<char>) -> Seq<char> {
    path_with_extension_of(path_with_extension_of(path, ""@), ""@)
}

/// Strips a `.tar.bz2`, `.tar.zst` or any other double extension from the
/// file name of `path`: when the file name and its stem are bare file
/// names, the result is the path with its file name replaced by the stem of
/// its stem.
pub fn strip_tar_extension(path: String) -> (r: String)
    ensures
        r@ == tar_stripped(path@),
        bare_file_name(file_name_text(path@)) && bare_file_name(
            file_stem_of(file_name_text(path@)),
        ) ==> r@ == dir_text(path@) + file_stem_of(file_stem_of(file_name_text(path@))),
{
    proof {
        reveal_strlit("");
    }
    let once = path_with_extension(path.as_str(), "");
    proof {
        let f = file_name_text(path@);
        if bare_file_name(f) && bare_file_name(file_stem_of(f)) {
            lemma_dir_text_ends_with_slash(path@);
            lemma_after_last_slash_append(dir_text(path@), file_stem_of(f));
            assert((dir_text(path@) + file_stem_of(f)).subrange(0, dir_text(path@).len() as int)
                =~= dir_text(path@));
        }
    }
    path_with_extension(once.as_str(), "")
}

proof fn lemma_dir_text_ends_with_slash(p: Seq<char>)
    ensures
        dir_text(p).len() == 0 || dir_text(p).last() == '/',
        p == dir_text(p) + file_name_text(p),
{
    lemma_after_last_slash_split(p);
}

/// A path whose file name is `<base>.<e1>.<e2>` (no `.` in any of the three
/// parts, `base` not empty) is one that `strip_tar_extension` turns into the
/// same path with the file name `<base>`: e.g. `dir/snapshot-1-x.tar.zst`
/// becomes `dir/snapshot-1-x`.
pub proof fn lemma_double_extension_stripped(
    dir: Seq<char>,
    base: Seq<char>,
    e1: Seq<char>,
    e2: Seq<char>,
)
    requires
        dir.len() == 0 || dir.last() == '/',
        base.len() > 0,
        lacks(base, '/') && lacks(base, '.'),
        lacks(e1, '/') && lacks(e1, '.'),
        lacks(e2, '/') && lacks(e2, '.'),
    ensures
        ({
            let p = dir + base + seq!['.'] + e1 + seq!['.'] + e2;
            &&& bare_file_name(file_name_text(p))
            &&& bare_file_name(file_stem_of(file_name_text(p)))
            &&& dir_text(p) == dir
            &&& file_stem_of(file_stem_of(file_name_text(p))) == base
        }),
{
    let inner = base + seq!['.'] + e1;
    let f = inner + seq!['.'] + e2;
    let p = dir + base + seq!['.'] + e1 + seq!['.'] + e2;
    assert(p =~= dir + f);
    assert(lacks(f, '/')) by {
        assert forall|i: int| 0 <= i < f.len() implies f[i] != '/' by {
            if i < base.len() {
                assert(f[i] == base[i]);
            } else if i == base.len() || i == base.len() + 1 + e1.len() {
            } else if i < base.len() + 1 + e1.len() {
                assert(f[i] == e1[i - base.len() - 1]);
            } else {
                assert(f[i] == e2[i - base.len() - 2 - e1.len()]);
            }
        }
    }
    assert(lacks(inner, '/')) by {
        assert forall|i: int| 0 <= i < inner.len() implies inner[i] != '/' by {
            assert(inner[i] == f[i]);
        }
    }
    lemma_after_last_slash_append(dir, f);
    assert(p.subrange(0, p.len() - f.len()) =~= dir);
    lemma_last_index_of_append(inner, '.', e2);
    assert(f.subrange(0, inner.len() as int) =~= inner);
    lemma_last_index_of_append(base, '.', e1);
    assert(inner.subrange(0, base.len() as int) =~= base);
    assert(f[0] == base[0] && base[0] != '.');
    assert(inner[0] == base[0]);
}

/// What an archive's extension makes of it: `bz2` and `zst` are supported,
/// any other extension is refused, and so is a name without one.
pub open spec fn archive_kind_for(extension: Option<Seq<char>>) -> Result<ArchiveKind, Option<Seq<char>>> {
    match extension {
        Some(e) => if e == "bz2"@ {
            Ok(ArchiveKind::Bzip2)
        } else if e == "zst"@ {
            Ok(ArchiveKind::Zstd)
        } else {
            Err(Some(e))
        },
        None => Err(None),
    }
}

/// `.bz2` archives are bzip2, `.zst` archives zstd; any other extension
/// is refused and named in the error, and a name without an extension is
/// refused too.
pub proof fn lemma_archive_extensions(e: Seq<char>)
    ensures
        archive_kind_for(Some("bz2"@)) == Ok::<ArchiveKind, Option<Seq<char>>>(ArchiveKind::Bzip2),
        archive_kind_for(Some("zst"@)) == Ok::<ArchiveKind, Option<Seq<char>>>(ArchiveKind::Zstd),
        e != "bz2"@ && e != "zst"@ ==> archive_kind_for(Some(e)) == Err::<
            ArchiveKind,
            Option<Seq<char>>,
        >(Some(e)),
        archive_kind_for(None) == Err::<ArchiveKind, Option<Seq<char>>>(None),
{
    reveal_strlit("bz2");
    reveal_strlit("zst");
    assert("bz2"@[0] != "zst"@[0]);
}

/// Whether `r` is what `archive_kind_for` gives: the same kind, or the
/// error that names the same unsupported extension, or the unknown-type
/// error.
pub open spec fn archive_kind_matches(
    r: Result<ArchiveKind, FileDecompressionError>,
    expected: Result<ArchiveKind, Option<Seq<char>>>,
) -> bool {
    match expected {
        Ok(k) => r == Ok::<ArchiveKind, FileDecompressionError>(k),
        Err(Some(e)) => r matches Err(FileDecompressionError::UnsupportedArchiveType { extension })
            && extension@ == e,
        Err(None) => r matches Err(FileDecompressionError::UnknownArchiveType),
    }
}

/// The compression of an archive whose file name has the extension
/// `extension` (`None`: no extension).
pub fn archive_kind_from_extension(extension: Option<&str>) -> (r: Result<
    ArchiveKind,
    FileDecompressionError,
>)
    ensures
        archive_kind_matches(
            r,
            archive_kind_for(
                match extension {
                    Some(e) => Some(e@),
                    None => None,
                },
            ),
        ),
{
    match extension {
        Some(e) => {
            let given = e.to_owned();
            if given == "bz2".to_owned() {
                Ok(ArchiveKind::Bzip2)
            } else if given == "zst".to_owned() {
                Ok(ArchiveKind::Zstd)
            } else {
                Err(FileDecompressionError::UnsupportedArchiveType { extension: given })
            }
        },
        None => Err(FileDecompressionError::UnknownArchiveType),
    }
}

/// The compression of the archive at `input_path`, read from its extension.
pub fn archive_kind(input_path: &str) -> (r: Result<ArchiveKind, FileDecompressionError>)
    ensures
        archive_kind_matches(r, archive_kind_for(path_extension_of(input_path@))),
{
    let extension = path_extension(input_path);
    match extension {
        Some(e) => archive_kind_from_extension(Some(e.as_str())),
        None => archive_kind_from_extension(None),
    }
}


/// What `zstd::stream::decode_all` gives for the bytes `input`: the
/// decompressed bytes of its zstd frames, or `None` where it fails.
pub uninterp spec fn zstd_decoded(input: Seq<u8>) -> Option<Seq<u8>>;

/// What reading a `bzip2::read::BzDecoder` over the bytes `input` to its end
/// gives: the decompressed bytes of its (first) bzip2 stream, or `None`
/// where a read fails.
pub uninterp spec fn bzip2_decoded(input: Seq<u8>) -> Option<Seq<u8>>;

/// Calls `zstd::stream::decode_all` on `input`. Claimed: it succeeds exactly
/// when `zstd_decoded(input)` is a value, and then returns that value; the
/// result depends on the bytes alone.
#[verifier::external_body]
fn zstd_decode(input: &[u8]) -> (r: Result<Vec<u8>, std::io::Error>)
    ensures
        r is Ok <==> zstd_decoded(input@) is Some,
        r matches Ok(v) ==> zstd_decoded(input@) == Some(v@),
{
    zstd::stream::decode_all(input)
}

/// Reads a `bzip2::read::BzDecoder` over `input` to its end. Claimed: it
/// succeeds exactly when `bzip2_decoded(input)` is a value, and then returns
/// that value; the result depends on the bytes alone.
#[verifier::external_body]
fn bzip2_decode(input: &[u8]) -> (r: Result<Vec<u8>, std::io::Error>)
    ensures
        r is Ok <==> bzip2_decoded(input@) is Some,
        r matches Ok(v) ==> bzip2_decoded(input@) == Some(v@),
{
    let mut out = Vec::new();
    match std::io::Read::read_to_end(&mut bzip2::read::BzDecoder::new(input), &mut out) {
        Ok(_) => Ok(out),
        Err(e) => Err(e),
    }
}

/// The decompressed bytes of an archive of kind `kind` whose bytes are
/// `input`, or `None` when they do not decompress.
pub open spec fn decompressed(kind: ArchiveKind, input: Seq<u8>) -> Option<Seq<u8>> {
    match kind {
        ArchiveKind::Bzip2 => bzip2_decoded(input),
        ArchiveKind::Zstd => zstd_decoded(input),
    }
}

/// A `.zst` archive decompresses to all that `zstd::stream::decode_all`
/// gives for its bytes, and a `.bz2` archive to all that a
/// `bzip2::read::BzDecoder` reads from them: nothing is cut or added.
pub proof fn lemma_decompressed_is_decoder_output(input: Seq<u8>)
    ensures
        decompressed(ArchiveKind::Zstd, input) == zstd_decoded(input),
        decompressed(ArchiveKind::Bzip2, input) == bzip2_decoded(input),
{
}

/// Decompresses the bytes of an archive of kind `kind` (the tar archive
/// inside a `.tar.bz2` or `.tar.zst` snapshot). A failure to decompress is
/// the error `Io` with the decoder's error.
pub fn decompress(kind: ArchiveKind, input: &[u8]) -> (r: Result<Vec<u8>, FileDecompressionError>)
    ensures
        r is Ok <==> decompressed(kind, input@) is Some,
        r matches Ok(v) ==> decompressed(kind, input@) == Some(v@),
        r is Err ==> r matches Err(FileDecompressionError::Io(_)),
        kind == ArchiveKind::Zstd ==> (r is Ok <==> zstd_decoded(input@) is Some),
        kind == ArchiveKind::Zstd ==> (r matches Ok(v) ==> zstd_decoded(input@) == Some(v@)),
        kind == ArchiveKind::Bzip2 ==> (r is Ok <==> bzip2_decoded(input@) is Some),
        kind == ArchiveKind::Bzip2 ==> (r matches Ok(v) ==> bzip2_decoded(input@) == Some(v@)),
{
    let decoded = match kind {
        ArchiveKind::Bzip2 => bzip2_decode(input),
        ArchiveKind::Zstd => zstd_decode(input),
    };
    match decoded {
        Ok(v) => Ok(v),
        Err(e) => Err(FileDecompressionError::Io(e)),
    }
}

} // verus!
