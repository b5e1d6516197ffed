//! The decisions of a file download: whether the reply is a success, where
//! the file goes, the temporary name it is written under, and how far the
//! transfer got.

use vstd::prelude::*;

use crate::paths::{path_extension, path_extension_of, path_join, path_join_of};
use crate::text::{
    after_first, after_last_slash, lemma_after_first_append, lemma_after_first_shorter, lemma_take_until_append,
    is_blank, lacks, lemma_after_last_slash_split, lemma_trim_unchanged, opt_text,
    same_ignoring_case, starts_with_at_ignoring_case, starts_with_ignoring_case, take_until, to_chars, trim,
    trim_bounds,
};

verus! {

/// Declares `reqwest::Error` so that download errors can carry one.
#[verifier::external_type_specification]
#[verifier::external_body]
pub struct ExReqwestError(reqwest::Error);

/// Why a download failed.
#[derive(Debug)]
pub enum FileDownloadError {
    /// The server answered with a status code outside 200-299.
    RequestFailed { status_code: u16 },
    /// The HTTP request or the transfer failed.
    Reqwest(reqwest::Error),
    /// Writing the file failed.
    Io(std::io::Error),
}

/// What `reqwest::Url::parse(url)` followed by `Url::path` gives: the
/// percent-encoded path of the URL, or `None` when `url` is no URL.
pub uninterp spec fn url_path_of(url: Seq<char>) -> Option<Seq<char>>;

/// Parses `url` with `reqwest::Url::parse` (the `url` crate) and returns
/// `Url::path` of it, or `None` when parsing fails. Claimed: the result is
/// `url_path_of(url)`, a function of the text alone.
#[verifier::external_body]
fn url_path(url: &str) -> (r: Option<String>)
    ensures
        opt_text(r) == url_path_of(url@),
{
    match reqwest::Url::parse(url) {
        Ok(u) => Some(u.path().to_owned()),
        Err(_) => None,
    }
}

/// Calls `reqwest::StatusCode::from_u16(code)` and `StatusCode::is_success`.
/// Claimed, as the `http` crate documents and implements them: a code from
/// 100 to 999 is a valid status, and it is a success when it lies in 200-299.
#[verifier::external_body]
fn status_is_success(code: u16) -> (r: bool)
    requires
        100 <= code <= 999,
    ensures
        r == (200 <= code < 300),
{
    match reqwest::StatusCode::from_u16(code) {
        Ok(status) => status.is_success(),
        Err(_) => false,
    }
}

/// The last segment of a URL path, as `Url::path_segments` followed by
/// `last` gives it: the text after the last `/`. There are segments only
/// when the path starts with `/`.
pub open spec fn last_segment(path: Seq<char>) -> Option<Seq<char>> {
    if path.len() > 0 && path[0] == '/' {
        Some(after_last_slash(path))
    } else {
        None
    }
}

/// The last segment of the URL path `path`: the text after its last `/`;
/// `None` when the path does not start with `/` (a URL that cannot be a
/// base has no segments).
pub fn last_path_segment(path: &str) -> (r: Option<String>)
    ensures
        opt_text(r) == last_segment(path@),
{
    let n = path.unicode_len();
    if n == 0 || path.get_char(0) != '/' {
        return None;
    }
    let mut k: usize = n;
    assert(path@.subrange(0, n as int) =~= path@);
    assert(path@.subrange(n as int, n as int) =~= Seq::<char>::empty());
    assert(after_last_slash(path@) =~= after_last_slash(path@.subrange(0, n as int)) + path@.subrange(n as int, n as int));
    while k > 0 && path.get_char(k - 1) != '/'
        invariant
            k <= n,
            n == path@.len(),
            after_last_slash(path@) == after_last_slash(path@.subrange(0, k as int)) + path@.subrange(
                k as int,
                n as int,
            ),
        decreases k,
    {
        let ghost pre = path@.subrange(0, k as int);
        assert(pre.drop_last() =~= path@.subrange(0, k - 1));
        assert(pre.last() == path@[k - 1]);
        assert(after_last_slash(pre) == after_last_slash(path@.subrange(0, k - 1)).push(path@[k - 1]));
        assert(after_last_slash(path@.subrange(0, k - 1)).push(path@[k - 1]) + path@.subrange(k as int, n as int)
            =~= after_last_slash(path@.subrange(0, k - 1)) + path@.subrange(k - 1, n as int));
        k = k - 1;
    }
    let ghost pre = path@.subrange(0, k as int);
    if k == 0 {
        assert(pre.len() == 0);
    } else {
        assert(pre.last() == path@[k - 1]);
    }
    assert(after_last_slash(pre) =~= Seq::<char>::empty());
    assert(after_last_slash(path@) =~= path@.subrange(k as int, n as int));
    let segment = path.substring_char(k, n);
    Some(segment.to_owned())
}

/// The last segment of a path that starts with `/` is a text without `/`
/// that ends the path right after a `/`; a path that does not start with
/// `/` has none.
pub proof fn lemma_last_segment_is_suffix(path: Seq<char>)
    ensures
        (path.len() > 0 && path[0] == '/') <==> last_segment(path) is Some,
        last_segment(path) matches Some(x) ==> {
            &&& lacks(x, '/')
            &&& x.len() < path.len()
            &&& path == path.subrange(0, path.len() - x.len()) + x
            &&& path[path.len() - x.len() - 1] == '/'
        },
{
    lemma_after_last_slash_split(path);
    if path.len() > 0 && path[0] == '/' {
        let x = after_last_slash(path);
        if x.len() == path.len() {
            assert(path == path.subrange(0, 0) + x);
            assert(x =~= path);
            assert(x[0] == '/');
        }
    }
}

/// The name of the file that `url` points to: the last segment of its
/// path; `None` when `url` is no URL or has no path segments.
pub open spec fn url_file_name(url: Seq<char>) -> Option<Seq<char>> {
    match url_path_of(url) {
        Some(path) => last_segment(path),
        None => None,
    }
}

/// The name of the file that `url` points to: the last segment of its path.
/// `None` when `url` is no URL or cannot be a base (then it has no segments).
pub fn get_filename_from_url(url: &str) -> (r: Option<String>)
    ensures
        opt_text(r) == url_file_name(url@),
{
    match url_path(url) {
        Some(path) => last_path_segment(path.as_str()),
        None => None,
    }
}

/// The value of a `filename=` parameter of a Content-Disposition header
/// (the part between two `;`), if the part is one: the parameter name is
/// read without regard to the case of ASCII letters, spaces and tabs around
/// the part are dropped, and so are the double quotes around a quoted value
/// (escapes inside it are kept as they are). `filename*=` is not read.
pub open spec fn filename_param(part: Seq<char>) -> Option<Seq<char>> {
    let t = trim(part);
    if starts_with_ignoring_case(t, "filename="@) {
        Some(unquote(t.skip("filename="@.len() as int)))
    } else {
        None
    }
}

/// `v` without the double quotes around it, if it is quoted.
pub open spec fn unquote(v: Seq<char>) -> Seq<char> {
    if v.len() >= 2 && v[0] == '"' && v.last() == '"' {
        v.subrange(1, v.len() - 1)
    } else {
        v
    }
}

/// The first `filename=` value among the `;`-separated parameters `rest`.
pub open spec fn first_filename_param(rest: Seq<char>) -> Option<Seq<char>>
    decreases rest.len(),
{
    match filename_param(take_until(rest, ';')) {
        Some(v) => Some(v),
        None => match after_first(rest, ';') {
            Some(next) => {
                proof {
                    lemma_after_first_shorter(rest, ';');
                }
                first_filename_param(next)
            },
            None => None,
        },
    }
}

/// The file name that a Content-Disposition header value gives: the first
/// `filename=` parameter after the disposition type (`attachment; filename=x`).
pub open spec fn disposition_filename(header: Seq<char>) -> Option<Seq<char>> {
    match after_first(header, ';') {
        Some(params) => first_filename_param(params),
        None => None,
    }
}

/// A header `<type>;filename=<value>`, where the disposition type holds no
/// `;`, and the value holds no `;`, neither starts nor ends with a space
/// or a tab and does not start with a double quote, names the file
/// `<value>`.
pub proof fn lemma_plain_disposition_filename(kind: Seq<char>, value: Seq<char>)
    requires
        lacks(kind, ';'),
        lacks(value, ';'),
        value.len() > 0 ==> !is_blank(value[0]) && !is_blank(value.last()) && value[0] != '"',
    ensures
        disposition_filename(kind + ";filename="@ + value) == Some(value),
{
    reveal_strlit(";filename=");
    reveal_strlit("filename=");
    let key = "filename="@;
    let rest = key + value;
    let h = kind + ";filename="@ + value;
    assert(h =~= kind + (seq![';'] + rest));
    lemma_after_first_append(kind, seq![';'] + rest, ';');
    assert((seq![';'] + rest).drop_first() =~= rest);
    assert(after_first(h, ';') == Some(rest));
    assert(lacks(rest, ';')) by {
        assert forall|i: int| 0 <= i < rest.len() implies rest[i] != ';' by {
            if i >= key.len() {
                assert(rest[i] == value[i - key.len()]);
            }
        }
    }
    assert(rest + Seq::<char>::empty() =~= rest);
    lemma_take_until_append(rest, Seq::<char>::empty(), ';');
    assert(take_until(rest, ';') == rest);
    lemma_trim_unchanged(rest);
    assert(trim(rest) == rest);
    assert forall|i: int| 0 <= i < key.len() implies #[trigger] same_ignoring_case(rest[i], key[i]) by {
        assert(rest[i] == key[i]);
    }
    assert(rest.skip(key.len() as int) =~= value);
    if value.len() >= 2 && value[0] == '"' {
    }
    assert(filename_param(rest) == Some(value));
    assert(first_filename_param(rest) == Some(value));
}

/// The file name that the Content-Disposition header value `header` gives:
/// the value of its first `filename=` parameter after the disposition type.
pub fn content_disposition_filename(header: &str) -> (r: Option<String>)
    ensures
        opt_text(r) == disposition_filename(header@),
{
    let chars = to_chars(header);
    let n = chars.len();
    let key = to_chars("filename=");
    proof {
        reveal_strlit("filename=");
    }
    let mut p: usize = 0;
    assert(chars@.skip(0) =~= chars@);
    while p < n && chars[p] != ';'
        invariant
            chars@ == header@,
            n == chars@.len(),
            p <= n,
            after_first(chars@, ';') == after_first(chars@.skip(p as int), ';'),
        decreases n - p,
    {
        assert(chars@.skip(p as int).drop_first() =~= chars@.skip(p + 1));
        p = p + 1;
    }
    if p == n {
        assert(chars@.skip(p as int).len() == 0);
        return None;
    }
    assert(chars@.skip(p as int).drop_first() =~= chars@.skip(p + 1));
    p = p + 1;
    loop
        invariant
            chars@ == header@,
            n == chars@.len(),
            key@ == "filename="@,
            p <= n,
            disposition_filename(header@) == first_filename_param(chars@.skip(p as int)),
        decreases n - p,
    {
        let mut q: usize = p;
        while q < n && chars[q] != ';'
            invariant
                n == chars@.len(),
                p <= q <= n,
                forall|k: int| p <= k < q ==> chars@[k] != ';',
            decreases n - q,
        {
            q = q + 1;
        }
        let ghost part = chars@.subrange(p as int, q as int);
        let ghost tail = chars@.skip(q as int);
        proof {
            assert(chars@.skip(p as int) =~= part + tail);
            assert forall|k: int| 0 <= k < part.len() implies part[k] != ';' by {
                assert(part[k] == chars@[p + k]);
            }
            if q < n {
                assert(tail[0] == chars@[q as int]);
            }
            lemma_take_until_append(part, tail, ';');
            lemma_after_first_append(part, tail, ';');
        }
        let (a, b) = trim_bounds(&chars, p, q);
        if starts_with_at_ignoring_case(&chars, a, b, &key) {
            let ghost t = chars@.subrange(a as int, b as int);
            let mut va = a + key.len();
            let mut vb = b;
            assert(t.skip(key@.len() as int) =~= chars@.subrange(va as int, vb as int));
            if vb - va >= 2 && chars[va] == '"' && chars[vb - 1] == '"' {
                assert(chars@.subrange(va + 1, vb - 1) =~= chars@.subrange(va as int, vb as int).subrange(1, vb - va - 1));
                va = va + 1;
                vb = vb - 1;
            }
            let value = header.substring_char(va, vb);
            return Some(value.to_owned());
        }
        if q == n {
            assert(tail.len() == 0);
            return None;
        }
        assert(tail[0] == ';');
        assert(tail.drop_first() =~= chars@.skip(q + 1));
        p = q + 1;
    }
}

/// Whether a file name taken from a Content-Disposition header can name
/// the downloaded file: it is not empty, holds no `/` and is neither `.`
/// nor `..`, so it names a file inside the output directory.
pub open spec fn usable_file_name(f: Seq<char>) -> bool {
    &&& f.len() > 0
    &&& forall|i: int| 0 <= i < f.len() ==> f[i] != '/'
    &&& !(f.len() == 1 && f[0] == '.')
    &&& !(f.len() == 2 && f[0] == '.' && f[1] == '.')
}

/// The name the downloaded file gets: the Content-Disposition file name
/// when there is a usable one, else the last segment of the final URL.
pub open spec fn chosen_file_name(
    disposition_name: Option<Seq<char>>,
    url_name: Option<Seq<char>>,
) -> Option<Seq<char>> {
    match disposition_name {
        Some(f) => if usable_file_name(f) {
            Some(f)
        } else {
            url_name
        },
        None => url_name,
    }
}

/// Where a download is saved: at `output_path` itself when it names the
/// file, else inside it under the chosen file name.
pub open spec fn file_path_for(
    output_path: Seq<char>,
    output_names_file: bool,
    disposition_name: Option<Seq<char>>,
    url_name: Option<Seq<char>>,
) -> Option<Seq<char>> {
    if output_names_file {
        Some(output_path)
    } else {
        match chosen_file_name(disposition_name, url_name) {
            Some(name) => Some(path_join_of(output_path, name)),
            None => None,
        }
    }
}

/// The text of an optional text slice.
pub open spec fn opt_str_text(o: Option<&str>) -> Option<Seq<char>> {
    match o {
        Some(s) => Some(s@),
        None => None,
    }
}

/// The file name that an optional Content-Disposition header gives.
pub open spec fn header_file_name(content_disposition: Option<&str>) -> Option<Seq<char>> {
    match content_disposition {
        Some(h) => disposition_filename(h@),
        None => None,
    }
}

/// Where a download is saved, given whether `output_path` names the file
/// itself (`output_names_file`), the file name from the Content-Disposition
/// header and the last segment of the final URL:
/// - `output_path` itself when it names the file;
/// - else `<output_path>/<Content-Disposition file name>` when that name is
///   usable (not empty, no `/`, neither `.` nor `..`);
/// - else `<output_path>/<last URL segment>`;
/// - `None` when there is neither name.
pub fn choose_output_file_path(
    output_path: &str,
    output_names_file: bool,
    disposition_name: Option<&str>,
    url_name: Option<&str>,
) -> (r: Option<String>)
    ensures
        opt_text(r) == file_path_for(
            output_path@,
            output_names_file,
            opt_str_text(disposition_name),
            opt_str_text(url_name),
        ),
{
    if output_names_file {
        return Some(output_path.to_owned());
    }
    let mut name: Option<&str> = url_name;
    match disposition_name {
        Some(f) => {
            let fc = to_chars(f);
            let mut usable = fc.len() > 0;
            let mut i: usize = 0;
            while i < fc.len()
                invariant
                    fc@ == f@,
                    i <= fc.len(),
                    usable == (f@.len() > 0 && forall|k: int| 0 <= k < i ==> f@[k] != '/'),
                decreases fc.len() - i,
            {
                if fc[i] == '/' {
                    usable = false;
                }
                i = i + 1;
            }
            let dots = (fc.len() == 1 && fc[0] == '.') || (fc.len() == 2 && fc[0] == '.' && fc[1]
                == '.');
            if usable && !dots {
                name = Some(f);
            }
        },
        None => {},
    }
    match name {
        Some(n) => Some(path_join(output_path, n)),
        None => None,
    }
}

/// Computes the output file path for a download, given the
/// Content-Disposition header of the response (if any) and its final URL
/// (after redirects):
/// - if `output_path` has an extension, it is the output file;
/// - if the response carries a Content-Disposition file name that is usable
///   (not empty, no `/`, neither `.` nor `..`), the file is
///   `<output_path>/<filename>`;
/// - otherwise it is `<output_path>/<last segment of the URL>`.
/// `None` when neither gives a name.
pub fn compute_output_file_path(
    output_path: &str,
    content_disposition: Option<&str>,
    response_url: &str,
) -> (r: Option<String>)
    ensures
        opt_text(r) == file_path_for(
            output_path@,
            path_extension_of(output_path@) is Some,
            header_file_name(content_disposition),
            url_file_name(response_url@),
        ),
{
    let names_file = path_extension(output_path).is_some();
    output_file_path_in(output_path, names_file, content_disposition, response_url)
}

/// The path inside the directory `output_dir` where a downloaded snapshot
/// is saved, whatever `output_dir` looks like: `<output_dir>/<filename>`,
/// with the file name from the Content-Disposition header when it gives a
/// usable one, else from the last segment of the final URL.
pub fn snapshot_file_path(
    output_dir: &str,
    content_disposition: Option<&str>,
    response_url: &str,
) -> (r: Option<String>)
    ensures
        opt_text(r) == file_path_for(
            output_dir@,
            false,
            header_file_name(content_disposition),
            url_file_name(response_url@),
        ),
{
    output_file_path_in(output_dir, false, content_disposition, response_url)
}

fn output_file_path_in(
    output_path: &str,
    names_file: bool,
    content_disposition: Option<&str>,
    response_url: &str,
) -> (r: Option<String>)
    ensures
        opt_text(r) == file_path_for(
            output_path@,
            names_file,
            header_file_name(content_disposition),
            url_file_name(response_url@),
        ),
{
    let from_header = match content_disposition {
        Some(h) => content_disposition_filename(h),
        None => None,
    };
    let from_url = get_filename_from_url(response_url);
    let header_name: Option<&str> = match &from_header {
        Some(f) => Some(f.as_str()),
        None => None,
    };
    let url_name: Option<&str> = match &from_url {
        Some(u) => Some(u.as_str()),
        None => None,
    };
    choose_output_file_path(output_path, names_file, header_name, url_name)
}

/// Whether the server's answer `status_code` lets the download go on: codes
/// 200-299 do, any other is the error `RequestFailed` with that code.
pub fn check_response_status(status_code: u16) -> (r: Result<(), FileDownloadError>)
    requires
        100 <= status_code <= 999,
    ensures
        r is Ok <==> 200 <= status_code < 300,
        r is Err ==> (r matches Err(FileDownloadError::RequestFailed { status_code: c }) && c
            == status_code),
{
    if status_is_success(status_code) {
        Ok(())
    } else {
        Err(FileDownloadError::RequestFailed { status_code })
    }
}

/// The suffix of the name a download is written under until it is complete.
pub open spec fn download_suffix() -> Seq<char> {
    ".download"@
}

/// A download is written under its final name with `.download` appended.
pub proof fn lemma_download_suffix()
    ensures
        download_suffix() == ".download"@,
{
}

/// The temporary name a download to `output_file_path` is written under
/// before it is renamed: the same path with `.download` appended.
pub fn download_temp_path(output_file_path: &str) -> (r: String)
    ensures
        r@ == output_file_path@ + download_suffix(),
{
    let mut r = output_file_path.to_owned();
    r.append(".download");
    r
}

/// How many bytes a transfer has moved so far: the position of its
/// progress bar.
#[derive(Debug, Clone, Copy, PartialEq, Eq)]
pub struct TransferProgress {
    pub position: u64,
}

impl TransferProgress {
    /// A transfer that has not moved anything yet.
    pub fn new() -> (r: Self)
        ensures
            r.position == 0,
    {
        TransferProgress { position: 0 }
    }

    /// Records a read of `bytes_read` bytes. A read of zero bytes is the end
    /// of the input and returns `true`; otherwise the chunk is to be written
    /// and the position moves on by its size.
    pub fn record(&mut self, bytes_read: usize) -> (finished: bool)
        requires
            old(self).position + bytes_read <= u64::MAX,
        ensures
            finished == (bytes_read == 0),
            final(self).position == old(self).position + bytes_read,
    {
        self.position = self.position + bytes_read as u64;
        bytes_read == 0
    }
}

} // verus!
