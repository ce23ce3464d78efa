use vstd::prelude::*;

use datafusion::execution::object_store::ObjectStoreUrl;
use object_store::path::Path;
use url::Url;

use crate::text::{decimal, decimal_string};

verus! {

/// Why an object locator could not be built.
#[derive(Debug, Clone, Copy, PartialEq, Eq, Structural)]
pub enum LocatorError {
    /// The text is not a URL.
    InvalidUrl,
    /// The URL has no host.
    EmptyHost,
    /// The backend root is not a valid object-store URL.
    InvalidStoreUrl,
    /// The object path is not a valid object-store path.
    InvalidPath,
    /// The endpoint, the bucket or the file path is empty.
    MissingField,
}

/// The parts of a URL that a locator is built from.
#[derive(Debug, Clone, PartialEq, Eq)]
pub struct UrlParts {
    pub scheme: String,
    pub host: Option<String>,
    pub port: Option<u16>,
    pub path: String,
}

/// The plain value of the URL parts.
pub type UrlPartsView = (Seq<char>, Option<Seq<char>>, Option<u16>, Seq<char>);

impl View for UrlParts {
    type V = UrlPartsView;

    open spec fn view(&self) -> UrlPartsView {
        (
            self.scheme@,
            match self.host {
                Some(h) => Some(h@),
                None => None,
            },
            self.port,
            self.path@,
        )
    }
}

/// What the url crate parses `s` into: scheme, host, port and path.
pub uninterp spec fn url_parts_of(s: Seq<char>) -> Option<UrlPartsView>;

/// What datafusion makes of `s` as the root URL of an object store.
pub uninterp spec fn store_url_of(s: Seq<char>) -> Option<Seq<char>>;

/// An ASCII control character.
pub open spec fn is_ascii_control(c: char) -> bool {
    (c as u32) < 0x20 || (c as u32) == 0x7f
}

/// Whether a segment of `t` starts at position `i`.
pub open spec fn segment_starts(t: Seq<char>, i: int) -> bool {
    i == 0 || t[i - 1] == '/'
}

/// Whether a segment of `t` ends just before position `i`.
pub open spec fn segment_ends(t: Seq<char>, i: int) -> bool {
    i == t.len() || t[i] == '/'
}

/// Whether `t`, split at `/`, consists of non-empty segments none of which
/// is `.` or `..`, and holds no ASCII control character.
pub open spec fn valid_segments(t: Seq<char>) -> bool {
    &&& t.len() > 0
    &&& forall|i: int| 0 <= i < t.len() ==> !is_ascii_control(#[trigger] t[i])
    &&& forall|i: int|
        0 <= i < t.len() && #[trigger] t[i] == '/' ==> i > 0 && t[i - 1] != '/' && i + 1 < t.len()
    &&& forall|i: int|
        0 <= i < t.len() && #[trigger] t[i] == '.' && segment_starts(t, i) ==> !segment_ends(t, i + 1) && !(
        i + 1 < t.len() && t[i + 1] == '.' && segment_ends(t, i + 2))
}

/// `s` without one leading `/`.
pub open spec fn strip_leading_slash(s: Seq<char>) -> Seq<char> {
    if s.len() > 0 && s[0] == '/' {
        s.skip(1)
    } else {
        s
    }
}

/// What object_store makes of `s` as an object path: one leading `/` and
/// then one trailing `/` are stripped; an empty remainder is the root path;
/// otherwise the remainder must consist of valid segments.
pub open spec fn object_path_spec(s: Seq<char>) -> Option<Seq<char>> {
    let a = strip_leading_slash(s);
    if a.len() == 0 {
        Some(a)
    } else {
        let t = if a.last() == '/' {
            a.drop_last()
        } else {
            a
        };
        if valid_segments(t) {
            Some(t)
        } else {
            None
        }
    }
}

/// Relies on `url::Url::parse`, read back through `scheme`, `host_str`,
/// `port` and `path`; the result depends on the text alone.
#[verifier::external_body]
fn parse_url(s: &str) -> (r: Option<UrlParts>)
    ensures
        match r {
            Some(p) => url_parts_of(s@) == Some(p@),
            None => url_parts_of(s@) is None,
        },
{
    Url::parse(s).ok().map(|u| UrlParts {
        scheme: u.scheme().to_string(),
        host: u.host_str().map(|h| h.to_string()),
        port: u.port(),
        path: u.path().to_string(),
    })
}

/// Relies on datafusion's `ObjectStoreUrl::parse`: a URL holding only a scheme
/// and an authority, rendered with a `/` path.
#[verifier::external_body]
fn parse_store_url(s: &str) -> (r: Option<String>)
    ensures
        match r {
            Some(u) => store_url_of(s@) == Some(u@),
            None => store_url_of(s@) is None,
        },
{
    ObjectStoreUrl::parse(s).ok().map(|u| u.as_str().to_string())
}

/// Relies on object_store's `Path::parse` and `PathPart::parse`: the
/// stripped text of a path of valid segments.
#[verifier::external_body]
fn parse_object_path(s: &str) -> (r: Option<String>)
    ensures
        match r {
            Some(p) => object_path_spec(s@) == Some(p@),
            None => object_path_spec(s@) is None,
        },
{
    Path::parse(s).ok().map(|p| p.as_ref().to_string())
}

/// Where an object is stored.
#[derive(Debug, Clone, Copy, PartialEq, Eq, Structural)]
pub enum Backend {
    /// The in-memory store, for files handed over whole.
    Memory,
    /// An HTTP(S) server.
    Http,
    /// An S3 bucket.
    S3,
}

/// Whether `s` starts with `p`.
pub open spec fn has_prefix(s: Seq<char>, p: Seq<char>) -> bool {
    p.len() <= s.len() && s.take(p.len() as int) == p
}

/// `starts_with` on the characters of `s` and `p`.
pub fn starts_with(s: &str, p: &str) -> (r: bool)
    ensures
        r == has_prefix(s@, p@),
{
    let n = s.unicode_len();
    let m = p.unicode_len();
    if m > n {
        return false;
    }
    let mut i: usize = 0;
    while i < m
        invariant
            m <= n == s@.len(),
            m == p@.len(),
            i <= m,
            s@.take(i as int) == p.view().take(i as int),
        decreases m - i,
    {
        if s.get_char(i) != p.get_char(i) {
            assert(s@.take(m as int)[i as int] != p@[i as int]);
            return false;
        }
        assert(s@.take(i + 1) =~= s@.take(i as int).push(s@[i as int]));
        assert(p@.take(i + 1) =~= p@.take(i as int).push(p@[i as int]));
        i = i + 1;
    }
    assert(p@.take(m as int) =~= p@);
    true
}

/// The backend that a target names: `http://` and `https://` URLs are served
/// over HTTP, `s3://` targets from a bucket, anything else is a local file
/// loaded into memory.
pub open spec fn backend_spec(target: Seq<char>) -> Backend {
    if has_prefix(target, "http://"@) || has_prefix(target, "https://"@) {
        Backend::Http
    } else if has_prefix(target, "s3://"@) {
        Backend::S3
    } else {
        Backend::Memory
    }
}

/// Which backend a target names.
pub fn backend_of(target: &str) -> (r: Backend)
    ensures
        r == backend_spec(target@),
{
    if starts_with(target, "http://") || starts_with(target, "https://") {
        Backend::Http
    } else if starts_with(target, "s3://") {
        Backend::S3
    } else {
        Backend::Memory
    }
}

/// The position of the first `/` in `s`, if any.
pub open spec fn first_slash(s: Seq<char>) -> Option<int> {
    if exists|i: int| 0 <= i < s.len() && s[i] == '/' {
        Some(choose|i: int| 0 <= i < s.len() && s[i] == '/' && forall|j: int| 0 <= j < i ==> s[j] != '/')
    } else {
        None
    }
}

/// Splits `s3://bucket/path` into the bucket and the path within it; the
/// path is empty when there is no `/` after the bucket.
pub fn split_s3_target(target: &str) -> (r: (String, String))
    requires
        has_prefix(target@, "s3://"@),
    ensures
        ({
            let rest = target@.skip(5);
            match first_slash(rest) {
                Some(i) => r.0@ == rest.take(i) && r.1@ == rest.skip(i + 1),
                None => r.0@ == rest && r.1@ == Seq::<char>::empty(),
            }
        }),
{
    proof {
        reveal_strlit("s3://");
    }
    let n = target.unicode_len();
    let ghost rest = target@.skip(5);
    let mut i: usize = 5;
    while i < n && target.get_char(i) != '/'
        invariant
            5 <= i <= n == target@.len(),
            rest == target@.skip(5),
            forall|j: int| 5 <= j < i ==> target@[j] != '/',
        decreases n - i,
    {
        i = i + 1;
    }
    let bucket = String::from_str(target.substring_char(5, i));
    assert(bucket@ =~= rest.take(i - 5));
    if i < n {
        proof {
            assert(rest[i - 5] == '/');
            let k = choose|k: int| 0 <= k < rest.len() && rest[k] == '/' && forall|j: int| 0 <= j < k ==> rest[j] != '/';
            if k < i - 5 {
                assert(rest[k] == target@[k + 5]);
            }
            if k > i - 5 {
                assert(rest[i - 5] == target@[i as int]);
            }
            assert(k == i - 5);
        }
        let path = String::from_str(target.substring_char(i + 1, n));
        assert(path@ =~= rest.skip(i - 5 + 1));
        (bucket, path)
    } else {
        proof {
            assert(rest.take(i - 5) =~= rest);
            if exists|k: int| 0 <= k < rest.len() && rest[k] == '/' {
                let k = choose|k: int| 0 <= k < rest.len() && rest[k] == '/';
                assert(rest[k] == target@[k + 5]);
            }
        }
        (bucket, String::new())
    }
}

/// The text after the last `/` of `path` (all of it when there is none).
pub open spec fn last_segment(path: Seq<char>) -> Seq<char>
    decreases path.len(),
{
    if path.len() == 0 {
        Seq::empty()
    } else if path.last() == '/' {
        Seq::empty()
    } else {
        last_segment(path.drop_last()).push(path.last())
    }
}

/// `scheme://host` followed by `:port` when there is a port.
pub open spec fn endpoint_of(scheme: Seq<char>, host: Seq<char>, port: Option<u16>) -> Seq<char> {
    scheme + "://"@ + host + match port {
        Some(p) => ":"@ + decimal(p as nat),
        None => Seq::empty(),
    }
}

/// Identifies one Parquet object: the name it is registered under, its path
/// within its backend, and the URL of the backend's root.
#[derive(Debug, Clone, PartialEq, Eq)]
pub struct ParquetInfo {
    pub table_name: String,
    pub path: String,
    pub object_store_url: String,
}

impl ParquetInfo {
    /// The location under which the table is registered with the query
    /// engine: the backend root followed by the object path.
    pub fn table_path(&self) -> (r: String)
        ensures
            r@ == self.object_store_url@ + self.path@,
    {
        let s = self.object_store_url.clone();
        s.concat(self.path.as_str())
    }
}

/// The last segment of `path`.
pub fn file_name_of(path: &str) -> (r: String)
    ensures
        r@ == last_segment(path@),
{
    let n = path.unicode_len();
    let mut start: usize = n;
    assert(path@.take(n as int) =~= path@);
    assert(path@.subrange(n as int, n as int) =~= Seq::<char>::empty());
    assert(last_segment(path@) + Seq::<char>::empty() =~= last_segment(path@));
    while start > 0 && path.get_char(start - 1) != '/'
        invariant
            start <= n == path@.len(),
            last_segment(path@) == last_segment(path@.take(start as int)) + path@.subrange(start as int, n as int),
        decreases start,
    {
        proof {
            let t = path@.take(start as int);
            assert(t.drop_last() =~= path@.take(start - 1));
            assert(path@.subrange(start - 1, n as int) =~= seq![t.last()] + path@.subrange(start as int, n as int));
        }
        start = start - 1;
    }
    proof {
        let t = path@.take(start as int);
        if start > 0 {
            assert(t.last() == path@[start - 1]);
        }
        assert(last_segment(t) == Seq::<char>::empty());
        assert(path@.subrange(start as int, n as int) =~= last_segment(path@));
    }
    String::from_str(path.substring_char(start, n))
}

/// The network endpoint of a URL: scheme, host and port.
pub fn endpoint(scheme: &str, host: &str, port: Option<u16>) -> (r: String)
    ensures
        r@ == endpoint_of(scheme@, host@, port),
{
    let s = String::from_str(scheme).concat("://").concat(host);
    match port {
        Some(p) => {
            let digits = decimal_string(p as u64);
            s.concat(":").concat(digits.as_str())
        },
        None => {
            assert(s@ + Seq::<char>::empty() =~= s@);
            s
        },
    }
}

/// What `locator_from_url_parts` gives for the parts of a URL.
pub open spec fn url_locator_spec(parts: UrlPartsView) -> Result<(Seq<char>, Seq<char>, Seq<char>), LocatorError> {
    let (scheme, host, port, path) = parts;
    match host {
        None => Err(LocatorError::EmptyHost),
        Some(h) => match store_url_of(endpoint_of(scheme, h, port)) {
            None => Err(LocatorError::InvalidStoreUrl),
            Some(store_url) => match object_path_spec(path) {
                None => Err(LocatorError::InvalidPath),
                Some(p) => Ok((last_segment(path), p, store_url)),
            },
        },
    }
}

/// The plain value of a locator: table name, object path, backend root.
pub open spec fn info_view(info: ParquetInfo) -> (Seq<char>, Seq<char>, Seq<char>) {
    (info.table_name@, info.path@, info.object_store_url@)
}

/// Whether `r` is the result that `spec` describes.
pub open spec fn locator_matches(
    r: Result<ParquetInfo, LocatorError>,
    spec: Result<(Seq<char>, Seq<char>, Seq<char>), LocatorError>,
) -> bool {
    match spec {
        Ok(v) => r matches Ok(info) && info_view(info) == v,
        Err(e) => r == Err::<ParquetInfo, LocatorError>(e),
    }
}

/// Builds the locator of an HTTP(S) object from the parts of its URL: the
/// backend root is the endpoint, the table is named after the last path
/// segment.
pub fn locator_from_url_parts(parts: &UrlParts) -> (r: Result<ParquetInfo, LocatorError>)
    ensures
        locator_matches(r, url_locator_spec(parts@)),
{
    let host = match &parts.host {
        Some(h) => h,
        None => {
            return Err(LocatorError::EmptyHost);
        },
    };
    let ep = endpoint(parts.scheme.as_str(), host.as_str(), parts.port);
    let table_name = file_name_of(parts.path.as_str());
    let object_store_url = match parse_store_url(ep.as_str()) {
        Some(u) => u,
        None => {
            return Err(LocatorError::InvalidStoreUrl);
        },
    };
    let path = match parse_object_path(parts.path.as_str()) {
        Some(p) => p,
        None => {
            return Err(LocatorError::InvalidPath);
        },
    };
    Ok(ParquetInfo { table_name, path, object_store_url })
}

/// Builds the locator of the object at an `http(s)://host[:port]/path` URL.
pub fn read_from_url(url: &str) -> (r: Result<ParquetInfo, LocatorError>)
    ensures
        match url_parts_of(url@) {
            None => r == Err::<ParquetInfo, LocatorError>(LocatorError::InvalidUrl),
            Some(parts) => locator_matches(r, url_locator_spec(parts)),
        },
{
    match parse_url(url) {
        Some(parts) => locator_from_url_parts(&parts),
        None => Err(LocatorError::InvalidUrl),
    }
}

/// What `read_from_s3` gives.
pub open spec fn s3_locator_spec(endpoint: Seq<char>, bucket: Seq<char>, file_path: Seq<char>) -> Result<
    (Seq<char>, Seq<char>, Seq<char>),
    LocatorError,
> {
    if endpoint.len() == 0 || bucket.len() == 0 || file_path.len() == 0 {
        Err(LocatorError::MissingField)
    } else {
        match store_url_of("s3://"@ + bucket) {
            None => Err(LocatorError::InvalidStoreUrl),
            Some(store_url) => match object_path_spec(file_path) {
                None => Err(LocatorError::InvalidPath),
                Some(p) => Ok((last_segment(file_path), p, store_url)),
            },
        }
    }
}

/// Builds the locator of an object in an S3 bucket. The endpoint and the
/// credentials configure the backend; the endpoint, the bucket and the file
/// path must not be empty.
pub fn read_from_s3(endpoint: &str, bucket: &str, file_path: &str) -> (r: Result<ParquetInfo, LocatorError>)
    ensures
        locator_matches(r, s3_locator_spec(endpoint@, bucket@, file_path@)),
{
    if endpoint.unicode_len() == 0 || bucket.unicode_len() == 0 || file_path.unicode_len() == 0 {
        return Err(LocatorError::MissingField);
    }
    let table_name = file_name_of(file_path);
    let root = String::from_str("s3://").concat(bucket);
    let object_store_url = match parse_store_url(root.as_str()) {
        Some(u) => u,
        None => {
            return Err(LocatorError::InvalidStoreUrl);
        },
    };
    let path = match parse_object_path(file_path) {
        Some(p) => p,
        None => {
            return Err(LocatorError::InvalidPath);
        },
    };
    Ok(ParquetInfo { table_name, path, object_store_url })
}

/// What `read_from_memory` gives.
pub open spec fn memory_locator_spec(name: Seq<char>) -> Result<(Seq<char>, Seq<char>, Seq<char>), LocatorError> {
    match store_url_of("mem://"@) {
        None => Err(LocatorError::InvalidStoreUrl),
        Some(store_url) => match object_path_spec(name) {
            None => Err(LocatorError::InvalidPath),
            Some(p) => Ok((name, p, store_url)),
        },
    }
}

/// Builds the locator of a file held in the in-memory store under its name.
pub fn read_from_memory(name: &str) -> (r: Result<ParquetInfo, LocatorError>)
    ensures
        locator_matches(r, memory_locator_spec(name@)),
{
    let object_store_url = match parse_store_url("mem://") {
        Some(u) => u,
        None => {
            return Err(LocatorError::InvalidStoreUrl);
        },
    };
    let path = match parse_object_path(name) {
        Some(p) => p,
        None => {
            return Err(LocatorError::InvalidPath);
        },
    };
    Ok(ParquetInfo { table_name: String::from_str(name), path, object_store_url })
}

} // verus!
