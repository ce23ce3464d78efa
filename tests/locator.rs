use parquet_viewer::locator::{
    endpoint, file_name_of, locator_from_url_parts, read_from_memory, read_from_s3, read_from_url, LocatorError,
    ParquetInfo, UrlParts,
};

#[test]
fn url_locator_splits_endpoint_and_path() {
    let info = read_from_url("https://example.com:8080/data/gridwatch.parquet").unwrap();
    assert_eq!(info.table_name, "gridwatch.parquet");
    assert_eq!(info.object_store_url, "https://example.com:8080/");
    assert_eq!(info.path, "data/gridwatch.parquet");
    assert_eq!(info.table_path(), "https://example.com:8080/data/gridwatch.parquet");
}

#[test]
fn url_without_port() {
    let info = read_from_url("http://host.org/a/b/c.parquet").unwrap();
    assert_eq!(info.object_store_url, "http://host.org/");
    assert_eq!(info.table_name, "c.parquet");
    assert_eq!(info.path, "a/b/c.parquet");
}

#[test]
fn invalid_url_is_rejected() {
    assert_eq!(read_from_url("not a url"), Err(LocatorError::InvalidUrl));
}

#[test]
fn url_without_host_is_rejected() {
    assert_eq!(read_from_url("data:text/plain,hello"), Err(LocatorError::EmptyHost));
}

#[test]
fn url_parts_with_bad_path_are_rejected() {
    let parts = UrlParts {
        scheme: "https".to_string(),
        host: Some("h".to_string()),
        port: None,
        path: "/a//b.parquet".to_string(),
    };
    assert_eq!(locator_from_url_parts(&parts), Err(LocatorError::InvalidPath));
}

#[test]
fn url_parts_without_host_are_rejected() {
    let parts = UrlParts { scheme: "https".to_string(), host: None, port: None, path: "/x".to_string() };
    assert_eq!(locator_from_url_parts(&parts), Err(LocatorError::EmptyHost));
}

#[test]
fn endpoint_renders_port() {
    assert_eq!(endpoint("https", "h.io", Some(443)), "https://h.io:443");
    assert_eq!(endpoint("http", "h.io", None), "http://h.io");
}

#[test]
fn file_name_is_last_segment() {
    assert_eq!(file_name_of("a/b/c.parquet"), "c.parquet");
    assert_eq!(file_name_of("c.parquet"), "c.parquet");
    assert_eq!(file_name_of("a/b/"), "");
    assert_eq!(file_name_of(""), "");
}

#[test]
fn s3_locator() {
    let info = read_from_s3("https://s3.amazonaws.com", "bucket", "dir/data.parquet").unwrap();
    assert_eq!(
        info,
        ParquetInfo {
            table_name: "data.parquet".to_string(),
            path: "dir/data.parquet".to_string(),
            object_store_url: "s3://bucket/".to_string(),
        }
    );
    assert_eq!(info.table_path(), "s3://bucket/dir/data.parquet");
}

#[test]
fn s3_locator_needs_all_fields() {
    assert_eq!(read_from_s3("", "b", "f"), Err(LocatorError::MissingField));
    assert_eq!(read_from_s3("e", "", "f"), Err(LocatorError::MissingField));
    assert_eq!(read_from_s3("e", "b", ""), Err(LocatorError::MissingField));
}

#[test]
fn memory_locator() {
    let info = read_from_memory("upload.parquet").unwrap();
    assert_eq!(info.table_name, "upload.parquet");
    assert_eq!(info.path, "upload.parquet");
    assert_eq!(info.object_store_url, "mem:///");
    assert_eq!(info.table_path(), "mem:///upload.parquet");
}

use parquet_viewer::locator::{backend_of, split_s3_target, starts_with, Backend};

#[test]
fn backends_by_prefix() {
    assert_eq!(backend_of("https://h/x.parquet"), Backend::Http);
    assert_eq!(backend_of("http://h/x.parquet"), Backend::Http);
    assert_eq!(backend_of("s3://bucket/x.parquet"), Backend::S3);
    assert_eq!(backend_of("data/x.parquet"), Backend::Memory);
    assert_eq!(backend_of("httpx://h"), Backend::Memory);
}

#[test]
fn prefix_test() {
    assert!(starts_with("abc", "ab"));
    assert!(starts_with("abc", ""));
    assert!(!starts_with("ab", "abc"));
    assert!(!starts_with("abc", "b"));
}

#[test]
fn s3_target_split() {
    assert_eq!(split_s3_target("s3://bucket/dir/f.parquet"), ("bucket".to_string(), "dir/f.parquet".to_string()));
    assert_eq!(split_s3_target("s3://bucket"), ("bucket".to_string(), "".to_string()));
    assert_eq!(split_s3_target("s3://b/"), ("b".to_string(), "".to_string()));
}

#[test]
fn object_paths_are_normalised_or_rejected() {
    assert_eq!(read_from_memory("/a/b/").unwrap().path, "a/b");
    assert_eq!(read_from_memory("/").unwrap().path, "");
    assert_eq!(read_from_memory(".hidden/..x").unwrap().path, ".hidden/..x");
    assert_eq!(read_from_memory("a/./b"), Err(LocatorError::InvalidPath));
    assert_eq!(read_from_memory("a/../b"), Err(LocatorError::InvalidPath));
    assert_eq!(read_from_memory(".."), Err(LocatorError::InvalidPath));
    assert_eq!(read_from_memory("//a"), Err(LocatorError::InvalidPath));
    assert_eq!(read_from_memory("a\u{7}b"), Err(LocatorError::InvalidPath));
}
