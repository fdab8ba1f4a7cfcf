use remote_archive::{
    check_range, parse_content_range_total, range_header, ArchiveError, Fetch, RemoteFile,
    SeekFrom, SupportedTypes,
};

fn opened(size: u64) -> RemoteFile {
    let header = format!("bytes 0-0/{size}");
    RemoteFile::try_new(
        "http://example.com/a.zip".to_string(),
        206,
        Some(header.as_bytes()),
        Some("application/zip"),
    )
    .unwrap()
}

#[test]
fn server_answering_200_is_range_unsupported() {
    assert_eq!(check_range(200, Some(b"bytes 0-0/100")), Err(ArchiveError::RangeUnsupported));
    assert!(matches!(
        RemoteFile::try_new("http://h/x".to_string(), 200, None, None),
        Err(ArchiveError::RangeUnsupported)
    ));
}

#[test]
fn probe_reads_total_size() {
    assert_eq!(check_range(206, Some(b"bytes 0-0/1500000")), Ok(1_500_000));
    assert_eq!(check_range(206, None), Err(ArchiveError::RangeUnsupported));
    assert_eq!(check_range(206, Some(b"bytes 0-0")), Err(ArchiveError::Protocol));
    assert_eq!(check_range(206, Some(b"bytes 0-0/*")), Err(ArchiveError::Protocol));
    assert_eq!(check_range(206, Some(b"/5")), Err(ArchiveError::Protocol));
    assert_eq!(check_range(206, Some(b"bytes 0-0/0")), Err(ArchiveError::Protocol));
    let f = opened(1234);
    assert_eq!(f.size(), 1234);
    assert_eq!(f.position(), 0);
    assert_eq!(f.url(), "http://example.com/a.zip");
    assert_eq!(RemoteFile::probe_fetch(), Fetch { start: 0, len: 1 });
}

#[test]
fn content_range_total_parsing() {
    assert_eq!(parse_content_range_total(b"bytes 0-0/18446744073709551615"), Some(u64::MAX));
    assert_eq!(parse_content_range_total(b"bytes 0-0/18446744073709551616"), None);
    assert_eq!(parse_content_range_total(b"bytes 0-0/"), None);
    assert_eq!(parse_content_range_total(b"bytes 0-0/12a"), None);
    assert_eq!(parse_content_range_total(b"/7"), None);
    assert_eq!(parse_content_range_total(b"bytes 0-0/7"), Some(7));
    assert_eq!(parse_content_range_total(b"bytes 10-19/1000"), Some(1000));
    assert_eq!(parse_content_range_total(b"bytes 5-2/10"), None);
    assert_eq!(parse_content_range_total(b"bytes 0-0/0"), None);
    assert_eq!(parse_content_range_total(b"bytes 0-0/10 "), None);
    assert_eq!(parse_content_range_total(b"bytes -0/10"), None);
    assert_eq!(parse_content_range_total(b"octets 0-0/10"), None);
    assert_eq!(parse_content_range_total(b"bytes 0-18446744073709551616/10"), None);
}

#[test]
fn range_header_is_inclusive() {
    assert_eq!(range_header(Fetch { start: 0, len: 1 }), "bytes=0-0");
    assert_eq!(range_header(Fetch { start: 100, len: 50 }), "bytes=100-149");
    assert_eq!(range_header(Fetch { start: 999_500, len: 1500 }), "bytes=999500-1000999");
}

#[test]
fn seek_follows_posix() {
    let mut f = opened(100);
    assert_eq!(f.seek(SeekFrom::End(-10)), Ok(90));
    assert_eq!(f.seek(SeekFrom::Current(5)), Ok(95));
    assert_eq!(f.seek(SeekFrom::Start(250)), Ok(250));
    assert_eq!(f.read_fetch(10).len, 0);
    assert_eq!(f.seek(SeekFrom::Current(-300)), Err(ArchiveError::InvalidSeek));
    assert_eq!(f.position(), 250);
    assert_eq!(f.seek(SeekFrom::End(-101)), Err(ArchiveError::InvalidSeek));
}

#[test]
fn reads_stop_at_end_and_short_reads_continue() {
    let mut f = opened(100);
    f.seek(SeekFrom::Start(90)).unwrap();
    assert_eq!(f.read_fetch(50), Fetch { start: 90, len: 10 });
    f.advance(4);
    assert_eq!(f.position(), 94);
    assert_eq!(f.read_fetch(46), Fetch { start: 94, len: 6 });
    f.seek(SeekFrom::Start(0)).unwrap();
    assert_eq!(f.read_fetch(30), Fetch { start: 0, len: 30 });
}

#[test]
fn content_types() {
    assert_eq!(SupportedTypes::from_content_type("application/zip"), SupportedTypes::Zip);
    assert_eq!(SupportedTypes::from_content_type("application/zap"), SupportedTypes::Unsupported);
    assert_eq!(SupportedTypes::from_content_type("text/html"), SupportedTypes::Unsupported);
}

#[test]
fn error_messages() {
    assert_eq!(ArchiveError::Truncated.message(), "the archive is truncated");
    assert_eq!(ArchiveError::NotAZip.message(), "not a ZIP archive");
}

#[test]
fn probe_records_content_type() {
    assert_eq!(opened(10).content_type(), SupportedTypes::Zip);
    let f = RemoteFile::try_new("u".to_string(), 206, Some(b"bytes 0-0/10"), Some("text/html")).unwrap();
    assert_eq!(f.content_type(), SupportedTypes::Unsupported);
    let f = RemoteFile::try_new("u".to_string(), 206, Some(b"bytes 0-0/10"), None).unwrap();
    assert_eq!(f.content_type(), SupportedTypes::Unsupported);
}
