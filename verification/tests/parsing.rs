//! Tests of the pure parsers: link extraction, URL-list scanning and
//! content-disposition filename derivation.

use fastdl::disposition::filename_from_disposition;
use fastdl::errors::DownloadError;
use fastdl::extract::extract_direct_link;
use fastdl::urllist::find_urls;

#[test]
fn extract_scenario_direct_link() {
    let body = br#"<script>window.open("https://fuckingfast.co/dl/abc123")</script>"#;
    let url = extract_direct_link(body).unwrap();
    assert_eq!(url, b"https://fuckingfast.co/dl/abc123".to_vec());
}

#[test]
fn extract_without_marker_fails() {
    let body = br#"window.open("https://example.com/x")"#;
    assert_eq!(extract_direct_link(body), Err(DownloadError::NoLinkFound));
}

#[test]
fn extract_empty_body_fails() {
    assert_eq!(extract_direct_link(b""), Err(DownloadError::NoLinkFound));
}

#[test]
fn extract_takes_first_in_document_order() {
    let body = br#"window.open("https://fuckingfast.co/dl/first") window.open("https://fuckingfast.co/dl/second")"#;
    let url = extract_direct_link(body).unwrap();
    assert_eq!(url, b"https://fuckingfast.co/dl/first".to_vec());
}

#[test]
fn extract_skips_openers_without_marker() {
    let body = br#"window.open("https://ads.example/banner") window.open("https://fuckingfast.co/dl/real")"#;
    let url = extract_direct_link(body).unwrap();
    assert_eq!(url, b"https://fuckingfast.co/dl/real".to_vec());
}

#[test]
fn extract_unterminated_quote_fails() {
    let body = br#"window.open("https://fuckingfast.co/dl/abc"#;
    assert_eq!(extract_direct_link(body), Err(DownloadError::NoLinkFound));
}

#[test]
fn urllist_scenario_strips_surrounding_quotes() {
    let content = br#"see https://example.com/a and "https://example.com/b""#;
    let urls = find_urls(content);
    assert_eq!(
        urls,
        vec![b"https://example.com/a".to_vec(), b"https://example.com/b".to_vec()]
    );
}

#[test]
fn urllist_finds_urls_inline_anywhere() {
    let content = b"<https://x.io/p>text http://y.z/q\nend https://tail.example/r";
    let urls = find_urls(content);
    assert_eq!(
        urls,
        vec![
            b"https://x.io/p".to_vec(),
            b"http://y.z/q".to_vec(),
            b"https://tail.example/r".to_vec()
        ]
    );
}

#[test]
fn urllist_scheme_needs_a_body() {
    let urls = find_urls(b"http:// and https://");
    assert_eq!(urls, Vec::<Vec<u8>>::new());
}

#[test]
fn urllist_match_can_start_inside_a_word() {
    let urls = find_urls(b"xhttps://a.b/c");
    assert_eq!(urls, vec![b"https://a.b/c".to_vec()]);
}

#[test]
fn urllist_empty_content_yields_nothing() {
    assert_eq!(find_urls(b""), Vec::<Vec<u8>>::new());
}

#[test]
fn disposition_scenario_utf8_filename() {
    let value = b"attachment; filename*=UTF-8''report.pdf";
    let name = filename_from_disposition(value).unwrap();
    assert_eq!(name, b"report.pdf".to_vec());
}

#[test]
fn disposition_without_key_fails() {
    let value = b"attachment; filename=plain.txt";
    assert_eq!(
        filename_from_disposition(value),
        Err(DownloadError::MissingFilename)
    );
}

#[test]
fn disposition_strips_quotes() {
    let value = br#"attachment; filename*=UTF-8''"archive.zip""#;
    let name = filename_from_disposition(value).unwrap();
    assert_eq!(name, b"archive.zip".to_vec());
}

#[test]
fn disposition_stops_at_second_key() {
    let value = b"filename*=UTF-8''a.binfilename*=UTF-8''b.bin";
    let name = filename_from_disposition(value).unwrap();
    assert_eq!(name, b"a.bin".to_vec());
}

#[test]
fn extract_needs_a_byte_before_the_marker() {
    let body = br#"window.open("fuckingfast.co/dl/x")"#;
    assert_eq!(extract_direct_link(body), Err(DownloadError::NoLinkFound));
}

#[test]
fn extract_needs_a_byte_after_the_marker() {
    let body = br#"window.open("https://fuckingfast.co/dl/")"#;
    assert_eq!(extract_direct_link(body), Err(DownloadError::NoLinkFound));
}

#[test]
fn urllist_stops_at_every_terminator_kind() {
    let content = b"https://a.example/1\thttp://b.example/2\r\nhttps://c.example/3>tail";
    let urls = find_urls(content);
    assert_eq!(
        urls,
        vec![
            b"https://a.example/1".to_vec(),
            b"http://b.example/2".to_vec(),
            b"https://c.example/3".to_vec()
        ]
    );
}
