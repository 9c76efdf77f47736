use readur::multistatus::{parse_listing, scan_multistatus, DiscoveryError};
use readur::sync::Fingerprint;

fn document(extra_ns: bool) -> String {
    let root = if extra_ns {
        "<d:multistatus xmlns:d=\"DAV:\" xmlns:x=\"urn:vendor:extra\">"
    } else {
        "<d:multistatus xmlns:d=\"DAV:\">"
    };
    let vendor = if extra_ns { "<x:quota>12</x:quota><x:href>/elsewhere</x:href>" } else { "" };
    format!(
        "<?xml version=\"1.0\" encoding=\"utf-8\"?>\n{}\n\
         <d:response><d:href>/dav/</d:href><d:propstat><d:prop><d:resourcetype><d:collection/></d:resourcetype></d:prop></d:propstat></d:response>\n\
         <d:response><d:href>/dav/a.pdf</d:href><d:propstat><d:prop>{}<d:getcontentlength>42</d:getcontentlength>\
         <d:getlastmodified>Sun, 06 Nov 1994 08:49:37 GMT</d:getlastmodified><d:getetag>\"1\"</d:getetag><d:resourcetype/></d:prop></d:propstat></d:response>\n\
         <d:response><d:href>/dav/b.png</d:href><d:propstat><d:prop><d:getcontentlength>7</d:getcontentlength>\
         <d:getlastmodified>Mon, 01 Jan 2024 00:00:00 GMT</d:getlastmodified></d:prop></d:propstat></d:response>\n\
         <d:response><d:href>/dav/sub/</d:href><d:propstat><d:prop><d:resourcetype><d:collection/></d:resourcetype></d:prop></d:propstat></d:response>\n\
         </d:multistatus>\n",
        root, vendor
    )
}

#[test]
fn listing_yields_entries_in_order() {
    let entries = parse_listing(&document(false), "/dav/").unwrap();
    assert_eq!(entries.len(), 3);
    assert_eq!(entries[0].path, "/dav/a.pdf");
    assert_eq!(entries[0].size, 42);
    assert_eq!(entries[0].last_modified, 784111777);
    assert!(matches!(&entries[0].fingerprint, Fingerprint::Tag(t) if t == "\"1\""));
    assert!(!entries[0].is_directory);
    assert_eq!(entries[1].path, "/dav/b.png");
    assert!(matches!(entries[1].fingerprint, Fingerprint::SizeTime(7, 1704067200)));
    assert!(entries[1].reliable);
    assert_eq!(entries[2].path, "/dav/sub/");
    assert!(entries[2].is_directory);
    assert_eq!(entries[2].size, 0);
}

#[test]
fn unknown_namespace_leaves_entries_unchanged() {
    let plain = parse_listing(&document(false), "/dav/").unwrap();
    let extra = parse_listing(&document(true), "/dav/").unwrap();
    assert_eq!(plain.len(), extra.len());
    for (a, b) in plain.iter().zip(extra.iter()) {
        assert_eq!(a.path, b.path);
        assert_eq!(a.size, b.size);
        assert_eq!(a.last_modified, b.last_modified);
        assert_eq!(a.reliable, b.reliable);
        assert_eq!(a.is_directory, b.is_directory);
    }
}

#[test]
fn raw_responses_keep_property_text() {
    let raws = scan_multistatus(&document(false)).unwrap();
    assert_eq!(raws.len(), 4);
    assert_eq!(raws[0].href, "/dav/");
    assert!(raws[0].is_collection);
    assert_eq!(raws[1].etag.as_deref(), Some("\"1\""));
    assert_eq!(raws[2].etag, None);
    assert_eq!(raws[2].content_length.as_deref(), Some("7"));
}

#[test]
fn malformed_documents_are_refused() {
    let bad = [
        "",
        "plain text",
        "<d:other xmlns:d=\"DAV:\"></d:other>",
        "<d:multistatus xmlns:d=\"DAV:\">",
        "<d:multistatus></d:multistatus></x>",
        "<d:multistatus></d:multistatus><d:multistatus></d:multistatus>",
        "<d:multistatus><d:response",
        "< multistatus></multistatus>",
        "<multistatus xmlns=\"DAV:\"></a>",
        "<d:multistatus xmlns:d=\"DAV:\"><d:response></d:href></d:multistatus>",
        "<d:multistatus xmlns:d=\"urn:other\"></d:multistatus>",
        "<d:multistatus xmlns:x=\"DAV:\"></d:multistatus>",
        "<multistatus></multistatus>",
    ];
    for doc in bad {
        assert_eq!(parse_listing(doc, "/").unwrap_err(), DiscoveryError::MalformedResponse, "{}", doc);
    }
    assert!(parse_listing("<multistatus xmlns=\"DAV:\"/>", "/").unwrap().is_empty());
    assert!(parse_listing("<D:multistatus xmlns:D=\"DAV:\"></D:multistatus>", "/").unwrap().is_empty());
}
