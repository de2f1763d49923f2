use sideview::config::{open_page_id, page_id_of};
use sideview::daemon::{
    check_project_path, dir_scan, is_store_internal, local_url, most_active, page_location,
    page_title, rediscovered_id, remembered_port, shell, sniff_mime, tailnet_url,
    upload_meta, upload_rel, url_line, DirScan,
};

#[test]
fn magic_bytes_beat_the_name_and_names_beat_nothing() {
    assert_eq!(sniff_mime(b"\x89PNG\r\n\x1a\n....", "x.txt"), "image/png");
    assert_eq!(sniff_mime(b"\xff\xd8\xff\xe0", "x"), "image/jpeg");
    assert_eq!(sniff_mime(b"GIF89a", "x"), "image/gif");
    assert_eq!(sniff_mime(b"RIFF\0\0\0\0WEBPVP8 ", "x"), "image/webp");
    assert_eq!(sniff_mime(b"%PDF-1.7", "x"), "application/pdf");
    assert_eq!(sniff_mime(b"<svg xmlns=", "x"), "image/svg+xml");
    assert_eq!(sniff_mime(b"<?xml version", "x"), "image/svg+xml");
    assert_eq!(sniff_mime(b"a,b\n1,2\n", "data.csv"), "text/csv");
    assert_eq!(sniff_mime(b"a,b\n1,2\n", "noext"), "application/octet-stream");
}

#[test]
fn uploads_are_named_hashed_and_addressed() {
    assert_eq!(upload_meta("a.png", b"").err().unwrap(), "empty attachment");
    let m = upload_meta("../../etc/.passwd", b"abc").ok().unwrap();
    assert_eq!(m.name, "passwd");
    assert_eq!(m.sha256, "ba7816bf8f01cfea414140de5dae2223b00361a396177a9cb410ff61f20015ad");
    assert_eq!(m.bytes, 3);
    assert_eq!(upload_rel(&m, false), ".sideview/attachments/ba7816bf/passwd");
    assert_eq!(
        upload_rel(&m, true),
        ".sideview/attachments/ba7816bf8f01cfea414140de5dae2223b00361a396177a9cb410ff61f20015ad/passwd"
    );
}

#[test]
fn ports_and_urls() {
    assert_eq!(remembered_port(Some(9000), Some("8899"), Some(7000)), 9000);
    assert_eq!(remembered_port(None, Some("8899"), Some(7000)), 8899);
    assert_eq!(remembered_port(None, Some("+8899"), Some(7000)), 8899);
    assert_eq!(remembered_port(None, Some("99999"), Some(7000)), 7000);
    assert_eq!(remembered_port(None, Some("x"), None), 0);
    assert_eq!(remembered_port(None, None, None), 0);
    assert_eq!(local_url(8899), "http://127.0.0.1:8899");
    assert_eq!(tailnet_url("100.64.0.1", false, 8899), "http://100.64.0.1:8899");
    assert_eq!(tailnet_url("fd7a:115c::1", true, 8899), "http://[fd7a:115c::1]:8899");
    assert_eq!(url_line(true, "http://127.0.0.1:1"), "local:   http://127.0.0.1:1");
    assert_eq!(
        url_line(false, "http://100.64.0.1:1"),
        "tailnet: http://100.64.0.1:1      (any tailnet node can read this)"
    );
}

#[test]
fn rediscovery_names_pages_by_stem_or_encoded_id() {
    assert_eq!(rediscovered_id("V2.sv", false), "V2");
    assert_eq!(rediscovered_id("a.sv.sv", false), "a");
    assert_eq!(rediscovered_id("s%201.sv", true), "s 1");
    assert_eq!(rediscovered_id("plain.sv", true), "plain");
    assert!(matches!(dir_scan("src", false), DirScan::Descend));
    assert!(matches!(dir_scan(".git", false), DirScan::Skip));
    assert!(matches!(dir_scan("node_modules", false), DirScan::Skip));
    assert!(matches!(dir_scan("target", false), DirScan::Skip));
    assert!(matches!(dir_scan(".sideview", true), DirScan::StorePages));
}

#[test]
fn page_ids_come_from_config_or_the_stem() {
    assert_eq!(page_id_of(Some("home"), "docs/README.md"), "home");
    assert_eq!(page_id_of(None, "docs/README.md"), "README");
    assert_eq!(page_id_of(None, "docs/archive.tar.gz"), "archive.tar");
    assert_eq!(open_page_id("/p/docs/V2.sv").unwrap(), "V2");
    assert_eq!(open_page_id("/").unwrap_err(), "file has no stem to name the page after");
}

#[test]
fn page_title_names_the_page_and_the_project() {
    let index = "<html><head><title>sideview</title><link href=\"/assets/sideview.css\"></head><script src=\"/assets/app.js\"></script></html>";
    let html = shell(index, &page_title("proj", None), 7);
    assert!(html.contains("<title>proj — sideview</title>"), "{html}");
    assert!(html.contains("/assets/sideview.css?v=7"));
    assert!(html.contains("/assets/app.js?v=7"));
    let html = shell(index, &page_title("proj", Some(("v9", Some("Parser <plan>")))), 7);
    assert!(html.contains("<title>Parser &lt;plan&gt; · proj — sideview</title>"), "label leads, escaped");
    let html = shell(index, &page_title("proj", Some(("scratch", None))), 7);
    assert!(html.contains("<title>scratch · proj — sideview</title>"));
    assert_eq!(page_title("sideview", None), "sideview");
    assert_eq!(page_title("", Some(("a", None))), "a · sideview");
}

#[test]
fn file_endpoint_refuses_store_internals_but_serves_neighbours() {
    assert!(check_project_path("ok.html").is_ok());
    assert!(check_project_path(".sideview/lab.html").is_ok());
    assert_eq!(
        check_project_path("../secret").unwrap_err(),
        "refusing \"../secret\": paths must be relative, inside the project"
    );
    assert!(check_project_path("/etc/passwd").is_err());
    assert!(!is_store_internal("lab.html"));
    assert!(is_store_internal("sideview.db"));
    assert!(is_store_internal("sideview.db-pre-v4"));
    assert!(is_store_internal("spawn.lock"));
    assert!(is_store_internal("daemon.log"));
}

#[test]
fn root_redirects_to_the_most_recently_active_page() {
    let order = vec![("a".to_string(), 5i64), ("b".to_string(), 9), ("c".to_string(), 9), ("d".to_string(), 1)];
    assert_eq!(most_active(&order), Some(2));
    assert_eq!(most_active(&vec![]), None);
    assert_eq!(page_location("my page"), "/p/my%20page");
}
