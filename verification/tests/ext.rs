use std::path::PathBuf;

use sideview::config::{Extension, Manifest};
use sideview::ext::{block_json, call_result, inject_entry, resolve_bin, OUTPUT_CAP};

fn ext(bin: Option<&str>) -> Extension {
    Extension {
        manifest: Manifest {
            name: "demo".into(),
            api: 1,
            render: "frame".into(),
            entry: "index.html".into(),
            bin: bin.map(str::to_string),
        },
        dir: "extensions/demo".into(),
    }
}

#[test]
fn bin_resolution_is_the_manifests_choice() {
    let root = "/proj";
    assert_eq!(PathBuf::from(resolve_bin(root, &ext(Some("wc"))).unwrap()), PathBuf::from("wc"));
    assert_eq!(
        PathBuf::from(resolve_bin(root, &ext(Some("./tool"))).unwrap()),
        PathBuf::from("/proj/extensions/demo/tool")
    );
    assert!(resolve_bin(root, &ext(None)).is_err(), "no bin declared, no call");
}

#[test]
fn injection_precedes_the_entrys_own_scripts_and_survives_script_bodies() {
    let entry = "<!doctype html><head><title>x</title></head><body>\
                 <script type=\"module\">import 'vue'</script></body>";
    let json = block_json("V3", "b1", &vec![("db".into(), "x.duckdb".into())], "a </script> body");
    let out = inject_entry(entry, "/x/demo/V3/b1/", &json);
    let base = out.find("<base href=\"/x/demo/V3/b1/\">").expect("base injected");
    let api = out.find("window.sideview").expect("api injected");
    let own = out.find("type=\"module\"").expect("entry's own script kept");
    assert!(base < api && api < own, "base, then api, then the entry's scripts");
    assert!(out.contains("<\\/script>"), "a body's </script> cannot end the tag");
    // Headless entries still get the prelude, prepended.
    assert!(inject_entry("<p>hi</p>", "/x/e/p/b/", "{}").starts_with("<base"));
}

#[test]
fn block_json_is_serde_json_with_closers_escaped() {
    let j = block_json("V3", "b1", &vec![("z".into(), "1".into()), ("a".into(), "2".into())], "x</y");
    assert_eq!(j, r#"{"attrs":{"a":"2","z":"1"},"body":"x<\/y","id":"b1","page":"V3"}"#);
}

#[test]
fn call_results_keep_exit_codes_and_refuse_runaway_output() {
    let r = call_result(Some(1), b"out", b"no such file").ok().unwrap();
    assert_eq!(r.code, Some(1));
    assert_eq!(r.stdout, "out");
    assert_eq!(r.stderr, "no such file");
    let r = call_result(None, b"\xff", b"").ok().unwrap();
    assert_eq!(r.stdout, "\u{fffd}");
    let big = vec![b'x'; OUTPUT_CAP + 1];
    assert_eq!(call_result(Some(0), &big, b"").err().unwrap(), "output cap (64 MB) exceeded");
}

#[test]
fn a_header_is_no_head_so_the_prelude_is_prepended() {
    let out = inject_entry("<header>x</header>", "/b/", "{}");
    assert!(out.starts_with("<base href=\"/b/\">"));
    assert!(out.ends_with("<header>x</header>"));
    let out = inject_entry("<HEAD lang=\"en\"><title>t</title>", "/b/", "{}");
    assert!(out.starts_with("<HEAD lang=\"en\"><base href=\"/b/\">"));
    assert!(out.ends_with("<title>t</title>"));
}
