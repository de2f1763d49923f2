use sideview::config::{format_of, is_imported, load_extensions, ExtensionEntry, Format, Manifest, ManifestLoad};

#[test]
fn formats_come_from_the_extension_and_html_mode_from_config() {
    assert_eq!(format_of("V3.sv", None), Format::Sv);
    assert_eq!(format_of("DESIGN.md", None), Format::Markdown);
    assert_eq!(format_of("docs/report.HTML", None), Format::HtmlInline);
    assert_eq!(format_of("docs/report.html", Some("iframe")), Format::HtmlFrame);
    assert!(is_imported("DESIGN.md") && !is_imported("V3.sv"));
}

fn manifest(name: &str, api: u32, render: &str, bin: Option<&str>) -> Manifest {
    Manifest {
        name: name.to_string(),
        api,
        render: render.to_string(),
        entry: "index.html".to_string(),
        bin: bin.map(str::to_string),
    }
}

fn entry(path: &str, enabled: Option<bool>) -> ExtensionEntry {
    ExtensionEntry { path: path.to_string(), enabled }
}

#[test]
fn extensions_load_validated_and_degrade_by_omission() {
    let entries = vec![
        entry("extensions/good", None),
        entry("extensions/newer", None),
        entry("extensions/inline", None),
        entry("extensions/broken", None),
        entry("extensions/off", Some(false)),
        entry("extensions/again", Some(true)),
        entry("extensions/gone", None),
    ];
    let loads = vec![
        ManifestLoad::Parsed(manifest("wordcount", 1, "frame", Some("wc"))),
        ManifestLoad::Parsed(manifest("future", 99, "frame", None)),
        ManifestLoad::Parsed(manifest("prose-ext", 1, "inline", None)),
        ManifestLoad::Malformed("expected a value".to_string()),
        ManifestLoad::Parsed(manifest("quiet", 1, "frame", None)),
        ManifestLoad::Parsed(manifest("wordcount", 1, "frame", None)),
        ManifestLoad::Missing("not found".to_string()),
    ];
    let (exts, problems) = load_extensions(&entries, loads);
    assert_eq!(exts.len(), 1);
    assert_eq!(exts[0].manifest.name, "wordcount");
    assert_eq!(exts[0].manifest.entry, "index.html");
    assert_eq!(exts[0].manifest.bin.as_deref(), Some("wc"));
    assert_eq!(exts[0].dir, "extensions/good");
    assert_eq!(exts[0].tag(), "sv-wordcount");
    let paths: Vec<&str> = problems.iter().map(|(p, _)| p.as_str()).collect();
    assert_eq!(
        paths,
        vec!["extensions/newer", "extensions/inline", "extensions/broken", "extensions/again", "extensions/gone"]
    );
    assert_eq!(problems[0].1, "wants api 99 but this sideview knows 1");
    assert_eq!(problems[1].1, "render \"inline\" is not built in this sideview (only \"frame\")");
    assert_eq!(problems[2].1, "plugin.toml: expected a value");
    assert_eq!(problems[3].1, "duplicate extension name \"wordcount\"");
    assert_eq!(problems[4].1, "no plugin.toml (not found)");
}
