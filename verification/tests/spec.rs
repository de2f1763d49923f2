use sideview::spec::decide;
use sideview::spec::Decoded;
use sideview::spec::Envelope;
use sideview::spec::Spec;
use sideview::spec::SPEC_VERSION;

#[test]
fn an_unknown_variant_degrades_with_its_fallback() {
    let env = Envelope { version: 1, fallback: Some("| a |".to_string()) };
    match decide(env, None) {
        Decoded::Degraded(e) => assert_eq!(e.fallback.as_deref(), Some("| a |")),
        Decoded::Known(_) => panic!("expected a degraded block"),
    }
}

#[test]
fn a_newer_version_degrades_even_for_a_known_variant() {
    let env = Envelope { version: SPEC_VERSION + 1, fallback: Some("x".to_string()) };
    let known = Spec::Prose { text: "x".to_string() };
    match decide(env, Some(known)) {
        Decoded::Degraded(e) => {
            assert_eq!(e.version, 2);
            assert_eq!(e.fallback.as_deref(), Some("x"));
        }
        Decoded::Known(_) => panic!("expected a degraded block"),
    }
}

#[test]
fn a_known_variant_at_a_known_version_is_kept() {
    let env = Envelope { version: 1, fallback: None };
    match decide(env, Some(Spec::Markup { html: "<b>hi</b>".to_string() })) {
        Decoded::Known(s) => {
            assert_eq!(s.tag_name(), "markup");
            match s {
                Spec::Markup { html } => assert_eq!(html, "<b>hi</b>"),
                _ => panic!("expected markup"),
            }
        }
        Decoded::Degraded(_) => panic!("expected a known block"),
    }
}

#[test]
fn tag_names_are_the_lowercase_variant() {
    assert_eq!(Spec::Prose { text: String::new() }.tag_name(), "prose");
    assert_eq!(Spec::Html { document: String::new() }.tag_name(), "html");
}
