use klia_store::listing::{classify_row_line, parse_installed, Row};

const APP: &str = "org.mozilla.firefox\tFirefox\t128.0\tWeb browser\tuser,current\tapp/org.mozilla.firefox/x86_64/stable";
const PLATFORM: &str = "org.freedesktop.Platform.GL.default\tMesa\t24.0\t\tuser,runtime\truntime/org.freedesktop.Platform.GL.default/x86_64/23.08";
const LOCALE: &str = "org.mozilla.firefox.Locale\tFirefox locale\t\t\tuser,runtime\truntime/org.mozilla.firefox.Locale/x86_64/stable";
const KDE: &str = "org.kde.Platform\tKDE\t5.15\tShared libraries\tsystem,runtime\truntime/org.kde.Platform/x86_64/5.15-23.08";

#[test]
fn row_with_current_option_is_an_app() {
    match classify_row_line(APP) {
        Row::App(a) => {
            assert_eq!(a.app_id, "org.mozilla.firefox");
            assert_eq!(a.name, "Firefox");
            assert_eq!(a.version, "128.0");
            assert_eq!(a.summary, Some("Web browser".to_string()));
            assert_eq!(a.developer, Some("mozilla".to_string()));
        }
        _ => panic!("an application was expected"),
    }
}

#[test]
fn runtime_row_of_the_platform_is_a_runtime_reference() {
    match classify_row_line(PLATFORM) {
        Row::Platform(r) => {
            assert_eq!(r, "runtime/org.freedesktop.Platform.GL.default/x86_64/23.08")
        }
        _ => panic!("a platform component was expected"),
    }
    let found = parse_installed(&format!("{}\n{}\n", APP, PLATFORM));
    assert!(found.extensions.is_empty());
    assert_eq!(
        found.runtimes,
        vec!["runtime/org.freedesktop.Platform.GL.default/x86_64/23.08".to_string()]
    );
}

#[test]
fn every_denied_fragment_marks_a_platform_component() {
    for id in [
        "org.freedesktop.Platform.ffmpeg",
        "org.freedesktop.Sdk.Extension.rust",
        "org.gnome.Platform.GL32.default",
        "org.kde.Platform.VAAPI.Intel",
        "org.gnome.Platform.Compat.i386",
        "org.kde.Platform.codecs-extra",
    ] {
        let line = format!("{}\tx\t1\t\tsystem,runtime\tref/{}", id, id);
        assert!(matches!(classify_row_line(&line), Row::Platform(_)), "{}", id);
    }
}

#[test]
fn other_runtime_row_is_a_candidate() {
    match classify_row_line(LOCALE) {
        Row::Candidate(c) => {
            assert_eq!(c.id, "org.mozilla.firefox.Locale");
            assert_eq!(c.name, "Firefox locale");
            assert_eq!(c.version, "");
            assert_eq!(c.reference, "runtime/org.mozilla.firefox.Locale/x86_64/stable");
        }
        _ => panic!("a candidate was expected"),
    }
}

#[test]
fn short_and_blank_rows_are_skipped() {
    assert!(matches!(classify_row_line(""), Row::Skipped));
    assert!(matches!(classify_row_line(" \t \t \t \t \t "), Row::Skipped));
    assert!(matches!(classify_row_line("a\tb\tc\td\te"), Row::Skipped));
}

#[test]
fn empty_summary_is_absent() {
    match classify_row_line("single\tOne\t1\t  \tuser,current\tapp/single") {
        Row::App(a) => {
            assert_eq!(a.summary, None);
            assert_eq!(a.developer, None);
        }
        _ => panic!("an application was expected"),
    }
}

#[test]
fn locale_pack_is_an_extension_of_its_app() {
    let found = parse_installed(&format!("{}\n{}\n", APP, LOCALE));
    assert_eq!(found.apps.len(), 1);
    assert!(found.runtimes.is_empty());
    assert_eq!(found.extensions.len(), 1);
    let e = &found.extensions[0];
    assert_eq!(e.extension_id, "org.mozilla.firefox.Locale");
    assert_eq!(e.name, "Firefox locale");
    assert_eq!(e.version, "");
    assert_eq!(e.parent_app_id, "org.mozilla.firefox");
}

#[test]
fn extension_listed_before_its_app_is_still_bound() {
    let found = parse_installed(&format!("{}\r\n{}\r\n", LOCALE, APP));
    assert_eq!(found.extensions.len(), 1);
    assert_eq!(found.extensions[0].parent_app_id, "org.mozilla.firefox");
    assert!(found.runtimes.is_empty());
}

#[test]
fn candidate_without_parent_is_a_runtime_reference() {
    let found = parse_installed(&format!("{}\n{}\n{}\n", KDE, PLATFORM, APP));
    assert!(found.extensions.is_empty());
    assert_eq!(
        found.runtimes,
        vec![
            "runtime/org.freedesktop.Platform.GL.default/x86_64/23.08".to_string(),
            "runtime/org.kde.Platform/x86_64/5.15-23.08".to_string(),
        ]
    );
}

#[test]
fn first_matching_app_is_the_parent() {
    let a = "org.app\tA\t1\t\tuser,current\tapp/org.app";
    let b = "org.app.more\tB\t1\t\tuser,current\tapp/org.app.more";
    let e = "org.app.more.Plugin\tP\t1\t\tuser,runtime\truntime/org.app.more.Plugin";
    let found = parse_installed(&format!("{}\n{}\n{}", b, a, e));
    assert_eq!(found.extensions[0].parent_app_id, "org.app.more");
    let found = parse_installed(&format!("{}\n{}\n{}", a, b, e));
    assert_eq!(found.extensions[0].parent_app_id, "org.app");
}

#[test]
fn an_app_is_no_parent_of_its_own_identifier_nor_an_empty_one_of_any() {
    let a = "org.app\tA\t1\t\tuser,current\tapp/org.app";
    let same = "org.app\tA\t1\t\tuser,runtime\truntime/org.app";
    let nameless = "\tN\t1\t\tuser,current\tapp/none";
    let other = "com.other.Ext\tE\t1\t\tuser,runtime\truntime/com.other.Ext";
    let found = parse_installed(&format!("{}\n{}\n{}\n{}", a, same, nameless, other));
    assert_eq!(found.apps.len(), 2);
    assert!(found.extensions.is_empty());
    assert_eq!(
        found.runtimes,
        vec!["runtime/org.app".to_string(), "runtime/com.other.Ext".to_string()]
    );
}

#[test]
fn empty_listing_holds_nothing() {
    let found = parse_installed("");
    assert!(found.apps.is_empty() && found.runtimes.is_empty() && found.extensions.is_empty());
}

#[test]
fn platform_component_is_never_an_extension_even_of_a_matching_app() {
    let app = "org.freedesktop.Platform\tPlatform\t23.08\t\tuser,current\tapp/org.freedesktop.Platform";
    let found = parse_installed(&format!("{}\n{}\n", app, PLATFORM));
    assert_eq!(found.apps.len(), 1);
    assert!(found.extensions.is_empty());
    assert_eq!(
        found.runtimes,
        vec!["runtime/org.freedesktop.Platform.GL.default/x86_64/23.08".to_string()]
    );
}
