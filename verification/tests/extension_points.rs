use klia_store::extensions::{extension_points, installable_extensions};

const METADATA: &str = "[Application]\n\
name=io.github.peazip.PeaZip\n\
runtime=org.kde.Platform/x86_64/5.15-23.08\n\
\n\
[Extension io.github.peazip.PeaZip.Addon]\n\
directory=addon\n\
[Extension io.github.peazip.PeaZip.Debug]\n\
directory=lib/debug\n\
[Extension io.github.peazip.PeaZip.Locale]\n\
[Extension io.github.peazip.PeaZip.Help]\n\
[Extension org.freedesktop.Platform.GL]\n\
[Extension  io.github.peazip.PeaZip.Plugin.x ]\r\n\
[Extension io.github.peazip.PeaZip.Theme\n\
\x20[Extension io.github.peazip.PeaZip.Indented]\n";

#[test]
fn offered_points_are_those_of_the_app_that_are_not_auxiliary() {
    assert_eq!(
        extension_points(METADATA, "io.github.peazip.PeaZip"),
        vec![
            "io.github.peazip.PeaZip.Addon".to_string(),
            "io.github.peazip.PeaZip.Plugin.x".to_string(),
        ]
    );
}

#[test]
fn points_of_other_packages_are_not_offered() {
    assert!(extension_points(METADATA, "org.mozilla.firefox").is_empty());
    assert!(extension_points("", "org.mozilla.firefox").is_empty());
}

#[test]
fn points_in_the_platform_namespace_are_not_offered() {
    let metadata = "[Extension org.freedesktop.Platform.GL]\n[Extension org.freedesktop.Sdk.Extension]\n";
    assert!(extension_points(metadata, "org.freedesktop.Platform").is_empty());
    assert!(extension_points(metadata, "org.freedesktop.Sdk").is_empty());
}

#[test]
fn point_equal_to_the_identifier_is_offered() {
    assert_eq!(extension_points("[Extension a.b.c]", "a.b.c"), vec!["a.b.c".to_string()]);
}

#[test]
fn auxiliary_segment_is_the_second_piece_after_the_identifier() {
    assert!(extension_points("[Extension a.bX.Debug]", "a.b").is_empty());
    assert_eq!(
        extension_points("[Extension a.b.Tool.Debug]", "a.b"),
        vec!["a.b.Tool.Debug".to_string()]
    );
    assert_eq!(extension_points("[Extension a.bDebug]", "a.b"), vec!["a.bDebug".to_string()]);
}

#[test]
fn search_rows_that_fill_the_point_are_installable() {
    let out = "io.github.peazip.PeaZip.Addon.i386\tPeaZip i386 add-on\n\
               io.github.peazip.PeaZip.Addon\tPeaZip add-on\n\
               io.github.peazip.PeaZip.Addons\tSomething else\n\
               io.github.peazip.PeaZip\tPeaZip\n\
               \n\
               io.github.peazip.PeaZip.Addon.x\n";
    let list = installable_extensions(out, "io.github.peazip.PeaZip.Addon");
    assert_eq!(list.len(), 2);
    assert_eq!(list[0].extension_id, "io.github.peazip.PeaZip.Addon.i386");
    assert_eq!(list[0].name, "PeaZip i386 add-on");
    assert_eq!(list[0].version, "");
    assert_eq!(list[1].extension_id, "io.github.peazip.PeaZip.Addon");
    assert_eq!(list[1].name, "PeaZip add-on");
}

#[test]
fn search_without_matches_gives_nothing() {
    assert!(installable_extensions("", "a.b.c").is_empty());
    assert!(installable_extensions("No matches found\n", "a.b.c").is_empty());
}
