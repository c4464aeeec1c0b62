use klia_store::deps::{
    combine_output, is_list_line, needs_runtime_probe, parse_dependencies,
    parse_dependency_line, probe_step, Dependency, ProbeStep, PROBE_GRACE_MS, PROBE_POLL_MS,
    PROBE_TIMEOUT_MS,
};

fn triple(d: &Dependency) -> (String, String, String) {
    (d.name.clone(), d.download_size.clone(), d.installed_size.clone())
}

fn row(name: &str, size: &str) -> (String, String, String) {
    (name.to_string(), size.to_string(), size.to_string())
}

#[test]
fn numbered_line_gives_name_and_size_without_less_than() {
    let d = parse_dependency_line("1. org.kde.Platform 5.15-23.08 i flathub < 346,1 MB")
        .expect("a well-formed row");
    assert_eq!(d.name, "org.kde.Platform");
    assert_eq!(d.download_size, "346,1 MB");
    assert_eq!(d.installed_size, "346,1 MB");
}

#[test]
fn tabs_and_non_breaking_spaces_separate_fields() {
    let d = parse_dependency_line(" 2.\tmoe.clover.mm3d\tstable\ti\tflathub\t2,2\u{a0}MB")
        .expect("a well-formed row");
    assert_eq!(triple(&d), row("moe.clover.mm3d", "2,2 MB"));
}

#[test]
fn partial_note_is_removed_from_size() {
    let d = parse_dependency_line("3. org.x.Y stable u flathub < 1,0 GB 5(partial)")
        .expect("a well-formed row");
    assert_eq!(d.download_size, "1,0 GB 5");
}

#[test]
fn size_run_stops_at_first_other_field() {
    let d = parse_dependency_line("1. a.b.c stable i flathub 12 kB extra 9 MB")
        .expect("a well-formed row");
    assert_eq!(d.download_size, "12 kB");
}

#[test]
fn malformed_lines_give_no_row() {
    assert!(parse_dependency_line("").is_none());
    assert!(parse_dependency_line("org.kde.Platform 5.15 i flathub 1 MB").is_none());
    assert!(parse_dependency_line("1. org.kde.Platform 5.15 i").is_none());
    assert!(parse_dependency_line("1. org.kde.Platform 5.15 i flathub").is_none());
    assert!(parse_dependency_line("1. org.kde.Platform 5.15 i flathub <").is_none());
    assert!(parse_dependency_line("10. org.kde.Platform 5.15 i flathub 1 MB").is_none());
    assert!(parse_dependency_line("1 org.kde.Platform 5.15 i flathub 1 MB").is_none());
}

#[test]
fn requested_package_comes_first() {
    let out = "Looking for matches\n\
               \n\
               \u{20}1. org.kde.Platform 5.15-23.08 i flathub < 346,1 MB\r\n\
               \u{20}2. moe.clover.mm3d stable i flathub < 2,2 MB\n\
               \u{20}3. org.kde.Platform.Locale 5.15-23.08 i flathub < 380,0 MB (partial)\n\
               Proceed with these changes to the user installation? [Y/n]: ";
    let list = parse_dependencies(out, "moe.clover.mm3d");
    let got: Vec<_> = list.iter().map(triple).collect();
    assert_eq!(
        got,
        vec![
            row("moe.clover.mm3d", "2,2 MB"),
            row("org.kde.Platform", "346,1 MB"),
            row("org.kde.Platform.Locale", "380,0 MB"),
        ]
    );
}

#[test]
fn announced_runtime_without_table_gives_unknown_rows() {
    let out = "Required runtime for moe.clover.mm3d/x86_64/stable \
               (runtime/org.kde.Platform/x86_64/5.15-23.08) found in remote flathub\n\
               Do you want to install it? [Y/n]: n\n";
    let list = parse_dependencies(out, "moe.clover.mm3d");
    let got: Vec<_> = list.iter().map(triple).collect();
    assert_eq!(
        got,
        vec![
            row("moe.clover.mm3d", "Unknown"),
            row("org.kde.Platform/x86_64/5.15-23.08", "Unknown"),
        ]
    );
}

#[test]
fn announced_runtime_with_main_row_adds_nothing() {
    let out = "Required runtime for a.b.c/x86_64/stable (runtime/org.R/x86_64/1) found\n\
               1. a.b.c stable i flathub 1 MB\n";
    let list = parse_dependencies(out, "a.b.c");
    let got: Vec<_> = list.iter().map(triple).collect();
    assert_eq!(got, vec![row("a.b.c", "1 MB")]);
}

#[test]
fn output_without_rows_or_runtime_gives_empty_list() {
    assert!(parse_dependencies("", "a.b.c").is_empty());
    assert!(parse_dependencies("error: nothing matches\n", "a.b.c").is_empty());
    assert!(parse_dependencies("Required runtime for x, no reference\n", "a.b.c").is_empty());
}

#[test]
fn runtime_name_ends_at_second_opener() {
    let out = "Required runtime for a (runtime/one(runtime/two) found\n";
    let list = parse_dependencies(out, "a.b.c");
    assert_eq!(list.len(), 2);
    assert_eq!(list[1].name, "one");
}

#[test]
fn marker_decides_whether_to_probe() {
    assert!(needs_runtime_probe("x\nRequired runtime for a/b/c (runtime/r) found"));
    assert!(!needs_runtime_probe("Required runtime"));
    assert!(!needs_runtime_probe(""));
}

#[test]
fn combined_output_is_both_streams_with_a_line_feed_between() {
    assert_eq!(combine_output("out", "err"), "out\nerr");
    assert_eq!(combine_output("", ""), "\n");
}

#[test]
fn probe_waits_while_nothing_happened() {
    assert_eq!(probe_step(false, false, 0), ProbeStep::Wait);
    assert_eq!(probe_step(false, false, 6999), ProbeStep::Wait);
}

#[test]
fn probe_kills_after_grace_once_the_table_has_begun() {
    assert_eq!(probe_step(true, false, 100), ProbeStep::GraceThenKill);
    assert_eq!(probe_step(true, true, 100), ProbeStep::GraceThenKill);
}

#[test]
fn probe_kills_at_once_on_exit_and_on_timeout() {
    assert_eq!(probe_step(false, true, 100), ProbeStep::Kill);
    assert_eq!(probe_step(false, false, 7000), ProbeStep::Kill);
    assert_eq!(probe_step(true, false, 7000), ProbeStep::Kill);
    assert_eq!(probe_step(true, true, u64::MAX), ProbeStep::Kill);
}

#[test]
fn probe_timers() {
    assert_eq!(PROBE_TIMEOUT_MS, 7000);
    assert_eq!(PROBE_GRACE_MS, 500);
    assert_eq!(PROBE_POLL_MS, 100);
}

#[test]
fn list_line_begins_with_a_digit_and_a_dot() {
    assert!(is_list_line(" 1. org.kde.Platform"));
    assert!(is_list_line("9."));
    assert!(!is_list_line("1 org.kde.Platform 5.15"));
    assert!(!is_list_line("12. x"));
    assert!(!is_list_line("a1. x"));
    assert!(!is_list_line(""));
}
