use klia_store::updates::parse_updates;

#[test]
fn rows_of_three_columns_give_version_and_branch() {
    let list = parse_updates("org.mozilla.firefox\t129.0\tstable\norg.kde.Platform\t \t5.15-23.08\n");
    assert_eq!(list.len(), 2);
    assert_eq!(list[0].app_id, "org.mozilla.firefox");
    assert_eq!(list[0].new_version, "129.0");
    assert_eq!(list[0].branch, "stable");
    assert_eq!(list[1].app_id, "org.kde.Platform");
    assert_eq!(list[1].new_version, "");
    assert_eq!(list[1].branch, "5.15-23.08");
}

#[test]
fn row_of_two_columns_has_no_version() {
    let list = parse_updates("org.app\tbeta");
    assert_eq!(list.len(), 1);
    assert_eq!(list[0].app_id, "org.app");
    assert_eq!(list[0].new_version, "");
    assert_eq!(list[0].branch, "beta");
}

#[test]
fn blank_lines_and_single_columns_give_no_update() {
    assert!(parse_updates("").is_empty());
    assert!(parse_updates("\n \n\t\t\n").is_empty());
    assert!(parse_updates("org.app\n").is_empty());
}

#[test]
fn columns_beyond_the_third_are_ignored() {
    let list = parse_updates("a.b\t1\tstable\textra\r\n");
    assert_eq!(list.len(), 1);
    assert_eq!(list[0].branch, "stable");
}
