//! The extension points that an application declares in its metadata, and
//! the packages found by a search that fill such a point.
use crate::text::{
    chars_of, collect, contains_chars, contains_seq, copy_range, eq_chars, lines, lines_of,
    split, split_chars, starts_with, starts_with_chars, string_of, string_views, trim,
    trim_chars, views,
};
use vstd::prelude::*;

verus! {

/// A package that can be installed into an extension point.
#[derive(Debug, Clone, PartialEq, Eq)]
pub struct InstallableExtension {
    pub extension_id: String,
    pub name: String,
    pub version: String,
}

/// An installable extension as plain values.
pub struct InstallableExtensionView {
    pub extension_id: Seq<char>,
    pub name: Seq<char>,
    pub version: Seq<char>,
}

impl View for InstallableExtension {
    type V = InstallableExtensionView;

    open spec fn view(&self) -> InstallableExtensionView {
        InstallableExtensionView {
            extension_id: self.extension_id@,
            name: self.name@,
            version: self.version@,
        }
    }
}

/// The views of a sequence of installable extensions.
pub open spec fn installable_views(v: Seq<InstallableExtension>) -> Seq<
    InstallableExtensionView,
> {
    Seq::new(v.len(), |i: int| v[i]@)
}

/// The view of an optional installable extension.
pub open spec fn opt_installable_view(o: Option<InstallableExtension>) -> Option<
    InstallableExtensionView,
> {
    match o {
        Some(e) => Some(e@),
        None => None,
    }
}

/// What opens the header of an extension point in the metadata.
pub open spec fn header_opener() -> Seq<char> {
    "[Extension "@
}

/// The name in a header line `[Extension <name>]`, trimmed.
pub open spec fn declared_point(line: Seq<char>) -> Option<Seq<char>> {
    let lead = header_opener().len();
    if starts_with(line, header_opener()) && line.len() > lead && line.last() == ']' {
        Some(trim(line.subrange(lead as int, line.len() - 1)))
    } else {
        None
    }
}

/// The second piece between dots of what follows the first `skip` characters
/// of `point`; empty where there is none.
pub open spec fn segment_after(point: Seq<char>, skip: int) -> Seq<char> {
    let pieces = split(point.skip(skip), '.');
    if pieces.len() >= 2 {
        pieces[1]
    } else {
        Seq::empty()
    }
}

/// A point for debug symbols, locale data or help: its first segment after
/// the identifier of the application says so.
pub open spec fn is_auxiliary(point: Seq<char>, app_id: Seq<char>) -> bool {
    let segment = segment_after(point, app_id.len() as int);
    point.len() > app_id.len() && (segment == "Debug"@ || segment == "Locale"@ || segment
        == "Help"@)
}

/// A point in the namespace of the platform or of the SDK.
pub open spec fn is_platform_point(point: Seq<char>) -> bool {
    contains_seq(point, "org.freedesktop.Platform."@) || contains_seq(
        point,
        "org.freedesktop.Sdk."@,
    )
}

/// An extension point that `app_id` offers to its users: its name starts with
/// the identifier, and it is neither auxiliary nor of the platform.
pub open spec fn is_offered(point: Seq<char>, app_id: Seq<char>) -> bool {
    starts_with(point, app_id) && !is_auxiliary(point, app_id) && !is_platform_point(point)
}

/// The offered extension point that a line of the metadata declares.
pub open spec fn offered_point(line: Seq<char>, app_id: Seq<char>) -> Option<Seq<char>> {
    match declared_point(line) {
        Some(point) => if is_offered(point, app_id) {
            Some(point)
        } else {
            None
        },
        None => None,
    }
}

/// The extension points that `metadata` declares and `app_id` offers, in the
/// order of the metadata.
pub open spec fn offered_points(metadata: Seq<char>, app_id: Seq<char>) -> Seq<Seq<char>> {
    collect(lines(metadata), |line: Seq<char>| offered_point(line, app_id))
}

/// `pkg_id` fills `point`: it is the point itself, or the point, a dot and
/// more.
pub open spec fn fills(pkg_id: Seq<char>, point: Seq<char>) -> bool {
    pkg_id == point || (starts_with(pkg_id, point) && pkg_id.len() > point.len()
        && pkg_id[point.len() as int] == '.')
}

/// The installable extension that a row of search results states for
/// `point`. Its columns, between tabs, are identifier and name; a search
/// tells no version.
pub open spec fn extension_of_row(line: Seq<char>, point: Seq<char>) -> Option<
    InstallableExtensionView,
> {
    let parts = split(line, '\t');
    if trim(line).len() > 0 && parts.len() >= 2 && fills(trim(parts[0]), point) {
        Some(
            InstallableExtensionView {
                extension_id: trim(parts[0]),
                name: trim(parts[1]),
                version: Seq::empty(),
            },
        )
    } else {
        None
    }
}

/// The packages among the search results `output` that fill `point`, in
/// their order.
pub open spec fn installable_for(output: Seq<char>, point: Seq<char>) -> Seq<
    InstallableExtensionView,
> {
    collect(lines(output), |line: Seq<char>| extension_of_row(line, point))
}

/// The name in a header line of the metadata.
pub fn declared_point_chars(line: &Vec<char>) -> (point: Option<Vec<char>>)
    ensures
        match point {
            Some(p) => declared_point(line@) == Some(p@),
            None => declared_point(line@) is None,
        },
{
    let opener = chars_of("[Extension ");
    let lead: usize = opener.len();
    if starts_with_chars(line, &opener) && line.len() > lead && line[line.len() - 1] == ']' {
        Some(trim_chars(&copy_range(line, lead, line.len() - 1)))
    } else {
        None
    }
}

/// Whether `app_id` offers the extension point `point` to its users.
pub fn offered(point: &Vec<char>, app_id: &Vec<char>) -> (b: bool)
    ensures
        b == is_offered(point@, app_id@),
{
    if !starts_with_chars(point, app_id) {
        return false;
    }
    if point.len() > app_id.len() {
        let rest = copy_range(point, app_id.len(), point.len());
        assert(rest@ == point@.skip(app_id@.len() as int));
        let pieces = split_chars(&rest, '.');
        if pieces.len() >= 2 {
            assert(views(pieces@)[1] == pieces@[1]@);
            let segment = &pieces[1];
            if eq_chars(segment, &chars_of("Debug")) || eq_chars(segment, &chars_of("Locale"))
                || eq_chars(segment, &chars_of("Help")) {
                return false;
            }
        } else {
            proof {
                lemma_literals_not_empty();
            }
        }
    }
    !(contains_chars(point, &chars_of("org.freedesktop.Platform.")) || contains_chars(
        point,
        &chars_of("org.freedesktop.Sdk."),
    ))
}

/// The names of the auxiliary segments are not empty.
proof fn lemma_literals_not_empty()
    ensures
        "Debug"@.len() > 0,
        "Locale"@.len() > 0,
        "Help"@.len() > 0,
{
    reveal_strlit("Debug");
    reveal_strlit("Locale");
    reveal_strlit("Help");
}

/// The extension points that `metadata` declares and `app_id` offers.
pub fn extension_points(metadata: &str, app_id: &str) -> (points: Vec<String>)
    ensures
        string_views(points@) == offered_points(metadata@, app_id@),
        points@.len() == offered_points(metadata@, app_id@).len(),
{
    let id = chars_of(app_id);
    let all = lines_of(&chars_of(metadata));
    let ghost text = views(all@);
    let ghost f = |line: Seq<char>| offered_point(line, app_id@);
    let mut points: Vec<String> = Vec::new();
    assert(string_views(points@) == Seq::<Seq<char>>::empty());
    let mut i: usize = 0;
    while i < all.len()
        invariant
            i <= all.len(),
            text == views(all@),
            id@ == app_id@,
            f == (|line: Seq<char>| offered_point(line, app_id@)),
            string_views(points@) == collect(text.take(i as int), f),
        decreases all.len() - i,
    {
        assert(text.take(i + 1).drop_last() == text.take(i as int));
        assert(text.take(i + 1).last() == all@[i as int]@);
        match declared_point_chars(&all[i]) {
            Some(p) => {
                if offered(&p, &id) {
                    let ghost before = string_views(points@);
                    let name = string_of(&p);
                    points.push(name);
                    assert(string_views(points@) == before.push(p@));
                }
            },
            None => {},
        }
        i += 1;
    }
    assert(text.take(all@.len() as int) == text);
    assert(string_views(points@).len() == points@.len());
    points
}

/// Whether the package `pkg_id` fills the extension point `point`.
pub fn fills_point(pkg_id: &Vec<char>, point: &Vec<char>) -> (b: bool)
    ensures
        b == fills(pkg_id@, point@),
{
    if eq_chars(pkg_id, point) {
        return true;
    }
    starts_with_chars(pkg_id, point) && pkg_id.len() > point.len() && pkg_id[point.len()] == '.'
}

/// The installable extension that the row `line` of search results states
/// for `point`.
pub fn extension_from_row(line: &Vec<char>, point: &Vec<char>) -> (row: Option<
    InstallableExtension,
>)
    ensures
        opt_installable_view(row) == extension_of_row(line@, point@),
{
    if trim_chars(line).len() == 0 {
        return None;
    }
    let parts = split_chars(line, '\t');
    if parts.len() < 2 {
        return None;
    }
    assert(views(parts@)[0] == parts@[0]@ && views(parts@)[1] == parts@[1]@);
    let id = trim_chars(&parts[0]);
    if !fills_point(&id, point) {
        return None;
    }
    Some(
        InstallableExtension {
            extension_id: string_of(&id),
            name: string_of(&trim_chars(&parts[1])),
            version: String::new(),
        },
    )
}

/// The packages among the search results `output` that fill `point`.
pub fn installable_extensions(output: &str, point: &str) -> (list: Vec<InstallableExtension>)
    ensures
        installable_views(list@) == installable_for(output@, point@),
        list@.len() == installable_for(output@, point@).len(),
{
    let wanted = chars_of(point);
    let all = lines_of(&chars_of(output));
    let ghost text = views(all@);
    let ghost f = |line: Seq<char>| extension_of_row(line, point@);
    let mut list: Vec<InstallableExtension> = Vec::new();
    assert(installable_views(list@) == Seq::<InstallableExtensionView>::empty());
    let mut i: usize = 0;
    while i < all.len()
        invariant
            i <= all.len(),
            text == views(all@),
            wanted@ == point@,
            f == (|line: Seq<char>| extension_of_row(line, point@)),
            installable_views(list@) == collect(text.take(i as int), f),
        decreases all.len() - i,
    {
        assert(text.take(i + 1).drop_last() == text.take(i as int));
        assert(text.take(i + 1).last() == all@[i as int]@);
        match extension_from_row(&all[i], &wanted) {
            Some(e) => {
                let ghost before = installable_views(list@);
                list.push(e);
                assert(installable_views(list@) == before.push(e@));
            },
            None => {},
        }
        i += 1;
    }
    assert(text.take(all@.len() as int) == text);
    assert(installable_views(list@).len() == list@.len());
    list
}

} // verus!
