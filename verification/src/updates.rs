//! The listing of available updates.
use crate::text::{chars_of, collect, lines, lines_of, split, split_chars, string_of, trim, trim_chars, views};
use vstd::prelude::*;

verus! {

/// An update that can be installed.
#[derive(Debug, Clone, PartialEq, Eq)]
pub struct UpdateAvailable {
    pub app_id: String,
    pub new_version: String,
    pub branch: String,
}

/// An update as plain values.
pub struct UpdateView {
    pub app_id: Seq<char>,
    pub new_version: Seq<char>,
    pub branch: Seq<char>,
}

impl View for UpdateAvailable {
    type V = UpdateView;

    open spec fn view(&self) -> UpdateView {
        UpdateView { app_id: self.app_id@, new_version: self.new_version@, branch: self.branch@ }
    }
}

/// The views of a sequence of updates.
pub open spec fn update_views(v: Seq<UpdateAvailable>) -> Seq<UpdateView> {
    Seq::new(v.len(), |i: int| v[i]@)
}

/// The view of an optional update.
pub open spec fn opt_update_view(o: Option<UpdateAvailable>) -> Option<UpdateView> {
    match o {
        Some(u) => Some(u@),
        None => None,
    }
}

/// The update that a row states. Its columns, between tabs, are identifier,
/// version and branch; in a row of two columns the version is missing. A
/// blank line or a row of one column states none.
pub open spec fn update_of_line(line: Seq<char>) -> Option<UpdateView> {
    let parts = split(line, '\t');
    if trim(line).len() == 0 {
        None
    } else if parts.len() >= 3 {
        Some(
            UpdateView {
                app_id: trim(parts[0]),
                new_version: trim(parts[1]),
                branch: trim(parts[2]),
            },
        )
    } else if parts.len() >= 2 {
        Some(UpdateView { app_id: trim(parts[0]), new_version: Seq::empty(), branch: trim(parts[1]) })
    } else {
        None
    }
}

/// The updates that `output` lists, in its order.
pub open spec fn update_list(output: Seq<char>) -> Seq<UpdateView> {
    collect(lines(output), |line: Seq<char>| update_of_line(line))
}

/// The update that the row `line` states.
pub fn update_from_chars(line: &Vec<char>) -> (row: Option<UpdateAvailable>)
    ensures
        opt_update_view(row) == update_of_line(line@),
{
    if trim_chars(line).len() == 0 {
        return None;
    }
    let parts = split_chars(line, '\t');
    if parts.len() < 2 {
        return None;
    }
    let ghost cols = views(parts@);
    assert(cols[0] == parts@[0]@ && cols[1] == parts@[1]@);
    let app_id = string_of(&trim_chars(&parts[0]));
    let second = string_of(&trim_chars(&parts[1]));
    if parts.len() >= 3 {
        assert(cols[2] == parts@[2]@);
        Some(
            UpdateAvailable {
                app_id,
                new_version: second,
                branch: string_of(&trim_chars(&parts[2])),
            },
        )
    } else {
        Some(UpdateAvailable { app_id, new_version: String::new(), branch: second })
    }
}

/// The updates that `output` lists, in its order.
pub fn parse_updates(output: &str) -> (list: Vec<UpdateAvailable>)
    ensures
        update_views(list@) == update_list(output@),
        list@.len() == update_list(output@).len(),
{
    let all = lines_of(&chars_of(output));
    let ghost text = views(all@);
    let ghost f = |line: Seq<char>| update_of_line(line);
    let mut list: Vec<UpdateAvailable> = Vec::new();
    assert(update_views(list@) == Seq::<UpdateView>::empty());
    let mut i: usize = 0;
    while i < all.len()
        invariant
            i <= all.len(),
            text == views(all@),
            f == (|line: Seq<char>| update_of_line(line)),
            update_views(list@) == collect(text.take(i as int), f),
        decreases all.len() - i,
    {
        assert(text.take(i + 1).drop_last() == text.take(i as int));
        assert(text.take(i + 1).last() == all@[i as int]@);
        match update_from_chars(&all[i]) {
            Some(u) => {
                let ghost before = update_views(list@);
                list.push(u);
                assert(update_views(list@) == before.push(u@));
            },
            None => {},
        }
        i += 1;
    }
    assert(text.take(all@.len() as int) == text);
    assert(update_views(list@).len() == list@.len());
    list
}

} // verus!
