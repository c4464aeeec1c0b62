//! The list of what an install would download, read from the package
//! manager's numbered table, and the decisions of the bounded probe that
//! obtains that table.
use crate::text::{
    chars_of, contains_chars, contains_seq, copy_range, drop_empty, eq_chars, find_chars,
    first_match, index_of, index_of_char, is_digit, is_digit_char, join, join_chars,
    keep_nonempty, lines, lines_of, opt_view, remove_all, remove_all_chars, split, split_chars,
    string_of, trim, trim_chars, views,
};
use vstd::prelude::*;

verus! {

/// One row of the download table.
#[derive(Debug, Clone, PartialEq, Eq)]
pub struct Dependency {
    pub name: String,
    pub download_size: String,
    pub installed_size: String,
}

/// A row of the download table as plain values.
pub struct DependencyView {
    pub name: Seq<char>,
    pub download_size: Seq<char>,
    pub installed_size: Seq<char>,
}

impl View for Dependency {
    type V = DependencyView;

    open spec fn view(&self) -> DependencyView {
        DependencyView {
            name: self.name@,
            download_size: self.download_size@,
            installed_size: self.installed_size@,
        }
    }
}

/// The views of a sequence of rows.
pub open spec fn dep_views(v: Seq<Dependency>) -> Seq<DependencyView> {
    Seq::new(v.len(), |i: int| v[i]@)
}

/// The view of an optional row.
pub open spec fn opt_dep_view(o: Option<Dependency>) -> Option<DependencyView> {
    match o {
        Some(d) => Some(d@),
        None => None,
    }
}

/// The phrase by which the package manager announces a missing runtime.
pub open spec fn runtime_marker() -> Seq<char> {
    "Required runtime for"@
}

/// The text that opens the runtime's reference in that announcement.
pub open spec fn runtime_opener() -> Seq<char> {
    "(runtime/"@
}

/// A row whose size is not known: both sizes read "Unknown".
pub open spec fn unknown_size(name: Seq<char>) -> DependencyView {
    DependencyView { name, download_size: "Unknown"@, installed_size: "Unknown"@ }
}

/// A line of the numbered table: after leading white space, one digit and
/// then a dot.
pub open spec fn is_numbered(line: Seq<char>) -> bool {
    let t = trim(line);
    t.len() >= 2 && is_digit(t[0]) && t[1] == '.'
}

/// `line` with tabs and non-breaking spaces turned into spaces.
pub open spec fn spaced(line: Seq<char>) -> Seq<char> {
    Seq::new(
        line.len(),
        |i: int|
            if line[i] == '\t' || line[i] == '\u{a0}' {
                ' '
            } else {
                line[i]
            },
    )
}

/// The fields of a table line: its non-empty pieces between spaces, tabs and
/// non-breaking spaces.
pub open spec fn fields(line: Seq<char>) -> Seq<Seq<char>> {
    drop_empty(split(spaced(line), ' '))
}

/// A field that can be part of a size: `<`, a unit, or anything that starts
/// with a digit.
pub open spec fn is_size_token(p: Seq<char>) -> bool {
    ||| p == "<"@
    ||| (p.len() > 0 && is_digit(p[0]))
    ||| p == "MB"@
    ||| p == "GB"@
    ||| p == "kB"@
    ||| p == "B"@
}

/// The first unbroken run of size fields in `parts[i..]`; `started` says that
/// the run has begun before `i`.
pub open spec fn size_run(parts: Seq<Seq<char>>, i: int, started: bool) -> Seq<Seq<char>>
    decreases parts.len() - i,
{
    if i < 0 || i >= parts.len() {
        Seq::empty()
    } else if is_size_token(parts[i]) {
        seq![parts[i]] + size_run(parts, i + 1, true)
    } else if started {
        Seq::empty()
    } else {
        size_run(parts, i + 1, false)
    }
}

/// A size as it is shown: without `<` and without a note that the download is
/// partial, trimmed.
pub open spec fn clean_size(raw: Seq<char>) -> Seq<char> {
    trim(
        remove_all(
            remove_all(remove_all(raw, "<"@, 0), "(parcial)"@, 0),
            "(partial)"@,
            0,
        ),
    )
}

/// The size that a table line states: the run of size fields from the fifth
/// field on, joined by spaces and cleaned.
pub open spec fn size_text(parts: Seq<Seq<char>>) -> Seq<char> {
    clean_size(join(size_run(parts, 4, false), " "@))
}

/// The row that a line states, if it is a well-formed line of the table: at
/// least five fields, the second a name, and a size that is not empty.
pub open spec fn dependency_of_line(line: Seq<char>) -> Option<DependencyView> {
    let parts = fields(line);
    if is_numbered(line) && parts.len() >= 5 && trim(parts[1]).len() > 0 && size_text(
        parts,
    ).len() > 0 {
        Some(
            DependencyView {
                name: trim(parts[1]),
                download_size: size_text(parts),
                installed_size: size_text(parts),
            },
        )
    } else {
        None
    }
}

/// The text from the start of `rest` up to the next runtime opener or closing
/// bracket, whichever comes first.
pub open spec fn runtime_name(rest: Seq<char>) -> Seq<char> {
    let stop = first_match(rest, runtime_opener(), 0);
    let piece = if stop <= rest.len() {
        rest.take(stop)
    } else {
        rest
    };
    piece.take(index_of(piece, ')', 0))
}

/// The runtime that a line announces as required, if it does.
pub open spec fn runtime_of_line(line: Seq<char>) -> Option<Seq<char>> {
    let at = first_match(line, runtime_opener(), 0);
    if contains_seq(line, runtime_marker()) && at <= line.len() {
        Some(runtime_name(line.skip(at + runtime_opener().len())))
    } else {
        None
    }
}

/// What has been read so far: the row of the requested package, the other
/// rows in order, and the runtime announced last.
pub struct Scan {
    pub main: Option<DependencyView>,
    pub others: Seq<DependencyView>,
    pub runtime: Option<Seq<char>>,
}

/// The state after one more line. A blank line changes nothing; a row named
/// like the requested package replaces the main row, any other row is added.
pub open spec fn scan_line(st: Scan, line: Seq<char>, app_id: Seq<char>) -> Scan {
    if trim(line).len() == 0 {
        st
    } else {
        let runtime = match runtime_of_line(line) {
            Some(r) => Some(r),
            None => st.runtime,
        };
        match dependency_of_line(line) {
            Some(d) => if d.name == app_id {
                Scan { main: Some(d), others: st.others, runtime }
            } else {
                Scan { main: st.main, others: st.others.push(d), runtime }
            },
            None => Scan { main: st.main, others: st.others, runtime },
        }
    }
}

/// The state after all of `lines`, read in order.
pub open spec fn scan(lines: Seq<Seq<char>>, app_id: Seq<char>) -> Scan
    decreases lines.len(),
{
    if lines.len() == 0 {
        Scan { main: None, others: Seq::empty(), runtime: None }
    } else {
        scan_line(scan(lines.drop_last(), app_id), lines.last(), app_id)
    }
}

/// The list that a finished scan gives: the main row first, then the others.
/// Where a runtime was announced and no main row was read, the requested
/// package and that runtime are listed with unknown sizes.
pub open spec fn finish(st: Scan, app_id: Seq<char>) -> Seq<DependencyView> {
    match (st.main, st.runtime) {
        (None, Some(r)) => seq![unknown_size(app_id)] + st.others.push(unknown_size(r)),
        (Some(m), _) => seq![m] + st.others,
        (None, None) => st.others,
    }
}

/// What installing `app_id` would download, as `output` states it.
pub open spec fn dependency_list(output: Seq<char>, app_id: Seq<char>) -> Seq<DependencyView> {
    finish(scan(lines(output), app_id), app_id)
}

/// In every state of a scan the main row is named like the requested package
/// and no other row is.
pub proof fn lemma_scan_names(lines: Seq<Seq<char>>, app_id: Seq<char>)
    ensures
        scan(lines, app_id).main matches Some(m) ==> m.name == app_id,
        forall|i: int|
            0 <= i < scan(lines, app_id).others.len() ==> (#[trigger] scan(
                lines,
                app_id,
            ).others[i]).name != app_id,
    decreases lines.len(),
{
    if lines.len() > 0 {
        lemma_scan_names(lines.drop_last(), app_id);
        let before = scan(lines.drop_last(), app_id);
        let after = scan(lines, app_id);
        assert(after == scan_line(before, lines.last(), app_id));
        assert forall|i: int| 0 <= i < after.others.len() implies (#[trigger] after.others[i]).name
            != app_id by {
            if i < before.others.len() {
                assert(after.others[i] == before.others[i]);
            }
        }
    }
}

/// The requested package comes first: where its row was read, or a runtime
/// was announced, the list begins with a row named like it, and no later row
/// taken from the table is named like it.
pub proof fn lemma_requested_package_first(output: Seq<char>, app_id: Seq<char>)
    ensures
        ({
            let st = scan(lines(output), app_id);
            let list = dependency_list(output, app_id);
            &&& st.main is Some || st.runtime is Some ==> list.len() >= 1 && list[0].name
                == app_id
            &&& st.main is Some ==> list == seq![st.main->0] + st.others
            &&& st.main is None && st.runtime is None ==> list == st.others
            &&& forall|i: int| 0 <= i < st.others.len() ==> (#[trigger] st.others[i]).name != app_id
        }),
{
    lemma_scan_names(lines(output), app_id);
}

/// Whether `line` is a line of the numbered table.
pub fn numbered_line(line: &Vec<char>) -> (b: bool)
    ensures
        b == is_numbered(line@),
{
    let t = trim_chars(line);
    t.len() >= 2 && is_digit_char(t[0]) && t[1] == '.'
}

/// The fields of a table line.
pub fn line_fields(line: &Vec<char>) -> (parts: Vec<Vec<char>>)
    ensures
        views(parts@) == fields(line@),
{
    let mut flat: Vec<char> = Vec::new();
    let mut i: usize = 0;
    while i < line.len()
        invariant
            i <= line.len(),
            flat@ == spaced(line@).take(i as int),
        decreases line.len() - i,
    {
        let c = line[i];
        if c == '\t' || c == '\u{a0}' {
            flat.push(' ');
        } else {
            flat.push(c);
        }
        assert(spaced(line@).take(i + 1) == spaced(line@).take(i as int).push(
            spaced(line@)[i as int],
        ));
        i += 1;
    }
    assert(spaced(line@).take(line@.len() as int) == spaced(line@));
    keep_nonempty(split_chars(&flat, ' '))
}

/// Whether `p` can be part of a size.
pub fn size_token(p: &Vec<char>) -> (b: bool)
    ensures
        b == is_size_token(p@),
{
    eq_chars(p, &chars_of("<")) || (p.len() > 0 && is_digit_char(p[0])) || eq_chars(
        p,
        &chars_of("MB"),
    ) || eq_chars(p, &chars_of("GB")) || eq_chars(p, &chars_of("kB")) || eq_chars(
        p,
        &chars_of("B"),
    )
}

/// The size that the fields of a table line state.
pub fn size_of_fields(parts: &Vec<Vec<char>>) -> (size: Vec<char>)
    ensures
        size@ == size_text(views(parts@)),
{
    let ghost all = views(parts@);
    let mut run: Vec<Vec<char>> = Vec::new();
    let mut started = false;
    let mut done = false;
    let mut i: usize = 4;
    while i < parts.len() && !done
        invariant
            4 <= i,
            all == views(parts@),
            size_run(all, 4, false) == views(run@) + (if done {
                Seq::<Seq<char>>::empty()
            } else {
                size_run(all, i as int, started)
            }),
        decreases parts.len() - i + (if done { 0int } else { 1int }),
    {
        if size_token(&parts[i]) {
            let ghost before = views(run@);
            started = true;
            run.push(parts[i].clone());
            assert(views(run@) == before.push(all[i as int]));
            assert(views(run@) + size_run(all, i + 1, true) == before + (seq![all[i as int]]
                + size_run(all, i + 1, true)));
            i += 1;
        } else if started {
            done = true;
        } else {
            i += 1;
        }
    }
    assert(views(run@) + Seq::<Seq<char>>::empty() == views(run@));
    let raw = join_chars(&run, &chars_of(" "));
    let a = remove_all_chars(&raw, &chars_of("<"));
    let b = remove_all_chars(&a, &chars_of("(parcial)"));
    let c = remove_all_chars(&b, &chars_of("(partial)"));
    trim_chars(&c)
}

/// The row that `line` states, if it is a well-formed line of the table.
pub fn dependency_from_chars(line: &Vec<char>) -> (row: Option<Dependency>)
    ensures
        opt_dep_view(row) == dependency_of_line(line@),
{
    if !numbered_line(line) {
        return None;
    }
    let parts = line_fields(line);
    if parts.len() < 5 {
        return None;
    }
    assert(views(parts@)[1] == parts@[1]@);
    let name = trim_chars(&parts[1]);
    let size = size_of_fields(&parts);
    if name.len() == 0 || size.len() == 0 {
        return None;
    }
    Some(
        Dependency {
            name: string_of(&name),
            download_size: string_of(&size),
            installed_size: string_of(&size),
        },
    )
}

/// The row that `line` states, if it is a well-formed line of the table.
pub fn parse_dependency_line(line: &str) -> (row: Option<Dependency>)
    ensures
        opt_dep_view(row) == dependency_of_line(line@),
{
    dependency_from_chars(&chars_of(line))
}

/// The runtime that `line` announces as required, if it does.
pub fn runtime_from_chars(line: &Vec<char>) -> (name: Option<String>)
    ensures
        opt_view(name) == runtime_of_line(line@),
{
    let opener = chars_of("(runtime/");
    if !contains_chars(line, &chars_of("Required runtime for")) {
        return None;
    }
    match find_chars(line, &opener) {
        None => None,
        Some(at) => {
            let width: usize = opener.len();
            assert(at + width <= line.len());
            let rest = copy_range(line, at + width, line.len());
            assert(rest@ == line@.skip(at + runtime_opener().len()));
            let piece = match find_chars(&rest, &opener) {
                Some(stop) => copy_range(&rest, 0, stop),
                None => rest,
            };
            let end = index_of_char(&piece, ')', 0);
            let name = copy_range(&piece, 0, end);
            Some(string_of(&name))
        },
    }
}

/// Whether the output of the quick probe says that a runtime is missing, so
/// that the table has to be fetched from an interactive run.
pub fn needs_runtime_probe(output: &str) -> (b: bool)
    ensures
        b == contains_seq(output@, runtime_marker()),
{
    contains_chars(&chars_of(output), &chars_of("Required runtime for"))
}

/// What was printed on both streams, as one text: standard output, a line
/// feed, standard error.
pub fn combine_output(stdout: &str, stderr: &str) -> (all: String)
    ensures
        all@ == stdout@ + "\n"@ + stderr@,
{
    let mut all = String::from_str(stdout);
    all.append("\n");
    all.append(stderr);
    all
}

/// What installing `app_id` would download, as `output` states it: the row of
/// `app_id` first, then the other rows in the order of the table.
pub fn parse_dependencies(output: &str, app_id: &str) -> (list: Vec<Dependency>)
    ensures
        dep_views(list@) == dependency_list(output@, app_id@),
        list@.len() == dependency_list(output@, app_id@).len(),
{
    let id = chars_of(app_id);
    let all = lines_of(&chars_of(output));
    let ghost text = views(all@);
    let mut main: Option<Dependency> = None;
    let mut others: Vec<Dependency> = Vec::new();
    let mut runtime: Option<String> = None;
    let mut i: usize = 0;
    assert(dep_views(others@) == Seq::<DependencyView>::empty());
    while i < all.len()
        invariant
            i <= all.len(),
            text == views(all@),
            id@ == app_id@,
            scan(text.take(i as int), app_id@) == (Scan {
                main: opt_dep_view(main),
                others: dep_views(others@),
                runtime: opt_view(runtime),
            }),
        decreases all.len() - i,
    {
        let line = &all[i];
        assert(text.take(i + 1).drop_last() == text.take(i as int));
        assert(text.take(i + 1).last() == line@);
        if trim_chars(line).len() > 0 {
            match runtime_from_chars(line) {
                Some(r) => {
                    runtime = Some(r);
                },
                None => {},
            }
            match dependency_from_chars(line) {
                Some(d) => {
                    if eq_chars(&chars_of(d.name.as_str()), &id) {
                        main = Some(d);
                    } else {
                        let ghost before = dep_views(others@);
                        others.push(d);
                        assert(dep_views(others@) == before.push(d@));
                    }
                },
                None => {},
            }
        }
        i += 1;
    }
    assert(text.take(all@.len() as int) == text);
    let mut list: Vec<Dependency> = Vec::new();
    match main {
        Some(m) => {
            list.push(m);
        },
        None => {
            match runtime {
                Some(r) => {
                    list.push(unknown_row(app_id));
                    others.push(unknown_row(r.as_str()));
                },
                None => {},
            }
        },
    }
    let ghost head = dep_views(list@);
    let ghost tail = dep_views(others@);
    let mut k: usize = 0;
    while k < others.len()
        invariant
            k <= others.len(),
            tail == dep_views(others@),
            dep_views(list@) == head + tail.take(k as int),
        decreases others.len() - k,
    {
        let ghost before = dep_views(list@);
        list.push(clone_row(&others[k]));
        assert(dep_views(list@) == before.push(tail[k as int]));
        assert(tail.take(k + 1) == tail.take(k as int).push(tail[k as int]));
        k += 1;
    }
    assert(tail.take(others@.len() as int) == tail);
    assert(dep_views(list@) == dependency_list(output@, app_id@));
    assert(dep_views(list@).len() == list@.len());
    list
}

/// A row for `name` whose sizes are not known.
pub fn unknown_row(name: &str) -> (row: Dependency)
    ensures
        row@ == unknown_size(name@),
{
    Dependency {
        name: String::from_str(name),
        download_size: String::from_str("Unknown"),
        installed_size: String::from_str("Unknown"),
    }
}

/// A copy of `row`.
pub fn clone_row(row: &Dependency) -> (copy: Dependency)
    ensures
        copy@ == row@,
{
    Dependency {
        name: row.name.clone(),
        download_size: row.download_size.clone(),
        installed_size: row.installed_size.clone(),
    }
}

/// Milliseconds after which the probe gives up.
pub const PROBE_TIMEOUT_MS: u64 = 7000;

/// Milliseconds the probe waits, once the table has begun, for its rest.
pub const PROBE_GRACE_MS: u64 = 500;

/// Milliseconds between two looks of the probe.
pub const PROBE_POLL_MS: u64 = 100;

/// What the probe does next.
#[derive(Debug, PartialEq, Eq, Structural, Clone, Copy)]
pub enum ProbeStep {
    /// Sleep for the polling interval and look again.
    Wait,
    /// The table has begun: wait for the grace period, then kill the process.
    GraceThenKill,
    /// The process has exited or time is up: kill it at once.
    Kill,
}

impl ProbeStep {
    /// The probe stops watching after this step.
    pub open spec fn ends(self) -> bool {
        self != ProbeStep::Wait
    }

    /// This step kills the probing process.
    pub open spec fn kills(self) -> bool {
        self == ProbeStep::GraceThenKill || self == ProbeStep::Kill
    }
}

/// The step that follows from what the probe has seen: whether a line of the
/// table was read, whether the process has exited, and the time that has
/// passed.
pub open spec fn probe_decision(found_list: bool, exited: bool, elapsed_ms: u64) -> ProbeStep {
    if elapsed_ms >= PROBE_TIMEOUT_MS {
        ProbeStep::Kill
    } else if found_list {
        ProbeStep::GraceThenKill
    } else if exited {
        ProbeStep::Kill
    } else {
        ProbeStep::Wait
    }
}

/// What the probe does next. It goes on only while nothing was found, the
/// process runs and time is left; however it ends, it kills the process.
pub fn probe_step(found_list: bool, exited: bool, elapsed_ms: u64) -> (step: ProbeStep)
    ensures
        step == probe_decision(found_list, exited, elapsed_ms),
        step.ends() ==> step.kills(),
        step.ends() <==> (found_list || exited || elapsed_ms >= PROBE_TIMEOUT_MS),
{
    if elapsed_ms >= PROBE_TIMEOUT_MS {
        ProbeStep::Kill
    } else if found_list {
        ProbeStep::GraceThenKill
    } else if exited {
        ProbeStep::Kill
    } else {
        ProbeStep::Wait
    }
}

/// Whether `line`, read from the probing process, is a line of the table.
pub fn is_list_line(line: &str) -> (b: bool)
    ensures
        b == is_numbered(line@),
{
    numbered_line(&chars_of(line))
}

} // verus!
