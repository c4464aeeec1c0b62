//! The listing of installed packages: applications, runtime references and
//! the extensions that belong to an application.
use crate::text::{
    chars_of, contains_chars, contains_seq, lemma_split_broken, lemma_split_concat,
    lemma_split_unbroken, lines, lines_of, opt_view, split, split_chars, starts_with,
    starts_with_chars, string_of, string_views, trim, trim_chars, views,
};
use vstd::prelude::*;

verus! {

/// The publisher that an identifier names: its second-to-last segment between
/// dots. An identifier of one segment names none.
pub open spec fn developer_of(id: Seq<char>) -> Option<Seq<char>> {
    let parts = split(id, '.');
    if parts.len() >= 2 {
        Some(parts[parts.len() - 2])
    } else {
        None
    }
}

/// The publisher label derived from a package identifier.
pub fn extract_developer(app_id: &str) -> (developer: Option<String>)
    ensures
        opt_view(developer) == developer_of(app_id@),
{
    let id = chars_of(app_id);
    developer_from_chars(&id)
}

/// The publisher label derived from an identifier given by its characters.
pub fn developer_from_chars(id: &Vec<char>) -> (developer: Option<String>)
    ensures
        opt_view(developer) == developer_of(id@),
{
    let parts = split_chars(id, '.');
    if parts.len() >= 2 {
        let s = string_of(&parts[parts.len() - 2]);
        assert(views(parts@)[parts@.len() - 2] == parts@[parts@.len() - 2]@);
        Some(s)
    } else {
        None
    }
}

/// An identifier without a dot names no publisher, and any other names one.
pub proof fn lemma_developer_absent(id: Seq<char>)
    ensures
        developer_of(id) is None <==> !id.contains('.'),
{
    if id.contains('.') {
        let at = choose|at: int| 0 <= at < id.len() && id[at] == '.';
        lemma_split_broken(id, '.', 0, 0, at);
    } else {
        lemma_split_unbroken(id, '.');
    }
}

/// The publisher is the segment before the last: in `front.publisher.last`
/// and in `publisher.last`, where `publisher` and `last` hold no dot, it is
/// `publisher`.
pub proof fn lemma_developer_is_second_to_last(
    front: Seq<char>,
    publisher: Seq<char>,
    last: Seq<char>,
)
    requires
        !publisher.contains('.'),
        !last.contains('.'),
    ensures
        developer_of(publisher + seq!['.'] + last) == Some(publisher),
        developer_of(front + seq!['.'] + (publisher + seq!['.'] + last)) == Some(publisher),
{
    let tail = publisher + seq!['.'] + last;
    lemma_split_unbroken(last, '.');
    lemma_split_unbroken(publisher, '.');
    lemma_split_concat(publisher, last, '.', 0, 0);
    assert(split(tail, '.') == seq![publisher, last]);
    lemma_split_concat(front, tail, '.', 0, 0);
    let all = split(front + seq!['.'] + tail, '.');
    assert(all == split(front, '.') + seq![publisher, last]);
    assert(all[all.len() - 2] == publisher);
}

/// An installed application.
#[derive(Debug, Clone, PartialEq, Eq)]
pub struct InstalledApp {
    pub app_id: String,
    pub name: String,
    pub version: String,
    pub summary: Option<String>,
    pub developer: Option<String>,
}

/// An installed application as plain values.
pub struct InstalledAppView {
    pub app_id: Seq<char>,
    pub name: Seq<char>,
    pub version: Seq<char>,
    pub summary: Option<Seq<char>>,
    pub developer: Option<Seq<char>>,
}

impl View for InstalledApp {
    type V = InstalledAppView;

    open spec fn view(&self) -> InstalledAppView {
        InstalledAppView {
            app_id: self.app_id@,
            name: self.name@,
            version: self.version@,
            summary: opt_view(self.summary),
            developer: opt_view(self.developer),
        }
    }
}

/// An installed extension and the application it extends.
#[derive(Debug, Clone, PartialEq, Eq)]
pub struct InstalledExtension {
    pub extension_id: String,
    pub name: String,
    pub version: String,
    pub parent_app_id: String,
}

/// An installed extension as plain values.
pub struct InstalledExtensionView {
    pub extension_id: Seq<char>,
    pub name: Seq<char>,
    pub version: Seq<char>,
    pub parent_app_id: Seq<char>,
}

impl View for InstalledExtension {
    type V = InstalledExtensionView;

    open spec fn view(&self) -> InstalledExtensionView {
        InstalledExtensionView {
            extension_id: self.extension_id@,
            name: self.name@,
            version: self.version@,
            parent_app_id: self.parent_app_id@,
        }
    }
}

/// Everything that is installed, by kind.
#[derive(Debug, Clone, PartialEq, Eq)]
pub struct InstalledPackagesResponse {
    pub apps: Vec<InstalledApp>,
    pub runtimes: Vec<String>,
    pub extensions: Vec<InstalledExtension>,
}

/// The installed packages as plain values.
pub struct InstalledPackagesView {
    pub apps: Seq<InstalledAppView>,
    pub runtimes: Seq<Seq<char>>,
    pub extensions: Seq<InstalledExtensionView>,
}

/// The views of a sequence of applications.
pub open spec fn app_views(v: Seq<InstalledApp>) -> Seq<InstalledAppView> {
    Seq::new(v.len(), |i: int| v[i]@)
}

/// The views of a sequence of extensions.
pub open spec fn extension_views(v: Seq<InstalledExtension>) -> Seq<InstalledExtensionView> {
    Seq::new(v.len(), |i: int| v[i]@)
}

impl View for InstalledPackagesResponse {
    type V = InstalledPackagesView;

    open spec fn view(&self) -> InstalledPackagesView {
        InstalledPackagesView {
            apps: app_views(self.apps@),
            runtimes: string_views(self.runtimes@),
            extensions: extension_views(self.extensions@),
        }
    }
}

/// A runtime row that may turn out to extend an application.
#[derive(Debug, Clone, PartialEq, Eq)]
pub struct Candidate {
    pub id: String,
    pub name: String,
    pub version: String,
    pub reference: String,
}

/// A candidate as plain values.
pub struct CandidateView {
    pub id: Seq<char>,
    pub name: Seq<char>,
    pub version: Seq<char>,
    pub reference: Seq<char>,
}

impl View for Candidate {
    type V = CandidateView;

    open spec fn view(&self) -> CandidateView {
        CandidateView {
            id: self.id@,
            name: self.name@,
            version: self.version@,
            reference: self.reference@,
        }
    }
}

/// The views of a sequence of candidates.
pub open spec fn candidate_views(v: Seq<Candidate>) -> Seq<CandidateView> {
    Seq::new(v.len(), |i: int| v[i]@)
}

/// What one row of the listing is.
#[derive(Debug, Clone, PartialEq, Eq)]
pub enum Row {
    /// An application.
    App(InstalledApp),
    /// A platform, SDK or driver, kept by its reference.
    Platform(String),
    /// A runtime row that is no platform component.
    Candidate(Candidate),
    /// A blank line or a row with fewer than six columns.
    Skipped,
}

/// A row as plain values.
pub enum RowView {
    App(InstalledAppView),
    Platform(Seq<char>),
    Candidate(CandidateView),
    Skipped,
}

impl View for Row {
    type V = RowView;

    open spec fn view(&self) -> RowView {
        match self {
            Row::App(a) => RowView::App(a@),
            Row::Platform(r) => RowView::Platform(r@),
            Row::Candidate(c) => RowView::Candidate(c@),
            Row::Skipped => RowView::Skipped,
        }
    }
}

/// Identifiers of platforms, SDKs and drivers: those that hold one of the
/// fixed name fragments.
pub open spec fn is_platform_component(id: Seq<char>) -> bool {
    ||| contains_seq(id, "org.freedesktop.Platform."@)
    ||| contains_seq(id, "org.freedesktop.Sdk."@)
    ||| contains_seq(id, ".Platform.GL32"@)
    ||| contains_seq(id, ".Platform.VAAPI"@)
    ||| contains_seq(id, ".Platform.Compat.i386"@)
    ||| contains_seq(id, ".Platform.codecs"@)
}

/// What a row of the listing is. Its columns, between tabs, are identifier,
/// name, version, summary, options and reference. A row whose options hold
/// `runtime` is a platform component or a candidate; any other is an
/// application.
pub open spec fn classify_row(line: Seq<char>) -> RowView {
    let parts = split(line, '\t');
    if trim(line).len() == 0 || parts.len() < 6 {
        RowView::Skipped
    } else if contains_seq(trim(parts[4]), "runtime"@) {
        if is_platform_component(trim(parts[0])) {
            RowView::Platform(trim(parts[5]))
        } else {
            RowView::Candidate(
                CandidateView {
                    id: trim(parts[0]),
                    name: trim(parts[1]),
                    version: trim(parts[2]),
                    reference: trim(parts[5]),
                },
            )
        }
    } else {
        RowView::App(
            InstalledAppView {
                app_id: trim(parts[0]),
                name: trim(parts[1]),
                version: trim(parts[2]),
                summary: if trim(parts[3]).len() > 0 {
                    Some(trim(parts[3]))
                } else {
                    None
                },
                developer: developer_of(trim(parts[0])),
            },
        )
    }
}

/// The rows sorted by kind, each kind in the order of the listing.
pub struct Sorted {
    pub apps: Seq<InstalledAppView>,
    pub platforms: Seq<Seq<char>>,
    pub candidates: Seq<CandidateView>,
}

/// The rows of `lines`, sorted by kind.
pub open spec fn sort_rows(lines: Seq<Seq<char>>) -> Sorted
    decreases lines.len(),
{
    if lines.len() == 0 {
        Sorted { apps: Seq::empty(), platforms: Seq::empty(), candidates: Seq::empty() }
    } else {
        let before = sort_rows(lines.drop_last());
        match classify_row(lines.last()) {
            RowView::App(a) => Sorted { apps: before.apps.push(a), ..before },
            RowView::Platform(r) => Sorted { platforms: before.platforms.push(r), ..before },
            RowView::Candidate(c) => Sorted { candidates: before.candidates.push(c), ..before },
            RowView::Skipped => before,
        }
    }
}

/// `app_id` is the identifier of a parent of `ext_id`: not empty, a prefix of
/// it, and shorter.
pub open spec fn is_parent(app_id: Seq<char>, ext_id: Seq<char>) -> bool {
    0 < app_id.len() < ext_id.len() && starts_with(ext_id, app_id)
}

/// The index of the first application at or after `k` that is a parent of
/// `ext_id`, or the number of applications.
pub open spec fn first_parent(apps: Seq<InstalledAppView>, ext_id: Seq<char>, k: int) -> int
    decreases apps.len() - k,
{
    if k < 0 || k >= apps.len() || is_parent(apps[k].app_id, ext_id) {
        k
    } else {
        first_parent(apps, ext_id, k + 1)
    }
}

/// The candidates bound to their parents, and the references of those that
/// have none.
pub struct Bound {
    pub extensions: Seq<InstalledExtensionView>,
    pub orphans: Seq<Seq<char>>,
}

/// Each of `candidates`, in order, bound to the first application that is its
/// parent, or counted as an orphan.
pub open spec fn bind(apps: Seq<InstalledAppView>, candidates: Seq<CandidateView>) -> Bound
    decreases candidates.len(),
{
    if candidates.len() == 0 {
        Bound { extensions: Seq::empty(), orphans: Seq::empty() }
    } else {
        let before = bind(apps, candidates.drop_last());
        let c = candidates.last();
        let at = first_parent(apps, c.id, 0);
        if 0 <= at < apps.len() {
            Bound {
                extensions: before.extensions.push(
                    InstalledExtensionView {
                        extension_id: c.id,
                        name: c.name,
                        version: c.version,
                        parent_app_id: apps[at].app_id,
                    },
                ),
                orphans: before.orphans,
            }
        } else {
            Bound { extensions: before.extensions, orphans: before.orphans.push(c.reference) }
        }
    }
}

/// What `output`, the listing of installed packages, says is installed:
/// the applications; the references of platform components followed by those
/// of candidates without a parent; and the extensions with their parents.
pub open spec fn installed_listing(output: Seq<char>) -> InstalledPackagesView {
    let sorted = sort_rows(lines(output));
    let bound = bind(sorted.apps, sorted.candidates);
    InstalledPackagesView {
        apps: sorted.apps,
        runtimes: sorted.platforms + bound.orphans,
        extensions: bound.extensions,
    }
}

/// `first_parent` finds the first parent: no application before it is one,
/// and it is one unless it is the number of applications.
pub proof fn lemma_first_parent(apps: Seq<InstalledAppView>, ext_id: Seq<char>, k: int)
    requires
        0 <= k <= apps.len(),
    ensures
        k <= first_parent(apps, ext_id, k) <= apps.len(),
        first_parent(apps, ext_id, k) < apps.len() ==> is_parent(
            apps[first_parent(apps, ext_id, k)].app_id,
            ext_id,
        ),
        forall|j: int|
            k <= j < first_parent(apps, ext_id, k) ==> !is_parent((#[trigger] apps[j]).app_id, ext_id),
    decreases apps.len() - k,
{
    if k < apps.len() && !is_parent(apps[k].app_id, ext_id) {
        lemma_first_parent(apps, ext_id, k + 1);
    }
}

/// No candidate is a platform component.
pub proof fn lemma_candidates_are_no_platform(lines: Seq<Seq<char>>)
    ensures
        forall|j: int|
            0 <= j < sort_rows(lines).candidates.len() ==> !is_platform_component(
                (#[trigger] sort_rows(lines).candidates[j]).id,
            ),
    decreases lines.len(),
{
    if lines.len() > 0 {
        lemma_candidates_are_no_platform(lines.drop_last());
        let before = sort_rows(lines.drop_last()).candidates;
        let after = sort_rows(lines).candidates;
        assert forall|j: int| 0 <= j < after.len() implies !is_platform_component(
            (#[trigger] after[j]).id,
        ) by {
            if j < before.len() {
                assert(after[j] == before[j]);
            } else {
                assert(classify_row(lines.last()) == RowView::Candidate(after[j]));
            }
        }
    }
}

/// Every bound extension is one of the candidates, and its parent is the
/// first application whose identifier is a parent of its own.
pub proof fn lemma_bound_extensions(apps: Seq<InstalledAppView>, candidates: Seq<CandidateView>)
    ensures
        forall|i: int|
            0 <= i < bind(apps, candidates).extensions.len() ==> {
                let e = #[trigger] bind(apps, candidates).extensions[i];
                &&& exists|j: int|
                    0 <= j < candidates.len() && (#[trigger] candidates[j]).id == e.extension_id
                &&& exists|k: int|
                    0 <= k < apps.len() && (#[trigger] apps[k]).app_id == e.parent_app_id
                &&& is_parent(e.parent_app_id, e.extension_id)
            },
    decreases candidates.len(),
{
    if candidates.len() > 0 {
        let rest = candidates.drop_last();
        lemma_bound_extensions(apps, rest);
        let c = candidates.last();
        let at = first_parent(apps, c.id, 0);
        lemma_first_parent(apps, c.id, 0);
        assert forall|i: int| 0 <= i < bind(apps, candidates).extensions.len() implies {
            let e = #[trigger] bind(apps, candidates).extensions[i];
            &&& exists|j: int|
                0 <= j < candidates.len() && (#[trigger] candidates[j]).id == e.extension_id
            &&& exists|k: int| 0 <= k < apps.len() && (#[trigger] apps[k]).app_id == e.parent_app_id
            &&& is_parent(e.parent_app_id, e.extension_id)
        } by {
            let e = bind(apps, candidates).extensions[i];
            if i < bind(apps, rest).extensions.len() {
                assert(e == bind(apps, rest).extensions[i]);
                let j = choose|j: int|
                    0 <= j < rest.len() && (#[trigger] rest[j]).id == e.extension_id;
                assert(candidates[j].id == e.extension_id);
            } else {
                assert(candidates[candidates.len() - 1].id == e.extension_id);
                assert(apps[at].app_id == e.parent_app_id);
            }
        }
    }
}

/// A platform component is never listed as an extension, and every extension
/// is listed with an application of the same listing whose identifier is a
/// shorter, non-empty prefix of its own.
pub proof fn lemma_extensions_belong_to_apps(output: Seq<char>)
    ensures
        forall|i: int|
            0 <= i < installed_listing(output).extensions.len() ==> {
                let e = #[trigger] installed_listing(output).extensions[i];
                &&& !is_platform_component(e.extension_id)
                &&& is_parent(e.parent_app_id, e.extension_id)
                &&& exists|k: int|
                    0 <= k < installed_listing(output).apps.len() && (
                    #[trigger] installed_listing(output).apps[k]).app_id == e.parent_app_id
            },
{
    let sorted = sort_rows(lines(output));
    let found = installed_listing(output);
    lemma_candidates_are_no_platform(lines(output));
    lemma_bound_extensions(sorted.apps, sorted.candidates);
    assert forall|i: int| 0 <= i < found.extensions.len() implies {
        let e = #[trigger] found.extensions[i];
        &&& !is_platform_component(e.extension_id)
        &&& is_parent(e.parent_app_id, e.extension_id)
        &&& exists|k: int|
            0 <= k < found.apps.len() && (#[trigger] found.apps[k]).app_id == e.parent_app_id
    } by {
        let e = bind(sorted.apps, sorted.candidates).extensions[i];
        let j = choose|j: int|
            0 <= j < sorted.candidates.len() && (#[trigger] sorted.candidates[j]).id
                == e.extension_id;
        assert(!is_platform_component(sorted.candidates[j].id));
        let k = choose|k: int|
            0 <= k < sorted.apps.len() && (#[trigger] sorted.apps[k]).app_id == e.parent_app_id;
        assert(found.apps[k].app_id == e.parent_app_id);
        assert(found.extensions[i] == e);
    }
}

/// Whether `id` names a platform, an SDK or a driver.
pub fn platform_component(id: &Vec<char>) -> (b: bool)
    ensures
        b == is_platform_component(id@),
{
    contains_chars(id, &chars_of("org.freedesktop.Platform.")) || contains_chars(
        id,
        &chars_of("org.freedesktop.Sdk."),
    ) || contains_chars(id, &chars_of(".Platform.GL32")) || contains_chars(
        id,
        &chars_of(".Platform.VAAPI"),
    ) || contains_chars(id, &chars_of(".Platform.Compat.i386")) || contains_chars(
        id,
        &chars_of(".Platform.codecs"),
    )
}

/// What the row `line` of the listing is.
pub fn classify_row_chars(line: &Vec<char>) -> (row: Row)
    ensures
        row@ == classify_row(line@),
{
    if trim_chars(line).len() == 0 {
        return Row::Skipped;
    }
    let parts = split_chars(line, '\t');
    if parts.len() < 6 {
        return Row::Skipped;
    }
    let ghost cols = views(parts@);
    assert(cols[0] == parts@[0]@ && cols[1] == parts@[1]@ && cols[2] == parts@[2]@);
    assert(cols[3] == parts@[3]@ && cols[4] == parts@[4]@ && cols[5] == parts@[5]@);
    let id = trim_chars(&parts[0]);
    let name = string_of(&trim_chars(&parts[1]));
    let version = string_of(&trim_chars(&parts[2]));
    let options = trim_chars(&parts[4]);
    let reference = string_of(&trim_chars(&parts[5]));
    if contains_chars(&options, &chars_of("runtime")) {
        if platform_component(&id) {
            Row::Platform(reference)
        } else {
            Row::Candidate(Candidate { id: string_of(&id), name, version, reference })
        }
    } else {
        let about = trim_chars(&parts[3]);
        let summary = if about.len() > 0 {
            Some(string_of(&about))
        } else {
            None
        };
        Row::App(
            InstalledApp {
                app_id: string_of(&id),
                name,
                version,
                summary,
                developer: developer_from_chars(&id),
            },
        )
    }
}

/// What the row `line` of the listing is.
pub fn classify_row_line(line: &str) -> (row: Row)
    ensures
        row@ == classify_row(line@),
{
    classify_row_chars(&chars_of(line))
}

/// The index of the first of `apps` that is a parent of `ext_id`, if any.
pub fn find_parent(apps: &Vec<InstalledApp>, ext_id: &Vec<char>) -> (at: Option<usize>)
    ensures
        match at {
            Some(k) => k < apps@.len() && k == first_parent(app_views(apps@), ext_id@, 0),
            None => first_parent(app_views(apps@), ext_id@, 0) >= apps@.len(),
        },
{
    let ghost all = app_views(apps@);
    let mut k: usize = 0;
    while k < apps.len()
        invariant
            k <= apps.len(),
            all == app_views(apps@),
            first_parent(all, ext_id@, 0) == first_parent(all, ext_id@, k as int),
        decreases apps.len() - k,
    {
        let id = chars_of(apps[k].app_id.as_str());
        assert(all[k as int].app_id == id@);
        if id.len() > 0 && id.len() < ext_id.len() && starts_with_chars(ext_id, &id) {
            return Some(k);
        }
        k += 1;
    }
    None
}

/// What `output`, the listing of installed packages, says is installed.
pub fn parse_installed(output: &str) -> (found: InstalledPackagesResponse)
    ensures
        found@ == installed_listing(output@),
{
    let all = lines_of(&chars_of(output));
    let ghost text = views(all@);
    let mut apps: Vec<InstalledApp> = Vec::new();
    let mut runtimes: Vec<String> = Vec::new();
    let mut candidates: Vec<Candidate> = Vec::new();
    assert(app_views(apps@) == Seq::<InstalledAppView>::empty());
    assert(string_views(runtimes@) == Seq::<Seq<char>>::empty());
    assert(candidate_views(candidates@) == Seq::<CandidateView>::empty());
    let mut i: usize = 0;
    while i < all.len()
        invariant
            i <= all.len(),
            text == views(all@),
            sort_rows(text.take(i as int)) == (Sorted {
                apps: app_views(apps@),
                platforms: string_views(runtimes@),
                candidates: candidate_views(candidates@),
            }),
        decreases all.len() - i,
    {
        assert(text.take(i + 1).drop_last() == text.take(i as int));
        assert(text.take(i + 1).last() == all@[i as int]@);
        match classify_row_chars(&all[i]) {
            Row::App(a) => {
                let ghost before = app_views(apps@);
                apps.push(a);
                assert(app_views(apps@) == before.push(a@));
            },
            Row::Platform(r) => {
                let ghost before = string_views(runtimes@);
                runtimes.push(r);
                assert(string_views(runtimes@) == before.push(r@));
            },
            Row::Candidate(c) => {
                let ghost before = candidate_views(candidates@);
                candidates.push(c);
                assert(candidate_views(candidates@) == before.push(c@));
            },
            Row::Skipped => {},
        }
        i += 1;
    }
    assert(text.take(all@.len() as int) == text);
    let ghost sorted = sort_rows(text);
    let ghost pool = candidate_views(candidates@);
    let mut extensions: Vec<InstalledExtension> = Vec::new();
    assert(extension_views(extensions@) == Seq::<InstalledExtensionView>::empty());
    assert(sorted.platforms + Seq::<Seq<char>>::empty() == sorted.platforms);
    let mut k: usize = 0;
    while k < candidates.len()
        invariant
            k <= candidates.len(),
            pool == candidate_views(candidates@),
            sorted.apps == app_views(apps@),
            extension_views(extensions@) == bind(sorted.apps, pool.take(k as int)).extensions,
            string_views(runtimes@) == sorted.platforms + bind(
                sorted.apps,
                pool.take(k as int),
            ).orphans,
        decreases candidates.len() - k,
    {
        assert(pool.take(k + 1).drop_last() == pool.take(k as int));
        assert(pool.take(k + 1).last() == candidates@[k as int]@);
        let c = &candidates[k];
        let ghost orphans = bind(sorted.apps, pool.take(k as int)).orphans;
        match find_parent(&apps, &chars_of(c.id.as_str())) {
            Some(at) => {
                let ghost before = extension_views(extensions@);
                let e = InstalledExtension {
                    extension_id: c.id.clone(),
                    name: c.name.clone(),
                    version: c.version.clone(),
                    parent_app_id: apps[at].app_id.clone(),
                };
                extensions.push(e);
                assert(extension_views(extensions@) == before.push(e@));
            },
            None => {
                let ghost before = string_views(runtimes@);
                let r = c.reference.clone();
                runtimes.push(r);
                assert(string_views(runtimes@) == before.push(r@));
                assert(before.push(r@) == sorted.platforms + orphans.push(r@));
            },
        }
        k += 1;
    }
    assert(pool.take(candidates@.len() as int) == pool);
    InstalledPackagesResponse { apps, runtimes, extensions }
}

} // verus!
