//! The per-file status table.
//!
//! `StatusStore` maps a file's path to its last observed status: display
//! name, last observation time and status text.  `observe` is the sole
//! arbiter of whether a file's status changed; `summary` renders one line
//! per file currently present in the watched directory.

use vstd::prelude::*;
use vstd::string::StringExecFns;

use crate::clock::date_text;
use crate::clock::norm_mtime;
use crate::clock::normalize_mtime;
use crate::clock::render_date;
use crate::clock::valid_mtime;
use crate::text::base_name;
use crate::text::base_name_of;
use crate::text::compute_status;
use crate::text::status_text;

verus! {

/// The abstract value of one file's status entry.
pub struct StatusView {
    pub name: Seq<char>,
    pub last_update: Option<i64>,
    pub text: Seq<char>,
}

/// One watched file's last observed status.
pub struct FileStatus {
    pub path: String,
    pub name: String,
    pub last_update: Option<i64>,
    pub text: String,
}

impl View for FileStatus {
    type V = StatusView;

    open spec fn view(&self) -> StatusView {
        StatusView { name: self.name@, last_update: self.last_update, text: self.text@ }
    }
}

/// The entry an observation of `path` with content `content` at `mtime`
/// leaves in the table.
pub open spec fn observed_entry(path: Seq<char>, content: Seq<char>, mtime: Option<i64>) -> StatusView {
    StatusView { name: base_name(path), last_update: norm_mtime(mtime), text: status_text(content) }
}

impl FileStatus {
    pub open spec fn wf(&self) -> bool {
        &&& self.name@ == base_name(self.path@)
        &&& valid_mtime(self.last_update)
    }

    /// Creates the entry for a first observation of `path`.
    pub fn new(path: String, content: &str, mtime: Option<i64>) -> (s: FileStatus)
        ensures
            s.wf(),
            s.path@ == path@,
            s@ == observed_entry(path@, content@, mtime),
    {
        let name = base_name_of(path.as_str());
        let text = compute_status(content);
        let last_update = normalize_mtime(mtime);
        FileStatus { path, name, last_update, text }
    }
}

/// The table as a map from path to status entry; a later entry for the same
/// path supersedes an earlier one.
pub open spec fn store_map(entries: Seq<FileStatus>) -> Map<Seq<char>, StatusView>
    decreases entries.len(),
{
    if entries.len() == 0 {
        Map::empty()
    } else {
        store_map(entries.drop_last()).insert(entries.last().path@, entries.last()@)
    }
}

/// Maps each watched file's path to its last observed status.
pub struct StatusStore {
    entries: Vec<FileStatus>,
}

impl View for StatusStore {
    type V = Map<Seq<char>, StatusView>;

    closed spec fn view(&self) -> Map<Seq<char>, StatusView> {
        store_map(self.entries@)
    }
}

proof fn lemma_store_map_domain(entries: Seq<FileStatus>, p: Seq<char>)
    ensures
        store_map(entries).contains_key(p) <==> exists|i: int|
            0 <= i < entries.len() && entries[i].path@ == p,
    decreases entries.len(),
{
    if entries.len() > 0 {
        lemma_store_map_domain(entries.drop_last(), p);
        if store_map(entries).contains_key(p) {
            if entries.last().path@ != p {
                let i = choose|i: int|
                    0 <= i < entries.drop_last().len() && entries.drop_last()[i].path@ == p;
                assert(entries[i].path@ == p);
            } else {
                assert(entries[entries.len() - 1].path@ == p);
            }
        }
        if exists|i: int| 0 <= i < entries.len() && entries[i].path@ == p {
            let i = choose|i: int| 0 <= i < entries.len() && entries[i].path@ == p;
            if i < entries.len() - 1 {
                assert(entries.drop_last()[i].path@ == p);
            }
        }
    }
}

/// No two entries hold the same path.
pub open spec fn paths_unique(entries: Seq<FileStatus>) -> bool {
    forall|i: int, j: int|
        0 <= i < j < entries.len() ==> entries[i].path@ != entries[j].path@
}

proof fn lemma_store_map_at(entries: Seq<FileStatus>, i: int)
    requires
        paths_unique(entries),
        0 <= i < entries.len(),
    ensures
        store_map(entries).contains_key(entries[i].path@),
        store_map(entries)[entries[i].path@] == entries[i]@,
    decreases entries.len(),
{
    if i == entries.len() - 1 {
        assert(entries.last() == entries[i]);
    } else {
        assert(paths_unique(entries.drop_last())) by {
            assert forall|a: int, b: int|
                0 <= a < b < entries.drop_last().len() implies entries.drop_last()[a].path@
                != entries.drop_last()[b].path@ by {
                assert(entries.drop_last()[a] == entries[a]);
                assert(entries.drop_last()[b] == entries[b]);
            }
        }
        assert(entries.drop_last()[i] == entries[i]);
        lemma_store_map_at(entries.drop_last(), i);
        assert(entries[i].path@ != entries.last().path@);
    }
}

proof fn lemma_store_map_update(entries: Seq<FileStatus>, i: int, e: FileStatus)
    requires
        paths_unique(entries),
        0 <= i < entries.len(),
        entries[i].path@ == e.path@,
    ensures
        store_map(entries.update(i, e)) =~= store_map(entries).insert(e.path@, e@),
    decreases entries.len(),
{
    let upd = entries.update(i, e);
    if i == entries.len() - 1 {
        assert(upd.drop_last() =~= entries.drop_last());
        assert(upd.last() == e);
        assert(store_map(upd) == store_map(entries.drop_last()).insert(e.path@, e@));
        assert(store_map(entries).insert(e.path@, e@) =~= store_map(entries.drop_last()).insert(
            e.path@,
            e@,
        ));
    } else {
        assert(paths_unique(entries.drop_last())) by {
            assert forall|a: int, b: int|
                0 <= a < b < entries.drop_last().len() implies entries.drop_last()[a].path@
                != entries.drop_last()[b].path@ by {
                assert(entries.drop_last()[a] == entries[a]);
                assert(entries.drop_last()[b] == entries[b]);
            }
        }
        assert(entries.drop_last()[i] == entries[i]);
        lemma_store_map_update(entries.drop_last(), i, e);
        assert(upd.drop_last() =~= entries.drop_last().update(i, e));
        assert(upd.last() == entries.last());
        assert(entries[i].path@ != entries.last().path@);
        assert(store_map(upd) == store_map(entries.drop_last().update(i, e)).insert(
            entries.last().path@,
            entries.last()@,
        ));
    }
}

/// The abstract value of one startup-scan item: a file's path, its content
/// if the read succeeded, and its modification time if one was obtainable.
pub struct ScanItemView {
    pub path: Seq<char>,
    pub content: Option<Seq<char>>,
    pub mtime: Option<i64>,
}

/// One item of a startup scan of the watched directory.
pub struct ScanItem {
    pub path: String,
    pub content: Option<String>,
    pub mtime: Option<i64>,
}

impl View for ScanItem {
    type V = ScanItemView;

    open spec fn view(&self) -> ScanItemView {
        ScanItemView { path: self.path@, content: self.content.deep_view(), mtime: self.mtime }
    }
}

impl DeepView for ScanItem {
    type V = ScanItemView;

    open spec fn deep_view(&self) -> ScanItemView {
        self.view()
    }
}

/// The table after one scan item: a successful read is an observation, a
/// failed read leaves the table as it is.
pub open spec fn observe_one(
    m: Map<Seq<char>, StatusView>,
    it: ScanItemView,
) -> Map<Seq<char>, StatusView> {
    match it.content {
        Some(c) => m.insert(it.path, observed_entry(it.path, c, it.mtime)),
        None => m,
    }
}

/// The table after a whole scan, applied in scan order.
pub open spec fn scan_fold(
    m: Map<Seq<char>, StatusView>,
    items: Seq<ScanItemView>,
) -> Map<Seq<char>, StatusView>
    decreases items.len(),
{
    if items.len() == 0 {
        m
    } else {
        scan_fold(observe_one(m, items[0]), items.drop_first())
    }
}

/// The summary line of one entry: its status text and its last observation
/// date.
pub open spec fn line_of(st: StatusView) -> Seq<char> {
    st.text + " at "@ + date_text(st.last_update) + "\n"@
}

/// The whole summary: the lines of the listed files that have an entry, in
/// listing order; a listed file without an entry contributes nothing.
pub open spec fn summary_spec(
    listing: Seq<Seq<char>>,
    m: Map<Seq<char>, StatusView>,
) -> Seq<char>
    decreases listing.len(),
{
    if listing.len() == 0 {
        Seq::empty()
    } else {
        (if m.contains_key(listing[0]) {
            line_of(m[listing[0]])
        } else {
            Seq::empty()
        }) + summary_spec(listing.drop_first(), m)
    }
}

/// `needle` occurs contiguously inside `hay`.
pub open spec fn contains_slice(hay: Seq<char>, needle: Seq<char>) -> bool {
    exists|a: int|
        0 <= a && a + needle.len() <= hay.len() && #[trigger] hay.subrange(
            a,
            a + needle.len() as int,
        ) == needle
}

impl StatusStore {
    /// Paths are unique and every entry is well formed.
    pub closed spec fn wf(&self) -> bool {
        &&& paths_unique(self.entries@)
        &&& forall|i: int| 0 <= i < self.entries@.len() ==> (#[trigger] self.entries@[i]).wf()
    }

    pub fn new() -> (s: StatusStore)
        ensures
            s.wf(),
            s@ =~= Map::<Seq<char>, StatusView>::empty(),
    {
        StatusStore { entries: Vec::new() }
    }

    fn find(&self, path: &String) -> (r: Option<usize>)
        ensures
            match r {
                Some(i) => i < self.entries@.len() && self.entries@[i as int].path@ == path@,
                None => forall|i: int|
                    0 <= i < self.entries@.len() ==> (#[trigger] self.entries@[i]).path@ != path@,
            },
    {
        let mut i: usize = 0;
        let n = self.entries.len();
        while i < n
            invariant
                0 <= i <= n,
                n == self.entries@.len(),
                forall|j: int| 0 <= j < i ==> (#[trigger] self.entries@[j]).path@ != path@,
            decreases n - i,
        {
            if self.entries[i].path.eq(path) {
                return Some(i);
            }
            i = i + 1;
        }
        None
    }

    /// Whether the table holds an entry for `path`.
    pub fn contains(&self, path: &String) -> (r: bool)
        ensures
            r == self@.contains_key(path@),
    {
        proof {
            lemma_store_map_domain(self.entries@, path@);
        }
        match self.find(path) {
            Some(_) => true,
            None => false,
        }
    }

    /// Whether an observation of `path` with this status text counts as a
    /// change: always on first observation, afterwards exactly when the
    /// text differs from the stored one.
    pub open spec fn observe_changed(
        m: Map<Seq<char>, StatusView>,
        path: Seq<char>,
        content: Seq<char>,
    ) -> bool {
        !m.contains_key(path) || m[path].text != status_text(content)
    }

    /// Inserts or updates the entry for `path` from a successful read of
    /// its content, and reports whether the status text changed.
    pub fn observe(&mut self, path: String, content: &str, mtime: Option<i64>) -> (changed: bool)
        requires
            old(self).wf(),
        ensures
            final(self).wf(),
            changed == Self::observe_changed(old(self)@, path@, content@),
            final(self)@ =~= old(self)@.insert(path@, observed_entry(path@, content@, mtime)),
    {
        proof {
            lemma_store_map_domain(self.entries@, path@);
        }
        match self.find(&path) {
            None => {
                let entry = FileStatus::new(path, content, mtime);
                self.entries.push(entry);
                proof {
                    assert(self.entries@.drop_last() =~= old(self).entries@);
                }
                true
            },
            Some(i) => {
                proof {
                    lemma_store_map_at(self.entries@, i as int);
                }
                let text = compute_status(content);
                let changed = !text.eq(&self.entries[i].text);
                let entry = FileStatus {
                    path: self.entries[i].path.clone(),
                    name: self.entries[i].name.clone(),
                    last_update: normalize_mtime(mtime),
                    text,
                };
                proof {
                    lemma_store_map_update(self.entries@, i as int, entry);
                }
                self.entries[i] = entry;
                changed
            },
        }
    }

    /// Ingests a startup scan of the watched directory: one observation per
    /// successfully read file, in scan order.
    pub fn observe_all(&mut self, items: &Vec<ScanItem>)
        requires
            old(self).wf(),
        ensures
            final(self).wf(),
            final(self)@ == scan_fold(old(self)@, items.deep_view()),
    {
        let ghost scans = items.deep_view();
        proof {
            assert(scans.skip(0) =~= scans);
        }
        let n = items.len();
        let mut k: usize = 0;
        while k < n
            invariant
                0 <= k <= n,
                n == items@.len(),
                scans == items.deep_view(),
                self.wf(),
                scan_fold(old(self)@, scans) == scan_fold(self@, scans.skip(k as int)),
            decreases n - k,
        {
            proof {
                assert(scans.skip(k as int)[0] == scans[k as int]);
                assert(scans.skip(k as int).drop_first() =~= scans.skip(k as int + 1));
                assert(scans[k as int] == items@[k as int]@);
            }
            let ghost prev_map = self@;
            match &items[k].content {
                Some(c) => {
                    let path = items[k].path.clone();
                    let mtime = items[k].mtime;
                    self.observe(path, c.as_str(), mtime);
                    proof {
                        assert(items@[k as int]@.content == Some(c@));
                        assert(self@ =~= observe_one(prev_map, scans[k as int]));
                    }
                },
                None => {},
            }
            k = k + 1;
        }
        proof {
            assert(scans.skip(n as int) =~= Seq::<ScanItemView>::empty());
        }
    }

    /// Renders the summary: one line per file of `listing` that has a
    /// stored entry, in listing order.
    pub fn summary(&self, listing: &Vec<String>) -> (r: String)
        requires
            self.wf(),
        ensures
            r@ == summary_spec(listing.deep_view(), self@),
    {
        let ghost paths = listing.deep_view();
        let mut out = String::new();
        proof {
            assert(paths.skip(0) =~= paths);
            assert(out@ + summary_spec(paths, self@) =~= summary_spec(paths, self@));
        }
        let n = listing.len();
        let mut k: usize = 0;
        while k < n
            invariant
                0 <= k <= n,
                n == listing@.len(),
                paths == listing.deep_view(),
                self.wf(),
                summary_spec(paths, self@) == out@ + summary_spec(paths.skip(k as int), self@),
            decreases n - k,
        {
            proof {
                assert(paths.skip(k as int)[0] == paths[k as int]);
                assert(paths.skip(k as int).drop_first() =~= paths.skip(k as int + 1));
                lemma_store_map_domain(self.entries@, paths[k as int]);
                assert(paths[k as int] == listing@[k as int]@);
            }
            let ghost prev = out@;
            match self.find(&listing[k]) {
                Some(i) => {
                    proof {
                        lemma_store_map_at(self.entries@, i as int);
                        assert(self.entries@[i as int].wf());
                    }
                    let entry = &self.entries[i];
                    let date = render_date(entry.last_update);
                    out.append(entry.text.as_str());
                    out.append(" at ");
                    out.append(date.as_str());
                    out.append("\n");
                    proof {
                        assert(out@ =~= prev + line_of(self@[paths[k as int]]));
                        assert(out@ + summary_spec(paths.skip(k as int + 1), self@) =~= prev
                            + summary_spec(paths.skip(k as int), self@));
                    }
                },
                None => {
                    proof {
                        assert(summary_spec(paths.skip(k as int), self@) =~= summary_spec(
                            paths.skip(k as int + 1),
                            self@,
                        ));
                    }
                },
            }
            k = k + 1;
        }
        proof {
            assert(paths.skip(n as int) =~= Seq::<Seq<char>>::empty());
        }
        out
    }
}

proof fn lemma_scan_fold_other(m: Map<Seq<char>, StatusView>, items: Seq<ScanItemView>, p: Seq<char>)
    requires
        forall|j: int| 0 <= j < items.len() ==> (#[trigger] items[j]).path != p,
    ensures
        scan_fold(m, items).contains_key(p) == m.contains_key(p),
        m.contains_key(p) ==> scan_fold(m, items)[p] == m[p],
    decreases items.len(),
{
    if items.len() > 0 {
        let m1 = observe_one(m, items[0]);
        assert(m1.contains_key(p) == m.contains_key(p));
        assert forall|j: int| 0 <= j < items.drop_first().len() implies (#[trigger] items.drop_first()[j]).path
            != p by {
            assert(items.drop_first()[j] == items[j + 1]);
        }
        lemma_scan_fold_other(m1, items.drop_first(), p);
    }
}

/// A file whose content was read during the scan ends up in the table with
/// the status text of that content (taking its last scan item for the
/// path, should the scan list a path twice).
pub proof fn lemma_first_observation(
    m: Map<Seq<char>, StatusView>,
    items: Seq<ScanItemView>,
    i: int,
)
    requires
        0 <= i < items.len(),
        items[i].content is Some,
        forall|j: int| i < j < items.len() ==> (#[trigger] items[j]).path != items[i].path,
    ensures
        scan_fold(m, items).contains_key(items[i].path),
        scan_fold(m, items)[items[i].path] == observed_entry(
            items[i].path,
            items[i].content->0,
            items[i].mtime,
        ),
    decreases items.len(),
{
    let m1 = observe_one(m, items[0]);
    if i == 0 {
        assert(m1.contains_key(items[0].path));
        assert(m1[items[0].path] == observed_entry(
            items[0].path,
            items[0].content->0,
            items[0].mtime,
        ));
        assert forall|j: int| 0 <= j < items.drop_first().len() implies (#[trigger] items.drop_first()[j]).path
            != items[0].path by {
            assert(items.drop_first()[j] == items[j + 1]);
        }
        lemma_scan_fold_other(m1, items.drop_first(), items[0].path);
    } else {
        assert forall|j: int|
            i - 1 < j < items.drop_first().len() implies (#[trigger] items.drop_first()[j]).path
            != items.drop_first()[i - 1].path by {
            assert(items.drop_first()[j] == items[j + 1]);
            assert(items.drop_first()[i - 1] == items[i]);
        }
        assert(items.drop_first()[i - 1] == items[i]);
        lemma_first_observation(m1, items.drop_first(), i - 1);
    }
}

/// The summary holds the line of every listed file that has an entry.
pub proof fn lemma_summary_has_line(
    listing: Seq<Seq<char>>,
    m: Map<Seq<char>, StatusView>,
    i: int,
)
    requires
        0 <= i < listing.len(),
        m.contains_key(listing[i]),
    ensures
        contains_slice(summary_spec(listing, m), line_of(m[listing[i]])),
    decreases listing.len(),
{
    let line = line_of(m[listing[i]]);
    let head: Seq<char> = if m.contains_key(listing[0]) {
        line_of(m[listing[0]])
    } else {
        Seq::empty()
    };
    let rest = summary_spec(listing.drop_first(), m);
    let whole = summary_spec(listing, m);
    assert(whole == head + rest);
    if i == 0 {
        assert(whole.subrange(0, 0 + line.len() as int) =~= line);
        assert(contains_slice(whole, line));
    } else {
        assert(listing.drop_first()[i - 1] == listing[i]);
        lemma_summary_has_line(listing.drop_first(), m, i - 1);
        let a = choose|a: int|
            0 <= a && a + line.len() <= rest.len() && #[trigger] rest.subrange(
                a,
                a + line.len() as int,
            ) == line;
        let b = head.len() as int + a;
        assert(whole.subrange(b, b + line.len() as int) =~= rest.subrange(
            a,
            a + line.len() as int,
        ));
        assert(whole.subrange(b, b + line.len() as int) == line);
        assert(contains_slice(whole, line));
    }
}

/// The summary ignores a stale entry: an entry for a path that is no
/// longer listed contributes nothing, as if it were not in the table.
pub proof fn lemma_summary_skips_stale(
    listing: Seq<Seq<char>>,
    m: Map<Seq<char>, StatusView>,
    p: Seq<char>,
)
    requires
        !listing.contains(p),
    ensures
        summary_spec(listing, m.remove(p)) == summary_spec(listing, m),
    decreases listing.len(),
{
    if listing.len() > 0 {
        assert(listing[0] != p);
        assert(!listing.drop_first().contains(p)) by {
            if listing.drop_first().contains(p) {
                let j = choose|j: int|
                    0 <= j < listing.drop_first().len() && listing.drop_first()[j] == p;
                assert(listing[j + 1] == p);
            }
        }
        lemma_summary_skips_stale(listing.drop_first(), m, p);
    }
}

/// A file present at startup whose content was read appears in the initial
/// summary with the status text of that content, even if never modified
/// afterwards.
pub proof fn lemma_first_observation_in_summary(
    m0: Map<Seq<char>, StatusView>,
    items: Seq<ScanItemView>,
    listing: Seq<Seq<char>>,
    i: int,
    k: int,
)
    requires
        0 <= i < items.len(),
        items[i].content is Some,
        forall|j: int| i < j < items.len() ==> (#[trigger] items[j]).path != items[i].path,
        0 <= k < listing.len(),
        listing[k] == items[i].path,
    ensures
        ({
            let m = scan_fold(m0, items);
            &&& m[items[i].path].text == status_text(items[i].content->0)
            &&& contains_slice(summary_spec(listing, m), line_of(m[items[i].path]))
        }),
{
    lemma_first_observation(m0, items, i);
    lemma_summary_has_line(listing, scan_fold(m0, items), k);
}

} // verus!
