use crate::renconstruct::config::{BuildOption, KnownBuildOption};
use crate::text::{lex_le, spec_ends_with, spec_file_stem, str_ends_with, str_lex_le};
use vstd::prelude::*;

verus! {

/// The fixed lowercase name of a known target; a custom target passes
/// through verbatim.
pub open spec fn spec_canonical_name(b: BuildOption) -> Seq<char> {
    match b {
        BuildOption::Known(k) => match k {
            KnownBuildOption::Pc => "pc"@,
            KnownBuildOption::Win => "win"@,
            KnownBuildOption::Linux => "linux"@,
            KnownBuildOption::Mac => "mac"@,
            KnownBuildOption::Web => "web"@,
            KnownBuildOption::Steam => "steam"@,
            KnownBuildOption::Market => "market"@,
            KnownBuildOption::AndroidApk => "android_apk"@,
            KnownBuildOption::AndroidAab => "android_aab"@,
        },
        BuildOption::Custom(s) => s@,
    }
}

/// The names of the enabled targets, in configuration order.
pub open spec fn spec_active_builds(builds: Seq<(BuildOption, bool)>) -> Seq<Seq<char>>
    decreases builds.len(),
{
    if builds.len() == 0 {
        Seq::<Seq<char>>::empty()
    } else {
        spec_active_builds(builds.drop_last()) + (if builds.last().1 {
            seq![spec_canonical_name(builds.last().0)]
        } else {
            Seq::<Seq<char>>::empty()
        })
    }
}

/// The canonical name of one target.
pub fn canonical_name(b: &BuildOption) -> (r: String)
    ensures
        r@ == spec_canonical_name(*b),
{
    match b {
        BuildOption::Known(k) => match k {
            KnownBuildOption::Pc => String::from_str("pc"),
            KnownBuildOption::Win => String::from_str("win"),
            KnownBuildOption::Linux => String::from_str("linux"),
            KnownBuildOption::Mac => String::from_str("mac"),
            KnownBuildOption::Web => String::from_str("web"),
            KnownBuildOption::Steam => String::from_str("steam"),
            KnownBuildOption::Market => String::from_str("market"),
            KnownBuildOption::AndroidApk => String::from_str("android_apk"),
            KnownBuildOption::AndroidAab => String::from_str("android_aab"),
        },
        BuildOption::Custom(s) => s.clone(),
    }
}

/// Projects the enabled targets of a configuration into their canonical
/// names, keeping configuration order.
pub fn active_builds(builds: &Vec<(BuildOption, bool)>) -> (r: Vec<String>)
    ensures
        r.deep_view() == spec_active_builds(builds@),
{
    let n = builds.len();
    let mut out: Vec<String> = Vec::new();
    let mut i: usize = 0;
    while i < n
        invariant
            n == builds@.len(),
            i <= n,
            out.deep_view() == spec_active_builds(builds@.take(i as int)),
        decreases n - i,
    {
        if builds[i].1 {
            let name = canonical_name(&builds[i].0);
            out.push(name);
        }
        proof {
            assert(builds@.take(i + 1 as int).drop_last() =~= builds@.take(i as int));
            if builds@[i as int].1 {
                assert(out.deep_view() =~= spec_active_builds(builds@.take(i as int)) + seq![
                    spec_canonical_name(builds@[i as int].0),
                ]);
            }
        }
        i = i + 1;
    }
    proof {
        assert(builds@.take(n as int) =~= builds@);
    }
    out
}

/// What the resolver keeps of one output-directory entry: the name it
/// matches identifiers against, and the path it hands back.
pub struct EntryView {
    pub name: Seq<char>,
    pub path: Seq<char>,
}

/// One entry of the output directory, as a snapshot taken before a task
/// runs.
#[derive(Clone, Debug)]
pub struct OutputEntry {
    /// The entry's bare name, extension included for a file.
    pub file_name: String,
    /// The path handed to the task when this entry is claimed.
    pub path: String,
    pub is_file: bool,
}

impl View for OutputEntry {
    type V = EntryView;

    /// A file is matched by its stem, a directory by its bare name.
    open spec fn view(&self) -> EntryView {
        EntryView {
            name: if self.is_file {
                spec_file_stem(self.file_name@)
            } else {
                self.file_name@
            },
            path: self.path@,
        }
    }
}

/// A dot-prefixed entry is invisible to the resolver.
pub open spec fn spec_hidden(e: OutputEntry) -> bool {
    e.file_name@.len() > 0 && e.file_name@[0] == '.'
}

/// The views of the visible entries, in directory order.
pub open spec fn spec_visible_views(entries: Seq<OutputEntry>) -> Seq<EntryView>
    decreases entries.len(),
{
    if entries.len() == 0 {
        Seq::<EntryView>::empty()
    } else {
        spec_visible_views(entries.drop_last()) + (if spec_hidden(entries.last()) {
            Seq::<EntryView>::empty()
        } else {
            seq![entries.last()@]
        })
    }
}

/// Inserts an identifier into a list sorted by descending length,
/// after every identifier at least as long: a stable insertion.
pub open spec fn spec_insert_id(sorted: Seq<Seq<char>>, x: Seq<char>) -> Seq<Seq<char>>
    decreases sorted.len(),
{
    if sorted.len() == 0 {
        seq![x]
    } else if x.len() > sorted[0].len() {
        seq![x] + sorted
    } else {
        seq![sorted[0]] + spec_insert_id(sorted.skip(1), x)
    }
}

/// Identifiers sorted by descending length, ties keeping their order.
pub open spec fn spec_sort_ids(ids: Seq<Seq<char>>) -> Seq<Seq<char>>
    decreases ids.len(),
{
    if ids.len() == 0 {
        Seq::<Seq<char>>::empty()
    } else {
        spec_insert_id(spec_sort_ids(ids.drop_last()), ids.last())
    }
}

/// Inserts an entry into a list sorted by descending name, after every
/// entry whose name is at least as large: a stable insertion.
pub open spec fn spec_insert_entry(sorted: Seq<EntryView>, x: EntryView) -> Seq<EntryView>
    decreases sorted.len(),
{
    if sorted.len() == 0 {
        seq![x]
    } else if !lex_le(x.name, sorted[0].name) {
        seq![x] + sorted
    } else {
        seq![sorted[0]] + spec_insert_entry(sorted.skip(1), x)
    }
}

/// Entries sorted by descending name, ties keeping their order.
pub open spec fn spec_sort_entries(entries: Seq<EntryView>) -> Seq<EntryView>
    decreases entries.len(),
{
    if entries.len() == 0 {
        Seq::<EntryView>::empty()
    } else {
        spec_insert_entry(spec_sort_entries(entries.drop_last()), entries.last())
    }
}

/// The first entry from `i` on that is unclaimed and whose name ends
/// with the identifier.
pub open spec fn spec_first_match(
    entries: Seq<EntryView>,
    claimed: Set<int>,
    id: Seq<char>,
    i: int,
) -> Option<int>
    decreases entries.len() - i,
{
    if i < 0 || i >= entries.len() {
        None
    } else if !claimed.contains(i) && spec_ends_with(entries[i].name, id) {
        Some(i)
    } else {
        spec_first_match(entries, claimed, id, i + 1)
    }
}

/// Walks the identifiers in order; each claims the first matching entry
/// still unclaimed, or resolves to nothing.
pub open spec fn spec_claim(
    ids: Seq<Seq<char>>,
    entries: Seq<EntryView>,
    claimed: Set<int>,
) -> Seq<(Seq<char>, Option<Seq<char>>)>
    decreases ids.len(),
{
    if ids.len() == 0 {
        Seq::<(Seq<char>, Option<Seq<char>>)>::empty()
    } else {
        match spec_first_match(entries, claimed, ids[0], 0) {
            Some(j) => seq![(ids[0], Some(entries[j].path))] + spec_claim(
                ids.skip(1),
                entries,
                claimed.insert(j),
            ),
            None => seq![(ids[0], None)] + spec_claim(ids.skip(1), entries, claimed),
        }
    }
}

/// The whole resolution: the task's own identifiers when it has any,
/// else the active ones; identifiers tried longest first so that a more
/// specific identifier claims its artifact before a shorter one that is
/// merely its suffix; entries matched in descending name order.
pub open spec fn spec_resolve_artifacts(
    active: Seq<Seq<char>>,
    on_builds: Seq<Seq<char>>,
    entries: Seq<OutputEntry>,
) -> Seq<(Seq<char>, Option<Seq<char>>)> {
    let ids = if on_builds.len() > 0 {
        on_builds
    } else {
        active
    };
    spec_claim(
        spec_sort_ids(ids),
        spec_sort_entries(spec_visible_views(entries)),
        Set::<int>::empty(),
    )
}

proof fn lemma_insert_id_at(sorted: Seq<Seq<char>>, x: Seq<char>, j: int)
    requires
        0 <= j <= sorted.len(),
        forall|k: int| 0 <= k < j ==> x.len() <= (#[trigger] sorted[k]).len(),
        j < sorted.len() ==> x.len() > sorted[j].len(),
    ensures
        spec_insert_id(sorted, x) == sorted.take(j) + seq![x] + sorted.skip(j),
    decreases j,
{
    if sorted.len() == 0 {
        assert(spec_insert_id(sorted, x) =~= sorted.take(j) + seq![x] + sorted.skip(j));
    } else if j == 0 {
        assert(spec_insert_id(sorted, x) =~= sorted.take(0) + seq![x] + sorted.skip(0));
    } else {
        lemma_insert_id_at(sorted.skip(1), x, j - 1);
        assert(sorted.skip(1).take(j - 1) =~= sorted.take(j).skip(1));
        assert(sorted.skip(1).skip(j - 1) =~= sorted.skip(j));
        assert(spec_insert_id(sorted, x) =~= sorted.take(j) + seq![x] + sorted.skip(j));
    }
}

proof fn lemma_insert_entry_at(sorted: Seq<EntryView>, x: EntryView, j: int)
    requires
        0 <= j <= sorted.len(),
        forall|k: int| 0 <= k < j ==> lex_le(x.name, (#[trigger] sorted[k]).name),
        j < sorted.len() ==> !lex_le(x.name, sorted[j].name),
    ensures
        spec_insert_entry(sorted, x) == sorted.take(j) + seq![x] + sorted.skip(j),
    decreases j,
{
    if sorted.len() == 0 {
        assert(spec_insert_entry(sorted, x) =~= sorted.take(j) + seq![x] + sorted.skip(j));
    } else if j == 0 {
        assert(spec_insert_entry(sorted, x) =~= sorted.take(0) + seq![x] + sorted.skip(0));
    } else {
        lemma_insert_entry_at(sorted.skip(1), x, j - 1);
        assert(sorted.skip(1).take(j - 1) =~= sorted.take(j).skip(1));
        assert(sorted.skip(1).skip(j - 1) =~= sorted.skip(j));
        assert(spec_insert_entry(sorted, x) =~= sorted.take(j) + seq![x] + sorted.skip(j));
    }
}

/// Sorts identifiers by descending length, stably.
fn sort_ids(ids: Vec<String>) -> (r: Vec<String>)
    ensures
        r.deep_view() == spec_sort_ids(ids.deep_view()),
{
    let n = ids.len();
    let mut out: Vec<String> = Vec::new();
    let mut i: usize = 0;
    proof {
        assert(ids.deep_view().take(0) =~= Seq::<Seq<char>>::empty());
    }
    while i < n
        invariant
            n == ids@.len(),
            i <= n,
            out.deep_view() == spec_sort_ids(ids.deep_view().take(i as int)),
        decreases n - i,
    {
        let x = ids[i].clone();
        proof {
            assert(x@ == ids.deep_view()[i as int]);
        }
        let m = out.len();
        let mut j: usize = 0;
        while j < m
            invariant
                m == out@.len(),
                j <= m,
                x@ == ids.deep_view()[i as int],
                forall|k: int| 0 <= k < j ==> x@.len() <= (#[trigger] out.deep_view()[k]).len(),
            ensures
                j <= m,
                forall|k: int| 0 <= k < j ==> x@.len() <= (#[trigger] out.deep_view()[k]).len(),
                j < m ==> x@.len() > out.deep_view()[j as int].len(),
            decreases m - j,
        {
            if x.as_str().unicode_len() > out[j].as_str().unicode_len() {
                proof {
                    assert(out.deep_view()[j as int] == out@[j as int]@);
                }
                break ;
            }
            proof {
                assert(out.deep_view()[j as int] == out@[j as int]@);
            }
            j = j + 1;
        }
        proof {
            lemma_insert_id_at(out.deep_view(), x@, j as int);
        }
        let ghost old_out = out.deep_view();
        out.insert(j, x);
        proof {
            assert(out.deep_view() =~= old_out.take(j as int) + seq![ids.deep_view()[i as int]]
                + old_out.skip(j as int));
            assert(ids.deep_view().take(i + 1 as int).drop_last() =~= ids.deep_view().take(
                i as int,
            ));
            assert(ids.deep_view().take(i + 1 as int).last() == ids.deep_view()[i as int]);
        }
        i = i + 1;
    }
    proof {
        assert(ids.deep_view().take(n as int) =~= ids.deep_view());
    }
    out
}

/// A visible entry reduced to its matching name and its path.
pub struct ResolvedEntry {
    pub name: String,
    pub path: String,
}

impl View for ResolvedEntry {
    type V = EntryView;

    open spec fn view(&self) -> EntryView {
        EntryView { name: self.name@, path: self.path@ }
    }
}

/// Sorts entries by descending name, stably.
fn sort_entries(entries: Vec<ResolvedEntry>) -> (r: Vec<ResolvedEntry>)
    ensures
        r@.map_values(|e: ResolvedEntry| e@) == spec_sort_entries(
            entries@.map_values(|e: ResolvedEntry| e@),
        ),
{
    let n = entries.len();
    let ghost evs = entries@.map_values(|e: ResolvedEntry| e@);
    let mut rest = entries;
    let mut out: Vec<ResolvedEntry> = Vec::new();
    let mut i: usize = 0;
    proof {
        assert(evs.take(0) =~= Seq::<EntryView>::empty());
    }
    while i < n
        invariant
            n == evs.len(),
            n == rest@.len() + i,
            i <= n,
            rest@.map_values(|e: ResolvedEntry| e@) =~= evs.skip(i as int),
            out@.map_values(|e: ResolvedEntry| e@) == spec_sort_entries(evs.take(i as int)),
        decreases n - i,
    {
        let ghost rest_pre = rest@;
        let x = rest.remove(0);
        proof {
            assert(x == rest_pre[0]);
            assert(rest_pre.map_values(|e: ResolvedEntry| e@)[0] == rest_pre[0]@);
            assert(evs.skip(i as int)[0] == evs[i as int]);
            assert(x@ == evs[i as int]);
            let cur = rest@.map_values(|e: ResolvedEntry| e@);
            assert forall|k: int| 0 <= k < cur.len() implies #[trigger] cur[k] == evs.skip(
                i + 1 as int,
            )[k] by {
                assert(rest@[k] == rest_pre[k + 1]);
                assert(rest_pre.map_values(|e: ResolvedEntry| e@)[k + 1] == rest_pre[k + 1]@);
                assert(cur[k] == rest@[k]@);
                assert(evs.skip(i as int)[k + 1] == evs[i + 1 + k]);
                assert(evs.skip(i + 1 as int)[k] == evs[i + 1 + k]);
            }
            assert(cur =~= evs.skip(i + 1 as int));
        }
        let m = out.len();
        let ghost ovs = out@.map_values(|e: ResolvedEntry| e@);
        let mut j: usize = 0;
        while j < m
            invariant
                m == out@.len(),
                j <= m,
                ovs == out@.map_values(|e: ResolvedEntry| e@),
                x@ == evs[i as int],
                forall|k: int| 0 <= k < j ==> lex_le(x@.name, (#[trigger] ovs[k]).name),
            ensures
                j <= m,
                forall|k: int| 0 <= k < j ==> lex_le(x@.name, (#[trigger] ovs[k]).name),
                j < m ==> !lex_le(x@.name, ovs[j as int].name),
            decreases m - j,
        {
            if !str_lex_le(x.name.as_str(), out[j].name.as_str()) {
                proof {
                    assert(ovs[j as int] == out@[j as int]@);
                }
                break ;
            }
            proof {
                assert(ovs[j as int] == out@[j as int]@);
            }
            j = j + 1;
        }
        proof {
            lemma_insert_entry_at(ovs, x@, j as int);
        }
        out.insert(j, x);
        proof {
            assert(out@.map_values(|e: ResolvedEntry| e@) =~= ovs.take(j as int) + seq![
                evs[i as int],
            ] + ovs.skip(j as int));
            assert(evs.take(i + 1 as int).drop_last() =~= evs.take(i as int));
            assert(evs.take(i + 1 as int).last() == evs[i as int]);
        }
        i = i + 1;
    }
    proof {
        assert(evs.take(n as int) =~= evs);
    }
    out
}

proof fn lemma_first_match_found(
    entries: Seq<EntryView>,
    claimed: Set<int>,
    id: Seq<char>,
    j: int,
)
    requires
        0 <= j < entries.len(),
        forall|k: int|
            0 <= k < j ==> !(!claimed.contains(k) && spec_ends_with(
                (#[trigger] entries[k]).name,
                id,
            )),
        !claimed.contains(j),
        spec_ends_with(entries[j].name, id),
    ensures
        spec_first_match(entries, claimed, id, 0) == Some(j),
    decreases j,
{
    lemma_first_match_from(entries, claimed, id, 0, j);
}

proof fn lemma_first_match_from(
    entries: Seq<EntryView>,
    claimed: Set<int>,
    id: Seq<char>,
    i: int,
    j: int,
)
    requires
        0 <= i <= j < entries.len(),
        forall|k: int|
            i <= k < j ==> !(!claimed.contains(k) && spec_ends_with(
                (#[trigger] entries[k]).name,
                id,
            )),
        !claimed.contains(j),
        spec_ends_with(entries[j].name, id),
    ensures
        spec_first_match(entries, claimed, id, i) == Some(j),
    decreases j - i,
{
    if i < j {
        lemma_first_match_from(entries, claimed, id, i + 1, j);
    }
}

proof fn lemma_first_match_none(entries: Seq<EntryView>, claimed: Set<int>, id: Seq<char>, i: int)
    requires
        0 <= i <= entries.len(),
        forall|k: int|
            i <= k < entries.len() ==> !(!claimed.contains(k) && spec_ends_with(
                (#[trigger] entries[k]).name,
                id,
            )),
    ensures
        spec_first_match(entries, claimed, id, i) is None,
    decreases entries.len() - i,
{
    if i < entries.len() {
        lemma_first_match_none(entries, claimed, id, i + 1);
    }
}

/// Resolves artifacts for one task, per `spec_resolve_artifacts`: each
/// requested identifier appears exactly once, longest tried first, each
/// claiming the first unclaimed visible entry whose name ends with it.
pub fn resolve_artifacts(
    active_builds: &Vec<String>,
    task_on_builds: &Vec<String>,
    entries: &Vec<OutputEntry>,
) -> (r: Vec<(String, Option<String>)>)
    ensures
        r.deep_view() == spec_resolve_artifacts(
            active_builds.deep_view(),
            task_on_builds.deep_view(),
            entries@,
        ),
{
    // The identifiers the task asks about.
    let src = if task_on_builds.len() > 0 {
        task_on_builds
    } else {
        active_builds
    };
    let mut ids: Vec<String> = Vec::new();
    let n = src.len();
    let mut i: usize = 0;
    while i < n
        invariant
            n == src@.len(),
            i <= n,
            ids@.len() == i,
            forall|k: int| 0 <= k < i ==> (#[trigger] ids@[k])@ == src.deep_view()[k],
        decreases n - i,
    {
        let x = src[i].clone();
        proof {
            assert(x@ == src.deep_view()[i as int]);
        }
        ids.push(x);
        i = i + 1;
    }
    proof {
        assert forall|k: int| 0 <= k < n implies #[trigger] ids.deep_view()[k]
            == src.deep_view()[k] by {
            assert(ids.deep_view()[k] == ids@[k]@);
        }
        assert(ids.deep_view() =~= src.deep_view());
    }
    let ids = sort_ids(ids);

    // The visible entries, by matching name.
    let mut visible: Vec<ResolvedEntry> = Vec::new();
    let n = entries.len();
    let mut i: usize = 0;
    proof {
        assert(spec_visible_views(entries@.take(0)) =~= Seq::<EntryView>::empty());
    }
    while i < n
        invariant
            n == entries@.len(),
            i <= n,
            visible@.map_values(|e: ResolvedEntry| e@) == spec_visible_views(
                entries@.take(i as int),
            ),
        decreases n - i,
    {
        let e = &entries[i];
        let hidden = e.file_name.as_str().unicode_len() > 0 && e.file_name.as_str().get_char(0)
            == '.';
        if !hidden {
            let name = if e.is_file {
                crate::text::file_stem(e.file_name.as_str())
            } else {
                e.file_name.clone()
            };
            visible.push(ResolvedEntry { name, path: e.path.clone() });
        }
        proof {
            assert(entries@.take(i + 1 as int).drop_last() =~= entries@.take(i as int));
            assert(entries@.take(i + 1 as int).last() == entries@[i as int]);
            if !spec_hidden(entries@[i as int]) {
                assert(visible@.map_values(|e: ResolvedEntry| e@) =~= spec_visible_views(
                    entries@.take(i as int),
                ) + seq![entries@[i as int]@]);
            }
        }
        i = i + 1;
    }
    proof {
        assert(entries@.take(n as int) =~= entries@);
    }
    let sorted = sort_entries(visible);
    let ghost sevs = sorted@.map_values(|e: ResolvedEntry| e@);

    // The claim scan.
    let m = sorted.len();
    let mut claimed: Vec<bool> = Vec::new();
    let mut i: usize = 0;
    while i < m
        invariant
            i <= m,
            claimed@.len() == i,
            forall|k: int| 0 <= k < i ==> !(#[trigger] claimed@[k]),
        decreases m - i,
    {
        claimed.push(false);
        i = i + 1;
    }
    let ghost mut claimed_set = Set::<int>::empty();
    let mut out: Vec<(String, Option<String>)> = Vec::new();
    let idn = ids.len();
    let mut t: usize = 0;
    proof {
        assert(out.deep_view() =~= Seq::<(Seq<char>, Option<Seq<char>>)>::empty());
        assert(ids.deep_view().skip(0) =~= ids.deep_view());
        assert(spec_claim(ids.deep_view(), sevs, Set::<int>::empty()) =~= out.deep_view()
            + spec_claim(ids.deep_view().skip(0), sevs, claimed_set));
    }
    while t < idn
        invariant
            idn == ids@.len(),
            m == sorted@.len(),
            m == claimed@.len(),
            t <= idn,
            sevs == sorted@.map_values(|e: ResolvedEntry| e@),
            forall|k: int| 0 <= k < m ==> (claimed@[k] <==> claimed_set.contains(k)),
            forall|k: int| claimed_set.contains(k) ==> 0 <= k < m,
            spec_claim(ids.deep_view(), sevs, Set::<int>::empty()) == out.deep_view() + spec_claim(
                ids.deep_view().skip(t as int),
                sevs,
                claimed_set,
            ),
        decreases idn - t,
    {
        let id = &ids[t];
        let mut j: usize = 0;
        while j < m
            invariant
                m == sorted@.len(),
                m == claimed@.len(),
                j <= m,
                sevs == sorted@.map_values(|e: ResolvedEntry| e@),
                id@ == ids.deep_view()[t as int],
                forall|k: int| 0 <= k < m ==> (claimed@[k] <==> claimed_set.contains(k)),
                forall|k: int|
                    0 <= k < j ==> !(!claimed_set.contains(k) && spec_ends_with(
                        (#[trigger] sevs[k]).name,
                        id@,
                    )),
            ensures
                j <= m,
                forall|k: int|
                    0 <= k < j ==> !(!claimed_set.contains(k) && spec_ends_with(
                        (#[trigger] sevs[k]).name,
                        id@,
                    )),
                j < m ==> !claimed_set.contains(j as int) && spec_ends_with(
                    sevs[j as int].name,
                    id@,
                ),
            decreases m - j,
        {
            proof {
                assert(sevs[j as int] == sorted@[j as int]@);
            }
            if !claimed[j] && str_ends_with(sorted[j].name.as_str(), id.as_str()) {
                break ;
            }
            j = j + 1;
        }
        let ghost pre = ids.deep_view().skip(t as int);
        proof {
            assert(pre[0] == ids.deep_view()[t as int]);
            assert(pre.skip(1) =~= ids.deep_view().skip(t + 1 as int));
        }
        let ghost prev_out = out.deep_view();
        let ghost prev_claimed = claimed_set;
        if j < m {
            proof {
                assert(sevs[j as int] == sorted@[j as int]@);
                lemma_first_match_found(sevs, claimed_set, id@, j as int);
            }
            let path = sorted[j].path.clone();
            out.push((id.clone(), Some(path)));
            claimed.set(j, true);
            proof {
                claimed_set = claimed_set.insert(j as int);
                assert(out.deep_view() =~= prev_out + seq![
                    (ids.deep_view()[t as int], Some(sevs[j as int].path)),
                ]);
                assert(spec_claim(pre, sevs, prev_claimed) == seq![
                    (ids.deep_view()[t as int], Some(sevs[j as int].path)),
                ] + spec_claim(ids.deep_view().skip(t + 1 as int), sevs, claimed_set));
                assert(prev_out + spec_claim(pre, sevs, prev_claimed) =~= out.deep_view()
                    + spec_claim(ids.deep_view().skip(t + 1 as int), sevs, claimed_set));
            }
        } else {
            proof {
                lemma_first_match_none(sevs, claimed_set, id@, 0);
            }
            out.push((id.clone(), None));
            proof {
                assert(out.deep_view() =~= prev_out + seq![
                    (ids.deep_view()[t as int], None::<Seq<char>>),
                ]);
                assert(spec_claim(pre, sevs, prev_claimed) == seq![
                    (ids.deep_view()[t as int], None::<Seq<char>>),
                ] + spec_claim(ids.deep_view().skip(t + 1 as int), sevs, claimed_set));
                assert(prev_out + spec_claim(pre, sevs, prev_claimed) =~= out.deep_view()
                    + spec_claim(ids.deep_view().skip(t + 1 as int), sevs, claimed_set));
            }
        }
        t = t + 1;
    }
    proof {
        assert(ids.deep_view().skip(idn as int) =~= Seq::<Seq<char>>::empty());
        assert(out.deep_view() =~= spec_claim(ids.deep_view(), sevs, Set::<int>::empty()));
    }
    out
}

proof fn lemma_insert_id_multiset(sorted: Seq<Seq<char>>, x: Seq<char>)
    ensures
        spec_insert_id(sorted, x).to_multiset() == sorted.to_multiset().insert(x),
    decreases sorted.len(),
{
    broadcast use vstd::seq_lib::group_to_multiset_ensures;
    broadcast use vstd::seq_lib::lemma_multiset_commutative;
    broadcast use vstd::multiset::group_multiset_axioms;

    if sorted.len() == 0 {
        assert(seq![x] =~= Seq::<Seq<char>>::empty().push(x));
        assert(spec_insert_id(sorted, x).to_multiset() =~= sorted.to_multiset().insert(x));
    } else if x.len() > sorted[0].len() {
        assert(seq![x] =~= Seq::<Seq<char>>::empty().push(x));
        assert(spec_insert_id(sorted, x).to_multiset() =~= sorted.to_multiset().insert(x));
    } else {
        lemma_insert_id_multiset(sorted.skip(1), x);
        assert(sorted =~= seq![sorted[0]] + sorted.skip(1));
        assert(seq![sorted[0]] =~= Seq::<Seq<char>>::empty().push(sorted[0]));
        assert(spec_insert_id(sorted, x).to_multiset() =~= sorted.to_multiset().insert(x));
    }
}

proof fn lemma_sort_ids_multiset(ids: Seq<Seq<char>>)
    ensures
        spec_sort_ids(ids).to_multiset() == ids.to_multiset(),
    decreases ids.len(),
{
    broadcast use vstd::seq_lib::group_to_multiset_ensures;

    if ids.len() > 0 {
        lemma_sort_ids_multiset(ids.drop_last());
        lemma_insert_id_multiset(spec_sort_ids(ids.drop_last()), ids.last());
        assert(ids =~= ids.drop_last().push(ids.last()));
        assert(spec_sort_ids(ids).to_multiset() =~= ids.to_multiset());
    }
}

proof fn lemma_claim_keys(ids: Seq<Seq<char>>, entries: Seq<EntryView>, claimed: Set<int>)
    ensures
        spec_claim(ids, entries, claimed).map_values(|p: (Seq<char>, Option<Seq<char>>)| p.0)
            == ids,
    decreases ids.len(),
{
    if ids.len() > 0 {
        let rest = match spec_first_match(entries, claimed, ids[0], 0) {
            Some(j) => {
                lemma_claim_keys(ids.skip(1), entries, claimed.insert(j));
                spec_claim(ids.skip(1), entries, claimed.insert(j))
            },
            None => {
                lemma_claim_keys(ids.skip(1), entries, claimed);
                spec_claim(ids.skip(1), entries, claimed)
            },
        };
        let r = spec_claim(ids, entries, claimed);
        let keys = r.map_values(|p: (Seq<char>, Option<Seq<char>>)| p.0);
        let rest_keys = rest.map_values(|p: (Seq<char>, Option<Seq<char>>)| p.0);
        assert(rest_keys == ids.skip(1));
        assert forall|k: int| 0 <= k < keys.len() implies #[trigger] keys[k] == ids[k] by {
            assert(keys[k] == r[k].0);
            if k > 0 {
                assert(r[k] == rest[k - 1]);
                assert(rest_keys[k - 1] == rest[k - 1].0);
                assert(ids.skip(1)[k - 1] == ids[k]);
            }
        }
        assert(keys =~= ids);
    } else {
        assert(spec_claim(ids, entries, claimed).map_values(
            |p: (Seq<char>, Option<Seq<char>>)| p.0,
        ) =~= ids);
    }
}

/// Every requested identifier appears exactly once in the artifact
/// map, as often as it was requested: the map's keys are a permutation
/// of the task's own identifiers when it has any, else of the active
/// ones.
pub proof fn lemma_resolve_artifacts_keys(
    active: Seq<Seq<char>>,
    on_builds: Seq<Seq<char>>,
    entries: Seq<OutputEntry>,
)
    ensures
        ({
            let ids = if on_builds.len() > 0 {
                on_builds
            } else {
                active
            };
            spec_resolve_artifacts(active, on_builds, entries).map_values(
                |p: (Seq<char>, Option<Seq<char>>)| p.0,
            ).to_multiset() == ids.to_multiset()
        }),
{
    let ids = if on_builds.len() > 0 {
        on_builds
    } else {
        active
    };
    lemma_claim_keys(
        spec_sort_ids(ids),
        spec_sort_entries(spec_visible_views(entries)),
        Set::<int>::empty(),
    );
    lemma_sort_ids_multiset(ids);
}

/// Artifact resolution is a pure function of its inputs: the same
/// identifier sets and the same output-directory snapshot always yield
/// the same map, so two calls of `resolve_artifacts` over an unchanged
/// snapshot agree.
pub proof fn lemma_resolve_artifacts_deterministic(
    active1: Seq<Seq<char>>,
    on1: Seq<Seq<char>>,
    e1: Seq<OutputEntry>,
    active2: Seq<Seq<char>>,
    on2: Seq<Seq<char>>,
    e2: Seq<OutputEntry>,
)
    requires
        active1 == active2,
        on1 == on2,
        e1 == e2,
    ensures
        spec_resolve_artifacts(active1, on1, e1) == spec_resolve_artifacts(active2, on2, e2),
{
}

/// Looks an identifier up in an artifact map.
pub fn artifact_lookup<'a>(map: &'a Vec<(String, Option<String>)>, key: &str) -> (r: Option<
    &'a Option<String>,
>)
    ensures
        match r {
            Some(v) => exists|i: int|
                0 <= i < map@.len() && (#[trigger] map@[i]).0@ == key@ && map@[i].1 == *v && (
                forall|k: int| 0 <= k < i ==> (#[trigger] map@[k]).0@ != key@),
            None => forall|i: int| 0 <= i < map@.len() ==> (#[trigger] map@[i]).0@ != key@,
        },
{
    let n = map.len();
    let mut i: usize = 0;
    while i < n
        invariant
            n == map@.len(),
            i <= n,
            forall|k: int| 0 <= k < i ==> (#[trigger] map@[k]).0@ != key@,
        decreases n - i,
    {
        if crate::text::str_eq_str(map[i].0.as_str(), key) {
            return Some(&map[i].1);
        }
        i = i + 1;
    }
    None
}

} // verus!
