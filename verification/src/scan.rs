//! Discovering installed applications.  Given the directory listings of the
//! scanned roots, each visible `.app` entry becomes a record holding a
//! sequential id (assigned in discovery order, before sorting), the bundle's
//! display name, its absolute path, and its category — guessed from the name
//! unless the override store has one for the path.  The records are returned
//! sorted by name, case-insensitively.

use vstd::prelude::*;
use vstd::string::*;
use crate::strutil::{
    spec_last_index_of, last_index_of, spec_dec_str, usize_to_string, lex_le, lemma_lex_total,
    lemma_lex_trans, str_lex_le,
};
use crate::paths::{spec_path_join, path_join};
use crate::category::{lower_of, lowercase, spec_guess_category, guess_category};
use crate::overrides::Overrides;

verus! {

/// The three directories the scan reads, in scan order.
pub open spec fn spec_scan_roots() -> Seq<Seq<char>> {
    seq!["/Applications"@, "/System/Applications"@, "/System/Applications/Utilities"@]
}

/// The fixed list of directories whose top-level entries are scanned.
pub fn scan_roots() -> (r: Vec<String>)
    ensures
        r.deep_view() == spec_scan_roots(),
{
    let mut r: Vec<String> = Vec::new();
    r.push(String::from_str("/Applications"));
    r.push(String::from_str("/System/Applications"));
    r.push(String::from_str("/System/Applications/Utilities"));
    proof {
        assert(r.deep_view() =~= spec_scan_roots());
    }
    r
}

/// One discovered application bundle.
pub struct AppData {
    pub id: String,
    pub name: String,
    pub path: String,
    pub category: String,
}

/// The mathematical content of an `AppData`.
pub ghost struct AppDataView {
    pub id: Seq<char>,
    pub name: Seq<char>,
    pub path: Seq<char>,
    pub category: Seq<char>,
}

impl View for AppData {
    type V = AppDataView;

    open spec fn view(&self) -> AppDataView {
        AppDataView { id: self.id@, name: self.name@, path: self.path@, category: self.category@ }
    }
}

/// The views of a sequence of records.
pub open spec fn views_of(s: Seq<AppData>) -> Seq<AppDataView> {
    s.map_values(|a: AppData| a@)
}

/// The display name of a visible `.app` entry, or nothing for entries the
/// scan skips: the name must split at its last `.` into a non-empty stem not
/// starting with `.` and the suffix `app`.
pub open spec fn spec_app_stem(name: Seq<char>) -> Option<Seq<char>> {
    let k = spec_last_index_of(name, '.');
    if k > 0 && name.subrange(k + 1, name.len() as int) == "app"@ && name[0] != '.' {
        Some(name.take(k))
    } else {
        None
    }
}

/// The category of a discovered bundle: the override stored for its path
/// when one holds a category, the guess from its name otherwise.
pub open spec fn spec_category_for(
    path: Seq<char>,
    stem: Seq<char>,
    ov: Map<Seq<char>, Option<Seq<char>>>,
) -> Seq<char> {
    if ov.contains_key(path) {
        match ov[path] {
            Some(c) => c,
            None => spec_guess_category(lower_of(stem)),
        }
    } else {
        spec_guess_category(lower_of(stem))
    }
}

/// The record for entry `entry` of root `root`, the `id`-th bundle found.
pub open spec fn spec_record(
    root: Seq<char>,
    entry: Seq<char>,
    stem: Seq<char>,
    ov: Map<Seq<char>, Option<Seq<char>>>,
    id: nat,
) -> AppDataView {
    let path = spec_path_join(root, entry);
    AppDataView {
        id: spec_dec_str(id),
        name: stem,
        path: path,
        category: spec_category_for(path, stem, ov),
    }
}

/// The records one root's listing contributes, ids counting on from
/// `next_id`, in listing order.
pub open spec fn collect_entries(
    root: Seq<char>,
    entries: Seq<Seq<char>>,
    ov: Map<Seq<char>, Option<Seq<char>>>,
    next_id: nat,
) -> Seq<AppDataView>
    decreases entries.len(),
{
    if entries.len() == 0 {
        Seq::empty()
    } else {
        match spec_app_stem(entries[0]) {
            Some(stem) => seq![spec_record(root, entries[0], stem, ov, next_id)]
                + collect_entries(root, entries.drop_first(), ov, next_id + 1),
            None => collect_entries(root, entries.drop_first(), ov, next_id),
        }
    }
}

/// The records of all roots in order, ids running across root boundaries.
pub open spec fn collect_roots(
    roots: Seq<(Seq<char>, Seq<Seq<char>>)>,
    ov: Map<Seq<char>, Option<Seq<char>>>,
    next_id: nat,
) -> Seq<AppDataView>
    decreases roots.len(),
{
    if roots.len() == 0 {
        Seq::empty()
    } else {
        let first = collect_entries(roots[0].0, roots[0].1, ov, next_id);
        first + collect_roots(roots.drop_first(), ov, next_id + first.len())
    }
}

/// Record `a` sorts no later than `b`: its lowered name is lexicographically
/// no greater.
pub open spec fn key_le(a: AppDataView, b: AppDataView) -> bool {
    lex_le(lower_of(a.name), lower_of(b.name))
}

/// The records are sorted by name, case-insensitively.
pub open spec fn sorted_by_name(s: Seq<AppDataView>) -> bool {
    forall|i: int, j: int| 0 <= i < j < s.len() ==> key_le(#[trigger] s[i], #[trigger] s[j])
}

/// Splits an entry name into the stem of a visible `.app` bundle, if it is
/// one.
fn split_app_entry(entry: &str) -> (r: Option<String>)
    ensures
        r.deep_view() == spec_app_stem(entry@),
{
    let len = entry.unicode_len();
    let k = match last_index_of(entry, '.') {
        None => {
            return None;
        },
        Some(k) => k,
    };
    if k == 0 {
        return None;
    }
    proof {
        reveal_strlit("app");
    }
    if len - k != 4 {
        proof {
            assert(entry@.subrange(k + 1, len as int).len() != "app"@.len());
        }
        return None;
    }
    let c1 = entry.get_char(k + 1);
    let c2 = entry.get_char(k + 2);
    let c3 = entry.get_char(k + 3);
    proof {
        assert(entry@.subrange(k + 1, len as int) =~= seq![
            entry@[k + 1],
            entry@[k + 2],
            entry@[k + 3],
        ]);
    }
    if !(c1 == 'a' && c2 == 'p' && c3 == 'p') {
        proof {
            assert(entry@.subrange(k + 1, len as int) != "app"@);
        }
        return None;
    }
    if entry.get_char(0) == '.' {
        return None;
    }
    let stem = entry.substring_char(0, k);
    proof {
        assert(stem@ =~= entry@.take(k as int));
        assert(entry@.subrange(k + 1, len as int) =~= "app"@);
    }
    Some(String::from_str(stem))
}

/// Compares two records by lowered name.
fn le_by_name(a: &AppData, b: &AppData) -> (r: bool)
    ensures
        r == key_le(a@, b@),
{
    let la = lowercase(a.name.as_str());
    let lb = lowercase(b.name.as_str());
    str_lex_le(la.as_str(), lb.as_str())
}

/// Inserts `x` into the sorted `out`, keeping it sorted.
fn insert_sorted(out: &mut Vec<AppData>, x: AppData)
    requires
        sorted_by_name(views_of(old(out)@)),
    ensures
        sorted_by_name(views_of(final(out)@)),
        views_of(final(out)@).to_multiset() == views_of(old(out)@).to_multiset().insert(x@),
{
    broadcast use vstd::seq_lib::group_to_multiset_ensures;

    let n = out.len();
    let mut j: usize = 0;
    loop
        invariant
            n == out@.len(),
            j <= n,
            *out == *old(out),
            sorted_by_name(views_of(out@)),
            forall|m: int| 0 <= m < j ==> key_le(#[trigger] views_of(out@)[m], x@),
        ensures
            j <= n,
            *out == *old(out),
            forall|m: int| 0 <= m < j ==> key_le(#[trigger] views_of(out@)[m], x@),
            forall|m: int| j <= m < n ==> key_le(x@, #[trigger] views_of(out@)[m]),
        decreases n - j,
    {
        if j == n {
            break;
        }
        // Stop at the first record not strictly below `x`, so that `x` lands
        // before any record with an equal key: records are inserted latest
        // first, which keeps equal keys in discovery order.
        if le_by_name(&x, &out[j]) {
            proof {
                assert(views_of(out@) == views_of(old(out)@));
                assert(sorted_by_name(views_of(out@)));
                assert forall|m: int| j <= m < n implies key_le(
                    x@,
                    #[trigger] views_of(out@)[m],
                ) by {
                    if m > j {
                        assert(key_le(views_of(out@)[j as int], views_of(out@)[m]));
                        lemma_lex_trans(
                            lower_of(x@.name),
                            lower_of(views_of(out@)[j as int].name),
                            lower_of(views_of(out@)[m].name),
                        );
                    }
                }
            }
            break;
        }
        proof {
            lemma_lex_total(lower_of(views_of(out@)[j as int].name), lower_of(x@.name));
        }
        j += 1;
    }
    let ghost pre = views_of(out@);
    out.insert(j, x);
    proof {
        let post = views_of(out@);
        assert(post =~= pre.insert(j as int, x@));
        assert(post.remove(j as int) =~= pre);
        post.to_multiset_ensures();
        pre.to_multiset_ensures();
        assert(post[j as int] == x@);
        assert(post.to_multiset().remove(x@) =~= pre.to_multiset());
        assert(post.to_multiset().contains(x@));
        assert(post.to_multiset() =~= pre.to_multiset().insert(x@));
        assert forall|a: int, b: int| 0 <= a < b < post.len() implies key_le(
            #[trigger] post[a],
            #[trigger] post[b],
        ) by {
            if a < j && b > j {
                assert(post[a] == pre[a] && post[b] == pre[b - 1]);
            } else if a == j && b > j {
                assert(post[b] == pre[b - 1]);
            } else if a < j && b == j {
                assert(post[a] == pre[a]);
            } else if b < j {
                assert(post[a] == pre[a] && post[b] == pre[b]);
            } else if a > j {
                assert(post[a] == pre[a - 1] && post[b] == pre[b - 1]);
            }
        }
    }
}

/// Sorts the records by name, case-insensitively.
fn sort_by_name(v: Vec<AppData>) -> (r: Vec<AppData>)
    ensures
        sorted_by_name(views_of(r@)),
        views_of(r@).to_multiset() == views_of(v@).to_multiset(),
{
    broadcast use vstd::seq_lib::group_to_multiset_ensures;

    let ghost orig = views_of(v@);
    let mut rest = v;
    let mut out: Vec<AppData> = Vec::new();
    proof {
        assert(views_of(out@) =~= Seq::<AppDataView>::empty());
        assert(views_of(out@).to_multiset().add(views_of(rest@).to_multiset()) =~=
            orig.to_multiset());
    }
    loop
        invariant
            sorted_by_name(views_of(out@)),
            views_of(out@).to_multiset().add(views_of(rest@).to_multiset()) =~=
                orig.to_multiset(),
        ensures
            sorted_by_name(views_of(out@)),
            views_of(out@).to_multiset().add(views_of(rest@).to_multiset()) =~=
                orig.to_multiset(),
            rest@.len() == 0,
        decreases rest@.len(),
    {
        let ghost rv = views_of(rest@);
        let x = match rest.pop() {
            Some(x) => x,
            None => {
                break;
            },
        };
        proof {
            assert(views_of(rest@) =~= rv.drop_last());
            assert(rv.drop_last().push(x@) =~= rv);
            rv.drop_last().to_multiset_ensures();
            assert(rv.to_multiset() =~= views_of(rest@).to_multiset().insert(x@));
        }
        insert_sorted(&mut out, x);
    }
    proof {
        assert(views_of(rest@).to_multiset() =~= Seq::<AppDataView>::empty().to_multiset());
        Seq::<AppDataView>::empty().to_multiset_ensures();
        assert(views_of(out@).to_multiset() =~= orig.to_multiset());
    }
    out
}

/// Scans the given root listings: every visible `.app` entry becomes a
/// record with a sequential id in discovery order, named after its stem,
/// categorised by override or guess; the result is the whole collection
/// sorted by name, case-insensitively.
pub fn get_installed_apps(roots: &Vec<(String, Vec<String>)>, overrides: &Overrides) -> (r: Vec<
    AppData,
>)
    requires
        overrides.wf(),
    ensures
        views_of(r@).to_multiset() == collect_roots(roots.deep_view(), overrides@, 0)
            .to_multiset(),
        sorted_by_name(views_of(r@)),
{
    let ghost rv = roots.deep_view();
    let ghost ov = overrides@;
    let ghost target = collect_roots(rv, ov, 0);
    let mut apps: Vec<AppData> = Vec::new();
    let nroots = roots.len();
    let mut i: usize = 0;
    proof {
        assert(rv.skip(0) =~= rv);
        assert(views_of(apps@) + collect_roots(rv, ov, 0) =~= target);
    }
    while i < nroots
        invariant
            overrides.wf(),
            ov == overrides@,
            rv == roots.deep_view(),
            nroots == roots@.len(),
            i <= nroots,
            target == collect_roots(rv, ov, 0),
            views_of(apps@) + collect_roots(rv.skip(i as int), ov, apps@.len() as nat) =~= target,
        decreases nroots - i,
    {
        let root_path: &String = &roots[i].0;
        let entries: &Vec<String> = &roots[i].1;
        let ghost rootv = rv[i as int].0;
        let ghost entriesv = rv[i as int].1;
        proof {
            assert(rv[i as int] == (rootv, entriesv));
            assert(root_path@ == rootv && entries.deep_view() == entriesv);
        }
        let ghost n0 = apps@.len() as nat;
        let ghost total = n0 + collect_entries(rootv, entriesv, ov, n0).len();
        let nentries = entries.len();
        let mut j: usize = 0;
        proof {
            assert(rv.skip(i as int)[0] == rv[i as int]);
            assert(rv.skip(i as int).drop_first() =~= rv.skip(i + 1));
            assert(collect_roots(rv.skip(i as int), ov, n0) == collect_entries(
                rootv,
                entriesv,
                ov,
                n0,
            ) + collect_roots(rv.skip(i + 1), ov, total));
            assert(entriesv.skip(0) =~= entriesv);
        }
        while j < nentries
            invariant
                overrides.wf(),
                ov == overrides@,
                nentries == entries@.len(),
                j <= nentries,
                rootv == root_path@,
                entriesv == entries.deep_view(),
                target == collect_roots(rv, ov, 0),
                apps@.len() + collect_entries(rootv, entriesv.skip(j as int), ov, apps@.len()
                    as nat).len() == total,
                views_of(apps@) + collect_entries(rootv, entriesv.skip(j as int), ov, apps@.len()
                    as nat) + collect_roots(rv.skip(i + 1), ov, total) =~= target,
            decreases nentries - j,
        {
            let ghost rem = entriesv.skip(j as int);
            proof {
                assert(rem[0] == entriesv[j as int]);
                assert(entries.deep_view()[j as int] == entries@[j as int]@);
                assert(rem.drop_first() =~= entriesv.skip(j + 1));
            }
            let entry: &String = &entries[j];
            match split_app_entry(entry.as_str()) {
                Some(stem) => {
                    let path = path_join(root_path.as_str(), entry.as_str());
                    let category = match overrides.lookup(&path) {
                        Some(c_opt) => match c_opt {
                            Some(c) => c,
                            None => guess_category(stem.as_str()),
                        },
                        None => guess_category(stem.as_str()),
                    };
                    let id = usize_to_string(apps.len());
                    let ghost before = apps@;
                    let rec = AppData { id, name: stem, path, category };
                    proof {
                        assert(rec@ == spec_record(rootv, rem[0], rec@.name, ov, before.len()
                            as nat));
                    }
                    apps.push(rec);
                    proof {
                        assert(views_of(apps@) =~= views_of(before) + seq![rec@]);
                        assert(collect_entries(rootv, rem, ov, before.len() as nat) == seq![rec@]
                            + collect_entries(rootv, entriesv.skip(j + 1), ov, apps@.len() as nat));
                        assert(views_of(before) + (seq![rec@] + collect_entries(
                            rootv,
                            entriesv.skip(j + 1),
                            ov,
                            apps@.len() as nat,
                        )) =~= views_of(apps@) + collect_entries(
                            rootv,
                            entriesv.skip(j + 1),
                            ov,
                            apps@.len() as nat,
                        ));
                    }
                },
                None => {
                    proof {
                        assert(collect_entries(rootv, rem, ov, apps@.len() as nat)
                            == collect_entries(rootv, entriesv.skip(j + 1), ov, apps@.len()
                            as nat));
                    }
                },
            }
            j += 1;
        }
        proof {
            assert(entriesv.skip(nentries as int) =~= Seq::<Seq<char>>::empty());
            assert(collect_entries(rootv, entriesv.skip(nentries as int), ov, apps@.len() as nat)
                =~= Seq::<AppDataView>::empty());
            assert(apps@.len() == total);
            assert(views_of(apps@) + collect_roots(rv.skip(i + 1), ov, apps@.len() as nat) =~=
                target);
        }
        i += 1;
    }
    proof {
        assert(rv.skip(nroots as int) =~= Seq::<(Seq<char>, Seq<Seq<char>>)>::empty());
        assert(views_of(apps@) =~= target);
    }
    sort_by_name(apps)
}

/// Law: a record whose path has a stored override holding a category
/// carries that category — within one root's records.
proof fn lemma_entries_override_wins(
    root: Seq<char>,
    entries: Seq<Seq<char>>,
    ov: Map<Seq<char>, Option<Seq<char>>>,
    next_id: nat,
    rec: AppDataView,
    c: Seq<char>,
)
    requires
        collect_entries(root, entries, ov, next_id).contains(rec),
        ov.contains_key(rec.path),
        ov[rec.path] == Some(c),
    ensures
        rec.category == c,
    decreases entries.len(),
{
    let s = collect_entries(root, entries, ov, next_id);
    let idx = choose|idx: int| 0 <= idx < s.len() && s[idx] == rec;
    match spec_app_stem(entries[0]) {
        Some(stem) => {
            if idx == 0 {
            } else {
                let rest = collect_entries(root, entries.drop_first(), ov, next_id + 1);
                assert(rest[idx - 1] == rec);
                lemma_entries_override_wins(root, entries.drop_first(), ov, next_id + 1, rec, c);
            }
        },
        None => {
            lemma_entries_override_wins(root, entries.drop_first(), ov, next_id, rec, c);
        },
    }
}

/// Law: a record whose path has a stored override holding a category
/// carries that category, wherever the scan found it.  Saving an override
/// for a path and scanning a listing holding a bundle at that path thus
/// yields that category for it, whatever the guess would have said.
pub proof fn lemma_scan_override_wins(
    roots: Seq<(Seq<char>, Seq<Seq<char>>)>,
    ov: Map<Seq<char>, Option<Seq<char>>>,
    next_id: nat,
    rec: AppDataView,
    c: Seq<char>,
)
    requires
        collect_roots(roots, ov, next_id).contains(rec),
        ov.contains_key(rec.path),
        ov[rec.path] == Some(c),
    ensures
        rec.category == c,
    decreases roots.len(),
{
    let s = collect_roots(roots, ov, next_id);
    let idx = choose|idx: int| 0 <= idx < s.len() && s[idx] == rec;
    let first = collect_entries(roots[0].0, roots[0].1, ov, next_id);
    if idx < first.len() {
        assert(first[idx] == rec);
        assert(first.contains(rec));
        lemma_entries_override_wins(roots[0].0, roots[0].1, ov, next_id, rec, c);
    } else {
        let rest = collect_roots(roots.drop_first(), ov, next_id + first.len());
        assert(rest[idx - first.len()] == rec);
        assert(rest.contains(rec));
        lemma_scan_override_wins(roots.drop_first(), ov, next_id + first.len(), rec, c);
    }
}

/// Law: what the scanner returns respects the override store.  Any record
/// of a scan's output whose path has a stored override holding a category
/// carries that category; with the store after a save holding it, a saved
/// category wins over any guess.
pub proof fn lemma_output_respects_overrides(
    out: Seq<AppDataView>,
    roots: Seq<(Seq<char>, Seq<Seq<char>>)>,
    ov: Map<Seq<char>, Option<Seq<char>>>,
    rec: AppDataView,
    c: Seq<char>,
)
    requires
        out.to_multiset() == collect_roots(roots, ov, 0).to_multiset(),
        out.contains(rec),
        ov.contains_key(rec.path),
        ov[rec.path] == Some(c),
    ensures
        rec.category == c,
{
    broadcast use vstd::seq_lib::group_to_multiset_ensures;

    assert(collect_roots(roots, ov, 0).to_multiset().count(rec) > 0);
    assert(collect_roots(roots, ov, 0).contains(rec));
    lemma_scan_override_wins(roots, ov, 0, rec, c);
}

/// Law: within one root's records, the `k`-th record's id renders
/// `next_id + k` — ids follow discovery order.
proof fn lemma_entries_ids(
    root: Seq<char>,
    entries: Seq<Seq<char>>,
    ov: Map<Seq<char>, Option<Seq<char>>>,
    next_id: nat,
    k: int,
)
    requires
        0 <= k < collect_entries(root, entries, ov, next_id).len(),
    ensures
        collect_entries(root, entries, ov, next_id)[k].id == spec_dec_str((next_id + k) as nat),
    decreases entries.len(),
{
    match spec_app_stem(entries[0]) {
        Some(stem) => {
            if k > 0 {
                lemma_entries_ids(root, entries.drop_first(), ov, next_id + 1, k - 1);
            }
        },
        None => {
            lemma_entries_ids(root, entries.drop_first(), ov, next_id, k);
        },
    }
}

/// Law: the `k`-th record the scan discovers (before sorting) has id
/// `next_id + k` rendered in decimal — ids are assigned sequentially in
/// discovery order, across root boundaries, and the later sort does not
/// touch them.
pub proof fn lemma_scan_ids(
    roots: Seq<(Seq<char>, Seq<Seq<char>>)>,
    ov: Map<Seq<char>, Option<Seq<char>>>,
    next_id: nat,
    k: int,
)
    requires
        0 <= k < collect_roots(roots, ov, next_id).len(),
    ensures
        collect_roots(roots, ov, next_id)[k].id == spec_dec_str((next_id + k) as nat),
    decreases roots.len(),
{
    let first = collect_entries(roots[0].0, roots[0].1, ov, next_id);
    if k < first.len() {
        lemma_entries_ids(roots[0].0, roots[0].1, ov, next_id, k);
    } else {
        lemma_scan_ids(roots.drop_first(), ov, next_id + first.len(), k - first.len());
    }
}

} // verus!
