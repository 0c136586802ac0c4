//! Executable discovery and selection: filtering directory listings down
//! to `pythonX.Y` entries, the executable table that records the first
//! path seen for each version, and the match-engine reduction over a
//! directory scan.

use vstd::prelude::*;

use crate::version::{
    spec_matches, spec_supports, spec_version_of_path, version_le, version_lt, ExactVersion,
    Match, RequestedVersion,
};

verus! {

/// The mathematical view of an executable table: each entry pairs a
/// discovered version with the path it was first seen at.
pub open spec fn table_view(t: Seq<(ExactVersion, String)>) -> Seq<(ExactVersion, Seq<char>)> {
    t.map_values(|p: (ExactVersion, String)| (p.0, p.1@))
}

/// Whether the table already records `v`.
pub open spec fn table_has(t: Seq<(ExactVersion, Seq<char>)>, v: ExactVersion) -> bool {
    exists|i: int| 0 <= i < t.len() && t[i].0 == v
}

/// The executable-table invariant: versions are unique, so at most one
/// path is recorded per version.
pub open spec fn table_wf(t: Seq<(ExactVersion, Seq<char>)>) -> bool {
    forall|i: int, j: int| 0 <= i < j < t.len() ==> t[i].0 != t[j].0
}

/// The table built by walking `paths` in order: a path whose file name
/// has the `pythonX.Y` shape is recorded unless its version is already
/// present, so the first one found wins.
pub open spec fn spec_filter(
    paths: Seq<Seq<char>>,
    acc: Seq<(ExactVersion, Seq<char>)>,
) -> Seq<(ExactVersion, Seq<char>)>
    decreases paths.len(),
{
    if paths.len() == 0 {
        acc
    } else {
        match spec_version_of_path(paths[0]) {
            Some(v) => if table_has(acc, v) {
                spec_filter(paths.drop_first(), acc)
            } else {
                spec_filter(paths.drop_first(), acc.push((v, paths[0])))
            },
            None => spec_filter(paths.drop_first(), acc),
        }
    }
}

/// The first position in `paths` whose file name names the version `v`,
/// if any.
pub open spec fn spec_first_with_version(paths: Seq<Seq<char>>, v: ExactVersion) -> Option<int>
    decreases paths.len(),
{
    if paths.len() == 0 {
        None
    } else if spec_version_of_path(paths[0]) == Some(v) {
        Some(0)
    } else {
        match spec_first_with_version(paths.drop_first(), v) {
            Some(i) => Some(i + 1),
            None => None,
        }
    }
}

/// `spec_first_with_version` names the first occurrence: that path has
/// the version and no earlier path does; `None` means no path has it.
pub proof fn lemma_first_with_version(paths: Seq<Seq<char>>, v: ExactVersion)
    ensures
        spec_first_with_version(paths, v) matches Some(i) ==> 0 <= i < paths.len()
            && spec_version_of_path(paths[i]) == Some(v) && (forall|j: int|
            0 <= j < i ==> spec_version_of_path(#[trigger] paths[j]) != Some(v)),
        spec_first_with_version(paths, v) is None ==> forall|j: int|
            0 <= j < paths.len() ==> spec_version_of_path(#[trigger] paths[j]) != Some(v),
    decreases paths.len(),
{
    if paths.len() > 0 && spec_version_of_path(paths[0]) != Some(v) {
        lemma_first_with_version(paths.drop_first(), v);
        assert(forall|j: int| 0 < j < paths.len() ==> paths[j] == paths.drop_first()[j - 1]);
    }
}

/// Filtering extends its accumulator: what was recorded stays, in place.
proof fn lemma_filter_extends(paths: Seq<Seq<char>>, acc: Seq<(ExactVersion, Seq<char>)>)
    ensures
        spec_filter(paths, acc).len() >= acc.len(),
        forall|k: int| 0 <= k < acc.len() ==> spec_filter(paths, acc)[k] == acc[k],
    decreases paths.len(),
{
    if paths.len() > 0 {
        let rest = paths.drop_first();
        match spec_version_of_path(paths[0]) {
            Some(v) => if table_has(acc, v) {
                lemma_filter_extends(rest, acc);
            } else {
                let acc2 = acc.push((v, paths[0]));
                lemma_filter_extends(rest, acc2);
                assert(forall|k: int| 0 <= k < acc.len() ==> acc2[k] == acc[k]);
            },
            None => {
                lemma_filter_extends(rest, acc);
            },
        }
    }
}

/// The induction behind first-one-found-wins, generalized over the
/// accumulator: a version not yet recorded ends up recorded exactly when
/// some path names it, paired with the first such path; a version
/// already recorded gains no further entry.
proof fn lemma_filter_first(
    paths: Seq<Seq<char>>,
    acc: Seq<(ExactVersion, Seq<char>)>,
    v: ExactVersion,
)
    ensures
        !table_has(acc, v) ==> (table_has(spec_filter(paths, acc), v)
            <==> spec_first_with_version(paths, v) is Some),
        !table_has(acc, v) ==> forall|k: int|
            0 <= k < spec_filter(paths, acc).len() && (#[trigger] spec_filter(paths, acc)[k]).0
                == v ==> (spec_first_with_version(paths, v) matches Some(i) && spec_filter(
                paths,
                acc,
            )[k].1 == paths[i]),
        table_has(acc, v) ==> forall|k: int|
            acc.len() <= k < spec_filter(paths, acc).len() ==> (#[trigger] spec_filter(
                paths,
                acc,
            )[k]).0 != v,
    decreases paths.len(),
{
    lemma_filter_extends(paths, acc);
    if paths.len() > 0 {
        let rest = paths.drop_first();
        let t = spec_filter(paths, acc);
        assert(forall|j: int| 0 < j < paths.len() ==> paths[j] == rest[j - 1]);
        match spec_version_of_path(paths[0]) {
            Some(v0) => if table_has(acc, v0) {
                lemma_filter_first(rest, acc, v);
                assert(t == spec_filter(rest, acc));
                if !table_has(acc, v) {
                    assert(v != v0);
                    lemma_first_shift(paths, v);
                    lemma_first_with_version(rest, v);
                    assert forall|k: int|
                        0 <= k < t.len() && (#[trigger] t[k]).0 == v implies (
                    spec_first_with_version(paths, v) matches Some(i) && t[k].1 == paths[i]) by {
                        assert(spec_filter(rest, acc)[k].0 == v);
                        match spec_first_with_version(rest, v) {
                            Some(i) => {
                                assert(t[k].1 == rest[i]);
                                assert(spec_first_with_version(paths, v) == Some(i + 1));
                                assert(paths[i + 1] == rest[i]);
                            },
                            None => (),
                        }
                    }
                } else {
                    assert forall|k: int| acc.len() <= k < t.len() implies (#[trigger] t[k]).0
                        != v by {
                        assert(spec_filter(rest, acc)[k].0 != v);
                    }
                }
            } else {
                let acc2 = acc.push((v0, paths[0]));
                lemma_filter_first(rest, acc2, v);
                lemma_filter_extends(rest, acc2);
                assert(t == spec_filter(rest, acc2));
                assert(forall|k: int| 0 <= k < acc.len() ==> acc2[k] == acc[k]);
                assert(t[acc.len() as int] == acc2[acc.len() as int]);
                if v == v0 {
                    assert(!table_has(acc, v) ==> spec_first_with_version(paths, v) == Some(0int));
                    assert(table_has(acc2, v)) by {
                        assert(acc2[acc.len() as int].0 == v);
                    }
                    if !table_has(acc, v) {
                        assert(table_has(t, v)) by {
                            assert(t[acc.len() as int].0 == v);
                        }
                        assert forall|k: int|
                            0 <= k < t.len() && (#[trigger] t[k]).0 == v implies (
                        spec_first_with_version(paths, v) matches Some(i) && t[k].1
                            == paths[i]) by {
                            if k < acc.len() {
                                assert(t[k] == acc[k]);
                                assert(table_has(acc, v)) by {
                                    assert(acc[k].0 == v);
                                }
                            } else if k == acc.len() {
                                assert(t[k].1 == paths[0]);
                            } else {
                                assert(acc2.len() <= k < spec_filter(rest, acc2).len());
                                assert(spec_filter(rest, acc2)[k].0 != v);
                            }
                        }
                    }
                } else {
                    if table_has(acc, v) {
                        assert(table_has(acc2, v)) by {
                            let w = choose|i: int| 0 <= i < acc.len() && acc[i].0 == v;
                            assert(acc2[w].0 == v);
                        }
                        assert forall|k: int| acc.len() <= k < t.len() implies (#[trigger] t[k]).0
                            != v by {
                            if k == acc.len() {
                                assert(t[k].0 == v0);
                            } else {
                                assert(spec_filter(rest, acc2)[k].0 != v);
                            }
                        }
                    } else {
                        assert(!table_has(acc2, v)) by {
                            if table_has(acc2, v) {
                                let w = choose|i: int| 0 <= i < acc2.len() && acc2[i].0 == v;
                                assert(w < acc.len() && acc[w].0 == v);
                            }
                        }
                        lemma_first_shift(paths, v);
                        lemma_first_with_version(rest, v);
                        assert forall|k: int|
                            0 <= k < t.len() && (#[trigger] t[k]).0 == v implies (
                        spec_first_with_version(paths, v) matches Some(i) && t[k].1
                            == paths[i]) by {
                            assert(spec_filter(rest, acc2)[k].0 == v);
                            match spec_first_with_version(rest, v) {
                                Some(i) => {
                                    assert(t[k].1 == rest[i]);
                                    assert(spec_first_with_version(paths, v) == Some(i + 1));
                                    assert(paths[i + 1] == rest[i]);
                                },
                                None => (),
                            }
                        }
                    }
                }
            },
            None => {
                lemma_filter_first(rest, acc, v);
                assert(t == spec_filter(rest, acc));
                if !table_has(acc, v) {
                    lemma_first_shift(paths, v);
                    lemma_first_with_version(rest, v);
                    assert forall|k: int|
                        0 <= k < t.len() && (#[trigger] t[k]).0 == v implies (
                    spec_first_with_version(paths, v) matches Some(i) && t[k].1 == paths[i]) by {
                        assert(spec_filter(rest, acc)[k].0 == v);
                        match spec_first_with_version(rest, v) {
                            Some(i) => {
                                assert(t[k].1 == rest[i]);
                                assert(spec_first_with_version(paths, v) == Some(i + 1));
                                assert(paths[i + 1] == rest[i]);
                            },
                            None => (),
                        }
                    }
                } else {
                    assert forall|k: int| acc.len() <= k < t.len() implies (#[trigger] t[k]).0
                        != v by {
                        assert(spec_filter(rest, acc)[k].0 != v);
                    }
                }
            },
        }
    }
}

/// When the front path does not name `v`, the first occurrence of `v`
/// sits one step further than in the rest.
proof fn lemma_first_shift(paths: Seq<Seq<char>>, v: ExactVersion)
    requires
        paths.len() > 0,
        spec_version_of_path(paths[0]) != Some(v),
    ensures
        spec_first_with_version(paths, v) is Some <==> spec_first_with_version(
            paths.drop_first(),
            v,
        ) is Some,
        spec_first_with_version(paths.drop_first(), v) matches Some(i)
            ==> spec_first_with_version(paths, v) == Some(i + 1),
{
}

/// First one found wins: the table built by a scan records a version
/// exactly when some path in the scan names it, and then pairs it with
/// the first such path in scan order, never a later one.
pub proof fn lemma_first_seen_wins(paths: Seq<Seq<char>>, v: ExactVersion)
    ensures
        table_has(spec_filter(paths, Seq::empty()), v) <==> spec_first_with_version(paths, v)
            is Some,
        forall|k: int|
            0 <= k < spec_filter(paths, Seq::empty()).len() && (#[trigger] spec_filter(
                paths,
                Seq::empty(),
            )[k]).0 == v ==> (spec_first_with_version(paths, v) matches Some(i) && spec_filter(
                paths,
                Seq::empty(),
            )[k].1 == paths[i]),
{
    lemma_filter_first(paths, Seq::empty(), v);
}

fn contains_version(t: &Vec<(ExactVersion, String)>, v: ExactVersion) -> (r: bool)
    ensures
        r == table_has(table_view(t@), v),
{
    let mut k: usize = 0;
    while k < t.len()
        invariant
            0 <= k <= t@.len(),
            forall|i: int| 0 <= i < k ==> table_view(t@)[i].0 != v,
        decreases t@.len() - k,
    {
        if t[k].0 == v {
            assert(table_view(t@)[k as int].0 == v);
            return true;
        }
        k += 1;
    }
    false
}

/// Filters the paths down to `pythonX.Y` paths, first one seen per
/// version winning.
pub fn filter_python_executables(paths: &Vec<String>) -> (r: Vec<(ExactVersion, String)>)
    ensures
        table_view(r@) == spec_filter(paths.deep_view(), Seq::empty()),
        table_wf(table_view(r@)),
{
    let ghost all: Seq<Seq<char>> = paths.deep_view();
    let mut executables: Vec<(ExactVersion, String)> = Vec::new();
    let mut i: usize = 0;
    proof {
        assert(all.skip(0) =~= all);
        assert(table_view(executables@) =~= Seq::<(ExactVersion, Seq<char>)>::empty());
    }
    while i < paths.len()
        invariant
            0 <= i <= paths@.len(),
            all == paths.deep_view(),
            spec_filter(all, Seq::empty()) == spec_filter(
                all.skip(i as int),
                table_view(executables@),
            ),
            table_wf(table_view(executables@)),
        decreases paths@.len() - i,
    {
        let path = &paths[i];
        proof {
            assert(all.skip(i as int)[0] == all[i as int]);
            assert(all[i as int] == path@);
            assert(all.skip(i as int).drop_first() =~= all.skip(i as int + 1));
        }
        match ExactVersion::from_path(path.as_str()) {
            Ok(version) => {
                if !contains_version(&executables, version) {
                    let ghost old_view = table_view(executables@);
                    executables.push((version, path.clone()));
                    proof {
                        assert(table_view(executables@) =~= old_view.push((version, path@)));
                    }
                }
            },
            Err(_) => {},
        }
        i += 1;
    }
    proof {
        assert(all.skip(i as int) =~= Seq::<Seq<char>>::empty());
    }
    executables
}

/// Finds all possible Python executables among `paths`, the flattened
/// contents of the directories on `PATH` in search order.
pub fn all_executables(paths: &Vec<String>) -> (r: Vec<(ExactVersion, String)>)
    ensures
        table_view(r@) == spec_filter(paths.deep_view(), Seq::empty()),
        table_wf(table_view(r@)),
{
    filter_python_executables(paths)
}

/// The filtered entries that a scan over `dirs` walks: each directory's
/// listing is filtered on its own, and the results follow each other in
/// directory order.
pub open spec fn spec_dir_entries(dirs: Seq<Seq<Seq<char>>>) -> Seq<(ExactVersion, Seq<char>)>
    decreases dirs.len(),
{
    if dirs.len() == 0 {
        Seq::empty()
    } else {
        spec_dir_entries(dirs.drop_last()) + spec_filter(dirs.last(), Seq::empty())
    }
}

/// The set of paths known to be existing regular files.
pub open spec fn file_set(files: Seq<Seq<char>>) -> Set<Seq<char>> {
    Set::new(|p: Seq<char>| files.contains(p))
}

/// The match-engine reduction over the scan entries: a version already
/// recorded is skipped; a `No` match is skipped; a `Somewhat` match is
/// recorded when its path is a regular file; a `Yes` match that is a
/// regular file is recorded and ends the scan at once, which the second
/// component reports. A `Yes` match whose path is not a regular file
/// leaves its version vacant and the scan goes on.
pub open spec fn spec_scan(
    requested: RequestedVersion,
    entries: Seq<(ExactVersion, Seq<char>)>,
    files: Set<Seq<char>>,
    acc: Seq<(ExactVersion, Seq<char>)>,
) -> (Seq<(ExactVersion, Seq<char>)>, bool)
    decreases entries.len(),
{
    if entries.len() == 0 {
        (acc, false)
    } else {
        let e = entries[0];
        let rest = entries.drop_first();
        if table_has(acc, e.0) {
            spec_scan(requested, rest, files, acc)
        } else {
            match spec_matches(e.0, requested) {
                Match::No => spec_scan(requested, rest, files, acc),
                Match::Somewhat => if files.contains(e.1) {
                    spec_scan(requested, rest, files, acc.push(e))
                } else {
                    spec_scan(requested, rest, files, acc)
                },
                Match::Yes => if files.contains(e.1) {
                    (acc.push(e), true)
                } else {
                    spec_scan(requested, rest, files, acc)
                },
            }
        }
    }
}

/// The induction behind the scan's soundness, generalized over the
/// accumulator.
proof fn lemma_scan_entries(
    requested: RequestedVersion,
    entries: Seq<(ExactVersion, Seq<char>)>,
    files: Set<Seq<char>>,
    acc: Seq<(ExactVersion, Seq<char>)>,
)
    requires
        forall|k: int|
            0 <= k < acc.len() ==> spec_supports((#[trigger] acc[k]).0, requested)
                && files.contains(acc[k].1),
    ensures
        forall|k: int|
            0 <= k < spec_scan(requested, entries, files, acc).0.len() ==> spec_supports(
                (#[trigger] spec_scan(requested, entries, files, acc).0[k]).0,
                requested,
            ) && files.contains(spec_scan(requested, entries, files, acc).0[k].1),
    decreases entries.len(),
{
    if entries.len() > 0 {
        let e = entries[0];
        let rest = entries.drop_first();
        let g = spec_scan(requested, entries, files, acc).0;
        if !table_has(acc, e.0) && spec_matches(e.0, requested) == Match::Yes && files.contains(
            e.1,
        ) {
            assert(g == acc.push(e));
            assert forall|k: int|
                0 <= k < g.len() implies spec_supports((#[trigger] g[k]).0, requested)
                    && files.contains(g[k].1) by {
                if k < acc.len() {
                    assert(g[k] == acc[k]);
                } else {
                    assert(g[k] == e);
                }
            }
        } else {
            let recorded = !table_has(acc, e.0) && spec_matches(e.0, requested) == Match::Somewhat
                && files.contains(e.1);
            let acc2 = if recorded {
                acc.push(e)
            } else {
                acc
            };
            assert(forall|k: int|
                0 <= k < acc2.len() ==> spec_supports((#[trigger] acc2[k]).0, requested)
                    && files.contains(acc2[k].1)) by {
                if recorded {
                    assert(forall|k: int| 0 <= k < acc.len() ==> acc2[k] == #[trigger] acc[k]);
                    assert(acc2[acc.len() as int] == e);
                }
            }
            lemma_scan_entries(requested, rest, files, acc2);
            assert(g == spec_scan(requested, rest, files, acc2).0);
            assert forall|k: int|
                0 <= k < g.len() implies spec_supports((#[trigger] g[k]).0, requested)
                    && files.contains(g[k].1) by {
                assert(g[k] == spec_scan(requested, rest, files, acc2).0[k]);
            }
        }
    }
}

/// The scan records only sound candidates: every entry of its table
/// satisfies the requested version and is a known regular file, so the
/// later ranking picks the newest among the actual matches.
pub proof fn lemma_scan_records_matches(
    requested: RequestedVersion,
    entries: Seq<(ExactVersion, Seq<char>)>,
    files: Set<Seq<char>>,
)
    ensures
        forall|k: int|
            0 <= k < spec_scan(requested, entries, files, Seq::empty()).0.len() ==> spec_supports(
                (#[trigger] spec_scan(requested, entries, files, Seq::empty()).0[k]).0,
                requested,
            ) && files.contains(spec_scan(requested, entries, files, Seq::empty()).0[k].1),
{
    lemma_scan_entries(requested, entries, files, Seq::empty());
}

fn is_file(files: &Vec<String>, path: &String) -> (r: bool)
    ensures
        r == file_set(files.deep_view()).contains(path@),
{
    let mut k: usize = 0;
    while k < files.len()
        invariant
            0 <= k <= files@.len(),
            forall|i: int| 0 <= i < k ==> files.deep_view()[i] != path@,
        decreases files@.len() - k,
    {
        if files[k].eq(path) {
            assert(files.deep_view()[k as int] == path@);
            return true;
        }
        k += 1;
    }
    false
}

/// Find all executables acceptable for the requested version among the
/// directory listings of `PATH`, in search order. `dirs` holds each
/// directory's entries; `files` the paths known to be existing regular
/// files. An exact match that is a regular file ends the scan at once;
/// loose matches are collected from every directory.
pub fn available_executables(
    requested: RequestedVersion,
    dirs: &Vec<Vec<String>>,
    files: &Vec<String>,
) -> (r: Vec<(ExactVersion, String)>)
    ensures
        table_view(r@) == spec_scan(
            requested,
            spec_dir_entries(dirs.deep_view()),
            file_set(files.deep_view()),
            Seq::empty(),
        ).0,
        table_wf(table_view(r@)),
{
    let ghost all_dirs: Seq<Seq<Seq<char>>> = dirs.deep_view();
    let ghost fset = file_set(files.deep_view());
    let mut entries: Vec<(ExactVersion, String)> = Vec::new();
    let mut d: usize = 0;
    proof {
        assert(all_dirs.take(0) =~= Seq::<Seq<Seq<char>>>::empty());
        assert(table_view(entries@) =~= Seq::<(ExactVersion, Seq<char>)>::empty());
    }
    while d < dirs.len()
        invariant
            0 <= d <= dirs@.len(),
            all_dirs == dirs.deep_view(),
            table_view(entries@) == spec_dir_entries(all_dirs.take(d as int)),
        decreases dirs@.len() - d,
    {
        let filtered = filter_python_executables(&dirs[d]);
        proof {
            assert(dirs[d as int].deep_view() == all_dirs[d as int]);
        }
        let mut k: usize = 0;
        while k < filtered.len()
            invariant
                0 <= k <= filtered@.len(),
                table_view(entries@) == spec_dir_entries(all_dirs.take(d as int)) + table_view(
                    filtered@,
                ).take(k as int),
            decreases filtered@.len() - k,
        {
            let ghost old_view = table_view(entries@);
            let pair = &filtered[k];
            entries.push((pair.0, pair.1.clone()));
            proof {
                assert(table_view(entries@) =~= old_view.push((pair.0, pair.1@)));
                assert(table_view(filtered@).take(k as int + 1) =~= table_view(filtered@).take(
                    k as int,
                ).push((pair.0, pair.1@)));
                assert(table_view(entries@) =~= spec_dir_entries(all_dirs.take(d as int))
                    + table_view(filtered@).take(k as int + 1));
            }
            k += 1;
        }
        proof {
            assert(table_view(filtered@).take(filtered@.len() as int) =~= table_view(filtered@));
            assert(all_dirs.take(d as int + 1).drop_last() =~= all_dirs.take(d as int));
            assert(all_dirs.take(d as int + 1).last() == all_dirs[d as int]);
        }
        d += 1;
    }
    proof {
        assert(all_dirs.take(dirs@.len() as int) =~= all_dirs);
    }
    let ghost all_entries: Seq<(ExactVersion, Seq<char>)> = spec_dir_entries(all_dirs);
    let mut found: Vec<(ExactVersion, String)> = Vec::new();
    let mut j: usize = 0;
    proof {
        assert(all_entries.skip(0) =~= all_entries);
        assert(table_view(found@) =~= Seq::<(ExactVersion, Seq<char>)>::empty());
    }
    while j < entries.len()
        invariant
            0 <= j <= entries@.len(),
            fset == file_set(files.deep_view()),
            all_entries == spec_dir_entries(dirs.deep_view()),
            table_view(entries@) == all_entries,
            spec_scan(requested, all_entries, fset, Seq::empty()) == spec_scan(
                requested,
                all_entries.skip(j as int),
                fset,
                table_view(found@),
            ),
            table_wf(table_view(found@)),
        decreases entries@.len() - j,
    {
        let e = &entries[j];
        proof {
            assert(all_entries.skip(j as int)[0] == all_entries[j as int]);
            assert(all_entries[j as int] == (e.0, e.1@));
            assert(all_entries.skip(j as int).drop_first() =~= all_entries.skip(j as int + 1));
        }
        if !contains_version(&found, e.0) {
            match e.0.matches(requested) {
                Match::No => {},
                Match::Somewhat => {
                    if is_file(files, &e.1) {
                        let ghost old_view = table_view(found@);
                        found.push((e.0, e.1.clone()));
                        proof {
                            assert(table_view(found@) =~= old_view.push((e.0, e.1@)));
                        }
                    }
                },
                Match::Yes => {
                    if is_file(files, &e.1) {
                        let ghost old_view = table_view(found@);
                        found.push((e.0, e.1.clone()));
                        proof {
                            assert(table_view(found@) =~= old_view.push((e.0, e.1@)));
                            assert(spec_scan(requested, all_entries.skip(j as int), fset, old_view)
                                == (old_view.push((e.0, e.1@)), true));
                        }
                        return found;
                    }
                },
            }
        }
        j += 1;
    }
    proof {
        assert(all_entries.skip(entries@.len() as int) =~= Seq::<(ExactVersion, Seq<char>)>::empty());
    }
    found
}

fn version_less(a: &ExactVersion, b: &ExactVersion) -> (r: bool)
    ensures
        r == version_lt(*a, *b),
{
    a.major < b.major || (a.major == b.major && a.minor < b.minor)
}

/// Finds the executable representing the latest Python version recorded
/// in the table.
pub fn choose_executable(version_paths: &Vec<(ExactVersion, String)>) -> (r: Option<String>)
    requires
        table_wf(table_view(version_paths@)),
    ensures
        (r is None) <==> version_paths@.len() == 0,
        r matches Some(p) ==> exists|i: int|
            0 <= i < table_view(version_paths@).len() && #[trigger] table_view(version_paths@)[i].1
                == p@ && forall|j: int|
                0 <= j < table_view(version_paths@).len() ==> version_le(
                    table_view(version_paths@)[j].0,
                    table_view(version_paths@)[i].0,
                ),
{
    let ghost tv = table_view(version_paths@);
    if version_paths.len() == 0 {
        return None;
    }
    let mut best: usize = 0;
    let mut k: usize = 1;
    while k < version_paths.len()
        invariant
            0 <= best < k <= version_paths@.len(),
            tv == table_view(version_paths@),
            forall|j: int| 0 <= j < k ==> version_le(tv[j].0, tv[best as int].0),
        decreases version_paths@.len() - k,
    {
        if version_less(&version_paths[best].0, &version_paths[k].0) {
            best = k;
        }
        k += 1;
    }
    let path = version_paths[best].1.clone();
    proof {
        assert(tv[best as int].1 == path@);
        assert(0 <= best < tv.len() && tv[best as int].1 == path@ && forall|j: int|
            0 <= j < tv.len() ==> version_le(tv[j].0, tv[best as int].0));
    }
    Some(path)
}

/// Attempts to find an executable among `paths` that satisfies the
/// requested version: the newest recorded version that supports the
/// request, or `None` when none does.
pub fn find_executable(requested: RequestedVersion, paths: &Vec<String>) -> (r: Option<String>)
    ensures
        ({
            let t = spec_filter(paths.deep_view(), Seq::empty());
            &&& (r is Some) <==> exists|i: int|
                0 <= i < t.len() && spec_supports(#[trigger] t[i].0, requested)
            &&& r matches Some(p) ==> exists|i: int|
                0 <= i < t.len() && #[trigger] t[i].1 == p@ && spec_supports(t[i].0, requested)
                    && forall|j: int|
                    0 <= j < t.len() && spec_supports(#[trigger] t[j].0, requested)
                        ==> version_le(t[j].0, t[i].0)
        }),
{
    let found_executables = all_executables(paths);
    let ghost t = table_view(found_executables@);
    let mut best: Option<usize> = None;
    let mut k: usize = 0;
    while k < found_executables.len()
        invariant
            0 <= k <= found_executables@.len(),
            t == table_view(found_executables@),
            match best {
                Some(b) => 0 <= b < k && spec_supports(t[b as int].0, requested) && forall|j: int|
                    0 <= j < k && spec_supports(#[trigger] t[j].0, requested) ==> version_le(
                        t[j].0,
                        t[b as int].0,
                    ),
                None => forall|j: int|
                    0 <= j < k ==> !spec_supports(#[trigger] t[j].0, requested),
            },
        decreases found_executables@.len() - k,
    {
        if found_executables[k].0.supports(requested) {
            match best {
                Some(b) => {
                    if version_less(&found_executables[b].0, &found_executables[k].0) {
                        best = Some(k);
                    }
                },
                None => {
                    best = Some(k);
                },
            }
        }
        k += 1;
    }
    match best {
        Some(b) => {
            let path = found_executables[b].1.clone();
            proof {
                assert(t[b as int].1 == path@);
                assert(0 <= b < t.len() && t[b as int].1 == path@ && spec_supports(
                    t[b as int].0,
                    requested,
                ) && forall|j: int|
                    0 <= j < t.len() && spec_supports(#[trigger] t[j].0, requested)
                        ==> version_le(t[j].0, t[b as int].0));
            }
            Some(path)
        },
        None => None,
    }
}

} // verus!
