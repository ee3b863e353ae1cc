//! The engine's cross-cutting guarantees, each stated and proved over
//! the same spec functions the executable contracts use.

use vstd::prelude::*;
use crate::compile_command::{CompileCommand, SourceFile};
use crate::config::Config;
use crate::project::{Project, spec_compile_command, spec_output_file};
use crate::resolver::{dep_names, order_wf, resolves_earlier};
use crate::orchestrator::{spec_is_stale, spec_stale_files, spec_upstream};

verus! {

/// Every element of a filtered sequence comes from the original one.
proof fn lemma_filter_subset<A>(s: Seq<A>, pred: spec_fn(A) -> bool, x: A)
    requires
        s.filter(pred).contains(x),
    ensures
        s.contains(x),
    decreases s.len(),
{
    reveal(Seq::filter);
    if s.len() > 0 {
        if x == s.last() {
            assert(s[s.len() - 1] == x);
        } else if s.drop_last().filter(pred).contains(x) {
            lemma_filter_subset(s.drop_last(), pred, x);
            let i = choose|i: int| 0 <= i < s.drop_last().len() && s.drop_last()[i] == x;
            assert(s[i] == x);
        } else {
            assert(s.filter(pred) == if pred(s.last()) {
                s.drop_last().filter(pred).push(s.last())
            } else {
                s.drop_last().filter(pred)
            });
            let i = choose|i: int| 0 <= i < s.filter(pred).len() && s.filter(pred)[i] == x;
            if pred(s.last()) {
                assert(s.drop_last().filter(pred).contains(x));
            } else {
                assert(s.drop_last().filter(pred).contains(x));
            }
        }
    }
}

/// Filtering with a predicate that holds nowhere yields the empty
/// sequence.
proof fn lemma_filter_none<A>(s: Seq<A>, pred: spec_fn(A) -> bool)
    requires
        forall|i: int| 0 <= i < s.len() ==> !pred(#[trigger] s[i]),
    ensures
        s.filter(pred).len() == 0,
    decreases s.len(),
{
    reveal(Seq::filter);
    if s.len() > 0 {
        assert(forall|i: int| 0 <= i < s.drop_last().len() ==> !pred(#[trigger] s.drop_last()[i]));
        lemma_filter_none(s.drop_last(), pred);
        assert(!pred(s[s.len() - 1]));
    }
}

/// No two source files of a listing share a path.
pub open spec fn distinct_paths(files: Seq<SourceFile>) -> bool {
    forall|a: int, b: int| 0 <= a < b < files.len() ==> files[a].path@ != files[b].path@
}

/// Filtering keeps paths distinct.
proof fn lemma_filter_distinct_paths(s: Seq<SourceFile>, pred: spec_fn(SourceFile) -> bool)
    requires
        distinct_paths(s),
    ensures
        distinct_paths(s.filter(pred)),
    decreases s.len(),
{
    reveal(Seq::filter);
    if s.len() > 0 {
        assert(distinct_paths(s.drop_last()));
        lemma_filter_distinct_paths(s.drop_last(), pred);
        if pred(s.last()) {
            let f = s.filter(pred);
            let g = s.drop_last().filter(pred);
            assert(f == g.push(s.last()));
            assert forall|a: int, b: int| 0 <= a < b < f.len() implies f[a].path@
                != f[b].path@ by {
                if b == f.len() - 1 {
                    assert(g.contains(g[a]));
                    lemma_filter_subset(s.drop_last(), pred, g[a]);
                    let i = choose|i: int|
                        0 <= i < s.drop_last().len() && s.drop_last()[i] == g[a];
                    assert(s[i] == g[a]);
                    assert(s[i].path@ != s[s.len() - 1].path@);
                }
            }
        }
    }
}

/// A project that declares no dependencies and whose sources are all
/// up to date against the cache needs no work at all: its stale set is
/// empty and no upstream rebuild exists, so a build of it runs zero
/// compiler and zero linker or archiver processes.
pub proof fn lemma_unchanged_project_needs_no_work(
    projects: Seq<Project>,
    order: Seq<usize>,
    results: Seq<bool>,
    pos: int,
    cache: Map<Seq<char>, u64>,
    c: Config,
    files: Seq<SourceFile>,
)
    requires
        0 <= pos < order.len(),
        (order[pos] as int) < projects.len(),
        dep_names(projects[order[pos] as int]).len() == 0,
        forall|i: int|
            0 <= i < files.len() ==> !spec_is_stale(
                cache,
                projects[order[pos] as int],
                c,
                #[trigger] files[i],
            ),
    ensures
        spec_stale_files(cache, projects[order[pos] as int], c, files).len() == 0,
        !spec_upstream(projects, order, results, pos),
{
    let p = projects[order[pos] as int];
    lemma_filter_none(files, |f: SourceFile| spec_is_stale(cache, p, c, f));
    if spec_upstream(projects, order, results, pos) {
        let j = choose|j: int|
            0 <= j < results.len() && results[j] && dep_names(
                projects[order[pos] as int],
            ).contains(projects[order[j] as int].name@);
        let k = choose|k: int|
            0 <= k < dep_names(p).len() && dep_names(p)[k] == projects[order[j] as int].name@;
    }
}

/// A stale source file is compiled exactly once: it stands at exactly
/// one position of the stale set, and the command generator produces
/// exactly one invocation per position.
pub proof fn lemma_stale_file_compiled_once(
    cache: Map<Seq<char>, u64>,
    p: Project,
    c: Config,
    files: Seq<SourceFile>,
    i: int,
)
    requires
        0 <= i < files.len(),
        distinct_paths(files),
        spec_is_stale(cache, p, c, files[i]),
    ensures
        spec_stale_files(cache, p, c, files).contains(files[i]),
        forall|j1: int, j2: int|
            (0 <= j1 < spec_stale_files(cache, p, c, files).len() && 0 <= j2 < spec_stale_files(
                cache,
                p,
                c,
                files,
            ).len() && (#[trigger] spec_stale_files(cache, p, c, files)[j1]) == files[i] && (
            #[trigger] spec_stale_files(cache, p, c, files)[j2]) == files[i]) ==> j1 == j2,
{
    let pred = |f: SourceFile| spec_is_stale(cache, p, c, f);
    let stale = files.filter(pred);
    files.lemma_filter_contains(pred, i);
    lemma_filter_distinct_paths(files, pred);
    assert forall|j1: int, j2: int|
        0 <= j1 < stale.len() && 0 <= j2 < stale.len() && stale[j1] == files[i] && stale[j2]
            == files[i] implies j1 == j2 by {
        if j1 < j2 {
            assert(stale[j1].path@ != stale[j2].path@);
        }
        if j2 < j1 {
            assert(stale[j2].path@ != stale[j1].path@);
        }
    }
}

/// For every declared edge the dependency stands strictly earlier in a
/// well-formed build order than its dependent, so its whole build —
/// compile and link — completes before the dependent's staleness check
/// begins.
pub proof fn lemma_dependency_ordered_first(
    projects: Seq<Project>,
    order: Seq<usize>,
    a: int,
    k: int,
)
    requires
        order_wf(projects, order),
        0 <= a < order.len(),
        0 <= k < dep_names(projects[order[a] as int]).len(),
    ensures
        resolves_earlier(projects, order, a, k),
{
}

/// When a completed project rebuilt and the current project declares a
/// dependency bearing its name, the current project sees an upstream
/// change — so it is relinked even with no stale files of its own.
pub proof fn lemma_rebuilt_dependency_forces_relink(
    projects: Seq<Project>,
    order: Seq<usize>,
    results: Seq<bool>,
    pos: int,
    j: int,
)
    requires
        0 <= j < results.len(),
        results[j],
        dep_names(projects[order[pos] as int]).contains(projects[order[j] as int].name@),
    ensures
        spec_upstream(projects, order, results, pos),
{
}

/// Two compile commands generated for the same source file of the same
/// project under the same configuration carry identical executables and
/// identical argument lists: the emitted database record can never
/// diverge from the invocation the build executes.
pub proof fn lemma_database_matches_build(
    db_record: CompileCommand,
    build_command: CompileCommand,
    dir: Seq<char>,
    p: Project,
    f: SourceFile,
    c: Config,
)
    requires
        spec_compile_command(db_record, dir, p, f, c),
        spec_compile_command(build_command, dir, p, f, c),
    ensures
        db_record.command@ == build_command.command@,
        db_record.arguments.deep_view() == build_command.arguments.deep_view(),
        db_record.file@ == build_command.file@,
{
}

/// The object paths that compiling `stale` writes include `key`.
pub open spec fn writes_key(p: Project, c: Config, stale: Seq<SourceFile>, key: Seq<char>) -> bool {
    exists|i: int| 0 <= i < stale.len() && spec_output_file(c.obj@, p.name@, stale[i].path@) == key
}

/// The cache after compiling `stale` in order, each file's object
/// recorded at the matching time.
pub open spec fn spec_cache_after(
    cache: Map<Seq<char>, u64>,
    p: Project,
    c: Config,
    stale: Seq<SourceFile>,
    times: Seq<u64>,
) -> Map<Seq<char>, u64>
    decreases stale.len(),
{
    if stale.len() == 0 {
        cache
    } else {
        spec_cache_after(cache, p, c, stale.drop_last(), times.drop_last()).insert(
            spec_output_file(c.obj@, p.name@, stale.last().path@),
            times.last(),
        )
    }
}

proof fn lemma_writes_key_unfold(p: Project, c: Config, stale: Seq<SourceFile>, key: Seq<char>)
    requires
        stale.len() > 0,
    ensures
        writes_key(p, c, stale, key) <==> (writes_key(p, c, stale.drop_last(), key)
            || spec_output_file(c.obj@, p.name@, stale.last().path@) == key),
{
    if writes_key(p, c, stale, key) {
        let i = choose|i: int|
            0 <= i < stale.len() && spec_output_file(c.obj@, p.name@, stale[i].path@) == key;
        if i < stale.len() - 1 {
            assert(stale.drop_last()[i] == stale[i]);
            assert(writes_key(p, c, stale.drop_last(), key));
        }
    }
    if writes_key(p, c, stale.drop_last(), key) {
        let i = choose|i: int|
            0 <= i < stale.drop_last().len() && spec_output_file(
                c.obj@,
                p.name@,
                stale.drop_last()[i].path@,
            ) == key;
        assert(stale[i] == stale.drop_last()[i]);
        assert(writes_key(p, c, stale, key));
    }
    if spec_output_file(c.obj@, p.name@, stale.last().path@) == key {
        assert(stale[stale.len() - 1] == stale.last());
        assert(writes_key(p, c, stale, key));
    }
}

proof fn lemma_cache_after_props(
    cache: Map<Seq<char>, u64>,
    p: Project,
    c: Config,
    stale: Seq<SourceFile>,
    times: Seq<u64>,
)
    requires
        times.len() == stale.len(),
    ensures
        forall|key: Seq<char>|
            #[trigger] spec_cache_after(cache, p, c, stale, times).contains_key(key) <==> (
            cache.contains_key(key) || writes_key(p, c, stale, key)),
        forall|key: Seq<char>|
            #[trigger] spec_cache_after(cache, p, c, stale, times).contains_key(key) && !writes_key(
                p,
                c,
                stale,
                key,
            ) ==> spec_cache_after(cache, p, c, stale, times)[key] == cache[key],
        forall|key: Seq<char>|
            #[trigger] writes_key(p, c, stale, key) ==> spec_cache_after(
                cache,
                p,
                c,
                stale,
                times,
            ).contains_key(key) && exists|i: int|
                0 <= i < times.len() && spec_cache_after(cache, p, c, stale, times)[key]
                    == times[i],
    decreases stale.len(),
{
    let after = spec_cache_after(cache, p, c, stale, times);
    if stale.len() == 0 {
        assert forall|key: Seq<char>| !writes_key(p, c, stale, key) by {
            if writes_key(p, c, stale, key) {
                let i = choose|i: int|
                    0 <= i < stale.len() && spec_output_file(c.obj@, p.name@, stale[i].path@)
                        == key;
            }
        }
    } else {
        lemma_cache_after_props(cache, p, c, stale.drop_last(), times.drop_last());
        let prev = spec_cache_after(cache, p, c, stale.drop_last(), times.drop_last());
        let last_key = spec_output_file(c.obj@, p.name@, stale.last().path@);
        assert(after == prev.insert(last_key, times.last()));
        assert forall|key: Seq<char>| #[trigger] after.contains_key(key) <==> (cache.contains_key(
            key,
        ) || writes_key(p, c, stale, key)) by {
            lemma_writes_key_unfold(p, c, stale, key);
        }
        assert forall|key: Seq<char>|
            #[trigger] after.contains_key(key) && !writes_key(p, c, stale, key) implies after[key]
            == cache[key] by {
            lemma_writes_key_unfold(p, c, stale, key);
            assert(key != last_key);
            assert(after[key] == prev[key]);
        }
        assert forall|key: Seq<char>| #[trigger] writes_key(p, c, stale, key) implies
            after.contains_key(key) && exists|i: int|
            0 <= i < times.len() && after[key] == times[i] by {
            lemma_writes_key_unfold(p, c, stale, key);
            if key == last_key {
                assert(after[key] == times.last());
                assert(times[times.len() - 1] == times.last());
            } else {
                assert(writes_key(p, c, stale.drop_last(), key));
                assert(after[key] == prev[key]);
                let i = choose|i: int|
                    0 <= i < times.drop_last().len() && prev[key] == times.drop_last()[i];
                assert(times[i] == times.drop_last()[i]);
            }
        }
    }
}

/// Idempotence: after a successful build — every stale file compiled
/// and its object's build time recorded, all at times no older than any
/// source's modification time — a second build over the same listing
/// finds nothing stale, so it compiles nothing, links nothing and
/// leaves the cache exactly as it stands.
pub proof fn lemma_second_build_finds_nothing_stale(
    cache: Map<Seq<char>, u64>,
    p: Project,
    c: Config,
    files: Seq<SourceFile>,
    times: Seq<u64>,
)
    requires
        times.len() == spec_stale_files(cache, p, c, files).len(),
        forall|i: int, j: int|
            0 <= i < times.len() && 0 <= j < files.len() ==> #[trigger] times[i]
                >= #[trigger] files[j].modified,
    ensures
        spec_stale_files(
            spec_cache_after(cache, p, c, spec_stale_files(cache, p, c, files), times),
            p,
            c,
            files,
        ).len() == 0,
{
    let pred = |f: SourceFile| spec_is_stale(cache, p, c, f);
    let stale = spec_stale_files(cache, p, c, files);
    let cache2 = spec_cache_after(cache, p, c, stale, times);
    lemma_cache_after_props(cache, p, c, stale, times);
    assert forall|t: int| 0 <= t < files.len() implies !spec_is_stale(
        cache2,
        p,
        c,
        #[trigger] files[t],
    ) by {
        let key = spec_output_file(c.obj@, p.name@, files[t].path@);
        if writes_key(p, c, stale, key) {
            assert(cache2.contains_key(key));
            let i = choose|i: int| 0 <= i < times.len() && cache2[key] == times[i];
            assert(times[i] >= files[t].modified);
        } else {
            if spec_is_stale(cache, p, c, files[t]) {
                files.lemma_filter_contains(pred, t);
                assert(stale.contains(files[t]));
                let i = choose|i: int| 0 <= i < stale.len() && stale[i] == files[t];
                assert(spec_output_file(c.obj@, p.name@, stale[i].path@) == key);
                assert(writes_key(p, c, stale, key));
            }
            assert(cache.contains_key(key) && !(cache[key] < files[t].modified));
            assert(cache2.contains_key(key));
            assert(cache2[key] == cache[key]);
        }
    }
    lemma_filter_none(files, |f: SourceFile| spec_is_stale(cache2, p, c, f));
}

} // verus!
