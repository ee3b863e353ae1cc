//! Dependency resolution: expanding a target project's transitive
//! dependencies into a build order in which every dependency stands
//! strictly before its dependents, with the target last. The walk
//! carries a visiting set, so a manifest whose edges form a cycle is
//! rejected with a dedicated error instead of recursing unboundedly; an
//! edge naming an unknown project is fatal too.

use vstd::prelude::*;
use crate::project::Project;
use crate::config::opt_list;
use crate::error::BuildError;

verus! {

/// The dependency names a project declares (empty when it declares none).
pub open spec fn dep_names(p: Project) -> Seq<Seq<char>> {
    opt_list(p.depends)
}

/// `i` is the index a project name resolves to: the first index whose
/// project bears that name.
pub open spec fn is_first_match(projects: Seq<Project>, name: Seq<char>, i: int) -> bool {
    &&& 0 <= i < projects.len()
    &&& projects[i].name@ == name
    &&& forall|j: int| 0 <= j < i ==> projects[j].name@ != name
}

/// Some project bears this name.
pub open spec fn has_match(projects: Seq<Project>, name: Seq<char>) -> bool {
    exists|i: int| 0 <= i < projects.len() && projects[i].name@ == name
}

/// Project `a` declares a dependency that resolves to project `b`.
pub open spec fn spec_edge(projects: Seq<Project>, a: int, b: int) -> bool {
    exists|k: int|
        0 <= k < dep_names(projects[a]).len() && is_first_match(
            projects,
            dep_names(projects[a])[k],
            b,
        )
}

/// A non-empty index sequence each of whose members depends on the
/// next, wrapping around at the end: a dependency cycle.
pub open spec fn is_dep_cycle(projects: Seq<Project>, c: Seq<int>) -> bool {
    &&& c.len() > 0
    &&& forall|t: int| 0 <= t < c.len() ==> 0 <= #[trigger] c[t] < projects.len()
    &&& forall|t: int| 0 <= t < c.len() - 1 ==> spec_edge(projects, #[trigger] c[t], c[t + 1])
    &&& spec_edge(projects, c[c.len() - 1], c[0])
}

/// Index `i` occurs in the order.
pub open spec fn in_order(order: Seq<usize>, i: int) -> bool {
    exists|t: int| 0 <= t < order.len() && #[trigger] order[t] as int == i
}

/// The `k`-th dependency of the project at order position `a` resolves
/// to an index that stands strictly earlier in the order.
pub open spec fn resolves_earlier(
    projects: Seq<Project>,
    order: Seq<usize>,
    a: int,
    k: int,
) -> bool {
    exists|b: int|
        0 <= b < a && is_first_match(
            projects,
            dep_names(projects[order[a] as int])[k],
            order[b] as int,
        )
}

/// Every dependency of every ordered project resolves, and resolves to
/// an index that stands strictly earlier in the order.
pub open spec fn order_deps_ok(projects: Seq<Project>, order: Seq<usize>) -> bool {
    forall|a: int, k: int|
        0 <= a < order.len() && 0 <= k < dep_names(projects[order[a] as int]).len()
            ==> #[trigger] resolves_earlier(projects, order, a, k)
}

/// A safe build order: valid, duplicate-free indices, dependencies
/// strictly before dependents.
pub open spec fn order_wf(projects: Seq<Project>, order: Seq<usize>) -> bool {
    &&& forall|t: int| 0 <= t < order.len() ==> (#[trigger] order[t] as int) < projects.len()
    &&& forall|a: int, b: int| 0 <= a < b < order.len() ==> order[a] != order[b]
    &&& order_deps_ok(projects, order)
}

/// Walk bookkeeping: each project is unvisited (0), being visited (1)
/// or fully ordered (2), and the ordered ones are exactly those in the
/// order built so far, which is itself a safe build order.
spec fn states_ok(projects: Seq<Project>, state: Seq<u8>, order: Seq<usize>) -> bool {
    &&& state.len() == projects.len()
    &&& forall|i: int| 0 <= i < state.len() ==> #[trigger] state[i] <= 2
    &&& forall|i: int| 0 <= i < state.len() ==> ((#[trigger] state[i] == 2) <==> in_order(order, i))
    &&& order_wf(projects, order)
}

/// The visiting set is exactly the walk's current path, and consecutive
/// path members are dependency edges.
spec fn stack_ok(projects: Seq<Project>, state: Seq<u8>, stack: Seq<int>) -> bool {
    &&& forall|t: int| 0 <= t < stack.len() ==> 0 <= #[trigger] stack[t] < projects.len()
    &&& forall|i: int| 0 <= i < state.len() ==> ((#[trigger] state[i] == 1) <==> stack.contains(i))
    &&& forall|t: int|
        0 <= t < stack.len() - 1 ==> spec_edge(projects, #[trigger] stack[t], stack[t + 1])
}

/// The first `upto` declared dependencies of project `idx` each resolve
/// to an index already fully ordered.
spec fn deps_done(projects: Seq<Project>, state: Seq<u8>, idx: int, upto: int) -> bool {
    forall|k2: int|
        0 <= k2 < upto ==> exists|m: int|
            is_first_match(projects, #[trigger] dep_names(projects[idx])[k2], m) && state[m] == 2
}

/// How many projects the walk has not reached yet.
spec fn count_zeros(s: Seq<u8>) -> nat
    decreases s.len(),
{
    if s.len() == 0 {
        0
    } else {
        count_zeros(s.drop_last()) + if s.last() == 0 {
            1nat
        } else {
            0nat
        }
    }
}

proof fn lemma_count_zeros_le(s1: Seq<u8>, s2: Seq<u8>)
    requires
        s1.len() == s2.len(),
        forall|i: int| 0 <= i < s1.len() ==> (#[trigger] s2[i] == 0 ==> s1[i] == 0),
    ensures
        count_zeros(s2) <= count_zeros(s1),
    decreases s1.len(),
{
    if s1.len() > 0 {
        assert(forall|i: int|
            0 <= i < s1.len() - 1 ==> (#[trigger] s2.drop_last()[i] == 0 ==> s1.drop_last()[i]
                == 0));
        lemma_count_zeros_le(s1.drop_last(), s2.drop_last());
        assert(s2.last() == s2[s1.len() - 1]);
    }
}

proof fn lemma_count_zeros_lt(s1: Seq<u8>, s2: Seq<u8>, w: int)
    requires
        s1.len() == s2.len(),
        forall|i: int| 0 <= i < s1.len() ==> (#[trigger] s2[i] == 0 ==> s1[i] == 0),
        0 <= w < s1.len(),
        s1[w] == 0,
        s2[w] != 0,
    ensures
        count_zeros(s2) < count_zeros(s1),
    decreases s1.len(),
{
    assert(forall|i: int|
        0 <= i < s1.len() - 1 ==> (#[trigger] s2.drop_last()[i] == 0 ==> s1.drop_last()[i] == 0));
    if w == s1.len() - 1 {
        lemma_count_zeros_le(s1.drop_last(), s2.drop_last());
        assert(s1.last() == s1[w]);
        assert(s2.last() == s2[w]);
    } else {
        lemma_count_zeros_lt(s1.drop_last(), s2.drop_last(), w);
        assert(s2.last() == s2[s1.len() - 1]);
    }
}

/// The first project bearing `name`, if any.
pub fn find_project(projects: &Vec<Project>, name: &String) -> (r: Option<usize>)
    ensures
        match r {
            Some(i) => is_first_match(projects@, name@, i as int),
            None => !has_match(projects@, name@),
        },
{
    let mut i: usize = 0;
    while i < projects.len()
        invariant
            i <= projects@.len(),
            forall|j: int| 0 <= j < i ==> projects@[j].name@ != name@,
        decreases projects@.len() - i,
    {
        if projects[i].name == *name {
            return Some(i);
        }
        i += 1;
    }
    None
}

/// Resolve a project's direct dependency names to indices, in
/// declaration order; an unresolved name is the fatal
/// `UnknownDependency` error.
#[verifier::loop_isolation(false)]
pub fn get_dependencies(projects: &Vec<Project>, project: &Project) -> (r: Result<
    Vec<usize>,
    BuildError,
>)
    ensures
        match r {
            Ok(ds) => {
                &&& ds@.len() == dep_names(*project).len()
                &&& forall|k: int|
                    0 <= k < ds@.len() ==> is_first_match(
                        projects@,
                        dep_names(*project)[k],
                        #[trigger] ds@[k] as int,
                    )
            },
            Err(e) => {
                &&& e is UnknownDependency
                &&& !has_match(projects@, e->UnknownDependency_0@)
                &&& dep_names(*project).contains(e->UnknownDependency_0@)
            },
        },
{
    let mut ds: Vec<usize> = Vec::new();
    match &project.depends {
        Option::Some(names) => {
            let mut k: usize = 0;
            while k < names.len()
                invariant
                    k <= names@.len(),
                    ds@.len() == k,
                    forall|k2: int|
                        0 <= k2 < k as int ==> is_first_match(
                            projects@,
                            dep_names(*project)[k2],
                            #[trigger] ds@[k2] as int,
                        ),
                decreases names@.len() - k,
            {
                match find_project(projects, &names[k]) {
                    Option::Some(m) => {
                        ds.push(m);
                    },
                    Option::None => {
                        proof {
                            assert(dep_names(*project)[k as int] == names@[k as int]@);
                        }
                        return Err(BuildError::UnknownDependency(names[k].clone()));
                    },
                }
                k += 1;
            }
            Ok(ds)
        },
        Option::None => Ok(ds),
    }
}

/// Completing a visit: marking `idx` ordered and appending it to the
/// order preserves the walk invariants, because all of its dependencies
/// are already ordered.
proof fn lemma_finish_visit(projects: Seq<Project>, state: Seq<u8>, order: Seq<usize>, idx: usize)
    requires
        states_ok(projects, state, order),
        idx < projects.len(),
        state[idx as int] == 1,
        deps_done(projects, state, idx as int, dep_names(projects[idx as int]).len() as int),
    ensures
        states_ok(projects, state.update(idx as int, 2), order.push(idx)),
{
    let state2 = state.update(idx as int, 2);
    let order2 = order.push(idx);
    assert(!in_order(order, idx as int));
    assert(order2[order.len() as int] as int == idx as int);
    assert forall|i: int| in_order(order2, i) <==> (in_order(order, i) || i == idx as int) by {
        if in_order(order2, i) {
            let t = choose|t: int| 0 <= t < order2.len() && #[trigger] order2[t] as int == i;
            if t < order.len() {
                assert(order[t] as int == i);
            }
        }
        if in_order(order, i) {
            let t = choose|t: int| 0 <= t < order.len() && #[trigger] order[t] as int == i;
            assert(order2[t] as int == i);
        }
    }
    assert forall|i: int| 0 <= i < state2.len() implies ((#[trigger] state2[i] == 2) <==> in_order(
        order2,
        i,
    )) by {
        if i != idx as int {
            assert(state2[i] == state[i]);
            assert((state[i] == 2) <==> in_order(order, i));
        }
    }
    assert forall|t: int| 0 <= t < order2.len() implies (#[trigger] order2[t] as int)
        < projects.len() by {
        if t < order.len() as int {
            assert(order2[t] == order[t]);
        }
    }
    assert forall|a: int, b: int| 0 <= a < b < order2.len() implies order2[a] != order2[b] by {
        if b == order.len() as int {
            assert(order2[a] == order[a]);
            if order2[a] == idx {
                assert(in_order(order, idx as int));
            }
        } else {
            assert(order2[a] == order[a]);
            assert(order2[b] == order[b]);
        }
    }
    assert forall|a: int, k: int|
        0 <= a < order2.len() && 0 <= k < dep_names(
            projects[order2[a] as int],
        ).len() implies #[trigger] resolves_earlier(projects, order2, a, k) by {
        if a < order.len() as int {
            assert(order2[a] == order[a]);
            assert(order_deps_ok(projects, order));
            assert(0 <= k < dep_names(projects[order[a] as int]).len());
            assert(resolves_earlier(projects, order, a, k));
            let b = choose|b: int|
                0 <= b < a && is_first_match(
                    projects,
                    dep_names(projects[order[a] as int])[k],
                    order[b] as int,
                );
            assert(order2[b] == order[b]);
            assert(is_first_match(
                projects,
                dep_names(projects[order2[a] as int])[k],
                order2[b] as int,
            ));
        } else {
            assert(order2[a] as int == idx as int);
            assert(projects[order2[a] as int] == projects[idx as int]);
            assert(0 <= k < dep_names(projects[idx as int]).len());
            let dn = dep_names(projects[idx as int])[k];
            assert(exists|m: int|
                is_first_match(projects, dep_names(projects[idx as int])[k], m) && state[m]
                    == 2);
            let m = choose|m: int|
                is_first_match(projects, dep_names(projects[idx as int])[k], m) && state[m]
                    == 2;
            assert(0 <= m < projects.len());
            assert(in_order(order, m));
            let b = choose|b: int| 0 <= b < order.len() && #[trigger] order[b] as int == m;
            assert(order2[b] as int == m);
            assert(is_first_match(
                projects,
                dep_names(projects[order2[a] as int])[k],
                order2[b] as int,
            ));
        }
    }
    assert forall|i: int| 0 <= i < state2.len() implies #[trigger] state2[i] <= 2 by {
        if i != idx as int {
            assert(state2[i] == state[i]);
        }
    }
    assert(state2.len() == projects.len());
    assert(forall|i: int| 0 <= i < state2.len() ==> #[trigger] state2[i] <= 2);
    assert(forall|i: int|
        0 <= i < state2.len() ==> ((#[trigger] state2[i] == 2) <==> in_order(order2, i)));
    assert(forall|t: int| 0 <= t < order2.len() ==> (#[trigger] order2[t] as int) < projects.len());
    assert(forall|a: int, b: int| 0 <= a < b < order2.len() ==> order2[a] != order2[b]);
    assert(order_deps_ok(projects, order2));
    assert(order_wf(projects, order2));
    assert(states_ok(projects, state2, order2));
}

/// Depth-first walk from `idx`: orders all of its unreached
/// dependencies, then `idx` itself; rejects unknown names and cycles.
#[verifier::loop_isolation(false)]
#[verifier::rlimit(100)]
fn visit(
    projects: &Vec<Project>,
    idx: usize,
    state: &mut Vec<u8>,
    order: &mut Vec<usize>,
    Ghost(stack): Ghost<Seq<int>>,
) -> (r: Result<(), BuildError>)
    requires
        idx < projects@.len(),
        old(state)@[idx as int] == 0,
        states_ok(projects@, old(state)@, old(order)@),
        stack_ok(projects@, old(state)@, stack),
        stack.len() > 0 ==> spec_edge(projects@, stack.last(), idx as int),
    ensures
        match r {
            Ok(()) => {
                &&& states_ok(projects@, final(state)@, final(order)@)
                &&& final(state)@.len() == old(state)@.len()
                &&& forall|i: int|
                    0 <= i < old(state)@.len() ==> old(state)@[i] <= #[trigger] final(state)@[i]
                &&& forall|i: int|
                    0 <= i < old(state)@.len() ==> ((old(state)@[i] == 1) <==> (
                    #[trigger] final(state)@[i] == 1))
                &&& final(state)@[idx as int] == 2
                &&& forall|t: int|
                    0 <= t < old(order)@.len() ==> #[trigger] final(order)@[t] == old(order)@[t]
                &&& final(order)@.len() > old(order)@.len()
                &&& final(order)@.last() == idx
            },
            Err(e) => {
                &&& (e is UnknownDependency ==> !has_match(projects@, e->UnknownDependency_0@))
                &&& (e is DependencyCycle ==> exists|c: Seq<int>| is_dep_cycle(projects@, c))
                &&& (e is UnknownDependency || e is DependencyCycle)
            },
        },
    decreases count_zeros(old(state)@),
{
    broadcast use vstd::seq_lib::lemma_seq_contains_after_push;

    let ghost entry_state = state@;
    let ghost entry_order = order@;
    state.set(idx, 1);
    let ghost path = stack.push(idx as int);
    proof {
        assert(path.last() == idx as int);
        assert(!in_order(entry_order, idx as int));
        assert(states_ok(projects@, state@, order@));
        assert(stack_ok(projects@, state@, path));
    }
    match &projects[idx].depends {
        Option::Some(names) => {
            let mut k: usize = 0;
            while k < names.len()
                invariant
                    k <= names@.len(),
                    state@[idx as int] == 1,
                    states_ok(projects@, state@, order@),
                    stack_ok(projects@, state@, path),
                    forall|i: int|
                        0 <= i < state@.len() ==> entry_state[i] <= #[trigger] state@[i],
                    forall|i: int|
                        0 <= i < state@.len() && i != idx as int ==> ((entry_state[i] == 1) <==> (
                        #[trigger] state@[i] == 1)),
                    deps_done(projects@, state@, idx as int, k as int),
                    forall|t: int|
                        0 <= t < entry_order.len() ==> #[trigger] order@[t] == entry_order[t],
                    order@.len() >= entry_order.len(),
                decreases names@.len() - k,
            {
                let dep_name = &names[k];
                proof {
                    assert(dep_names(projects@[idx as int])[k as int] == names@[k as int]@);
                }
                match find_project(projects, dep_name) {
                    Option::Some(m) => {
                        let s = state[m];
                        if s == 0 {
                            proof {
                                lemma_count_zeros_lt(entry_state, state@, idx as int);
                                assert(is_first_match(
                                    projects@,
                                    dep_names(projects@[idx as int])[k as int],
                                    m as int,
                                ));
                                assert(spec_edge(projects@, path.last(), m as int));
                            }
                            let ghost pre_state = state@;
                            let ghost pre_order = order@;
                            match visit(projects, m, state, order, Ghost(path)) {
                                Ok(()) => {
                                    proof {
                                        assert(state@[m as int] == 2);
                                        assert forall|k2: int| 0 <= k2 < k as int + 1 implies exists|mm: int|
                                            is_first_match(
                                                projects@,
                                                #[trigger] dep_names(projects@[idx as int])[k2],
                                                mm,
                                            ) && state@[mm] == 2 by {
                                            if k2 < k as int {
                                                assert(deps_done(projects@, pre_state, idx as int, k as int));
                                                let mm = choose|mm: int|
                                                    is_first_match(
                                                        projects@,
                                                        dep_names(projects@[idx as int])[k2],
                                                        mm,
                                                    ) && pre_state[mm] == 2;
                                                assert(pre_state[mm] <= state@[mm]);
                                                assert(state@[mm] == 2);
                                            } else {
                                                assert(is_first_match(
                                                    projects@,
                                                    dep_names(projects@[idx as int])[k2],
                                                    m as int,
                                                ) && state@[m as int] == 2);
                                            }
                                        }
                                        assert(deps_done(projects@, state@, idx as int, k as int + 1));
                                    }
                                },
                                Err(e) => {
                                    return Err(e);
                                },
                            }
                        } else if s == 1 {
                            proof {
                                assert(path.contains(m as int));
                                let t = choose|t: int| 0 <= t < path.len() && path[t] == m as int;
                                let c = path.subrange(t, path.len() as int);
                                assert(c[0] == m as int);
                                assert(c[c.len() - 1] == path[path.len() - 1]);
                                assert(is_first_match(
                                    projects@,
                                    dep_names(projects@[idx as int])[k as int],
                                    m as int,
                                ));
                                assert(spec_edge(projects@, c[c.len() - 1], c[0]));
                                assert forall|u: int| 0 <= u < c.len() - 1 implies spec_edge(
                                    projects@,
                                    #[trigger] c[u],
                                    c[u + 1],
                                ) by {
                                    assert(c[u] == path[t + u]);
                                    assert(c[u + 1] == path[t + u + 1]);
                                }
                                assert forall|u: int| 0 <= u < c.len() implies 0 <= #[trigger] c[u]
                                    < projects@.len() by {
                                    assert(c[u] == path[t + u]);
                                }
                                assert(is_dep_cycle(projects@, c));
                            }
                            return Err(BuildError::DependencyCycle);
                        } else {
                            proof {
                                assert(state@[m as int] == 2);
                                assert forall|k2: int| 0 <= k2 < k as int + 1 implies exists|mm: int|
                                    is_first_match(
                                        projects@,
                                        #[trigger] dep_names(projects@[idx as int])[k2],
                                        mm,
                                    ) && state@[mm] == 2 by {
                                    if k2 == k as int {
                                        assert(is_first_match(
                                            projects@,
                                            dep_names(projects@[idx as int])[k2],
                                            m as int,
                                        ) && state@[m as int] == 2);
                                    }
                                }
                                assert(deps_done(projects@, state@, idx as int, k as int + 1));
                            }
                        }
                    },
                    Option::None => {
                        return Err(BuildError::UnknownDependency(dep_name.clone()));
                    },
                }
                k += 1;
            }
            proof {
                assert(k as int == names@.len());
                assert(dep_names(projects@[idx as int]) == names.deep_view());
                assert(deps_done(
                    projects@,
                    state@,
                    idx as int,
                    dep_names(projects@[idx as int]).len() as int,
                ));
            }
        },
        Option::None => {
            proof {
                assert(dep_names(projects@[idx as int]).len() == 0);
                assert(deps_done(
                    projects@,
                    state@,
                    idx as int,
                    dep_names(projects@[idx as int]).len() as int,
                ));
            }
        },
    }
    let ghost done_state = state@;
    let ghost done_order = order@;
    state.set(idx, 2);
    order.push(idx);
    proof {
        lemma_finish_visit(projects@, done_state, done_order, idx);
        assert(state@ == done_state.update(idx as int, 2));
        assert(order@ == done_order.push(idx));
        assert(order@.last() == idx);
        assert(forall|t: int|
            0 <= t < entry_order.len() ==> #[trigger] order@[t] == entry_order[t]);
    }
    Ok(())
}

/// Expand `target`'s transitive dependencies into a safe build order
/// ending with `target` itself. Fails with `UnknownDependency` when a
/// declared name resolves to no project and with `DependencyCycle` when
/// the reachable edges form a cycle; in both cases the witness exists.
pub fn resolve_build_order(projects: &Vec<Project>, target: usize) -> (r: Result<
    Vec<usize>,
    BuildError,
>)
    requires
        target < projects@.len(),
    ensures
        match r {
            Ok(order) => {
                &&& order_wf(projects@, order@)
                &&& order@.len() > 0
                &&& order@.last() == target
            },
            Err(e) => {
                &&& (e is UnknownDependency ==> !has_match(projects@, e->UnknownDependency_0@))
                &&& (e is DependencyCycle ==> exists|c: Seq<int>| is_dep_cycle(projects@, c))
                &&& (e is UnknownDependency || e is DependencyCycle)
            },
        },
{
    let mut state: Vec<u8> = Vec::new();
    while state.len() < projects.len()
        invariant
            state@.len() <= projects@.len(),
            forall|i: int| 0 <= i < state@.len() ==> #[trigger] state@[i] == 0,
        decreases projects@.len() - state@.len(),
    {
        state.push(0);
    }
    let mut order: Vec<usize> = Vec::new();
    proof {
        assert(states_ok(projects@, state@, order@));
        assert(stack_ok(projects@, state@, Seq::<int>::empty()));
    }
    match visit(projects, target, &mut state, &mut order, Ghost(Seq::empty())) {
        Ok(()) => Ok(order),
        Err(e) => Err(e),
    }
}

} // verus!
