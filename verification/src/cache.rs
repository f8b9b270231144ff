//! The cache engine: capacity-bounded admission of built artifacts.
//!
//! A generate request for an artifact key is a hit when a record with
//! that path exists, an admission when there is room below the model
//! limit, and an evict-then-admit otherwise, with the victim chosen by
//! least usage and then least age. The engine mutates the instance
//! table; the surrounding binary keeps the files on disk in step and
//! reports whether the compiler succeeded.

use vstd::prelude::*;

use crate::store::{
    create_instance, find_least_valuable_instance, increment_instance_usage,
    lemma_remove_path_absent, lemma_remove_path_len, lemma_remove_path_subset,
    lemma_remove_path_unique, remove_instance, spec_bump_usage, spec_remove_path, Instance, Store,
};

verus! {

/// One generate request as the engine sees it: the artifact key, the
/// compiler command for a miss, the owning part, and whether the build
/// the binary ran (if one was needed) succeeded.
pub struct GenRequest {
    pub path: String,
    pub command_string: String,
    pub part_id: i64,
    pub build_ok: bool,
}

/// What a generate request did to the cache.
pub enum GenResult {
    /// The artifact existed; its usage count was bumped.
    Hit,
    /// The artifact was built and recorded; capacity permitted.
    Admitted,
    /// A victim was evicted, then the artifact was built and recorded.
    EvictedAdmitted { victim: Instance },
    /// The compiler failed; nothing was recorded. A victim already
    /// evicted on the miss path stays evicted.
    Failed { victim: Option<Instance> },
}

/// What the binary must do for a generate request before the engine
/// commits it: nothing on a hit, a build on a miss with room, and a
/// victim's removal followed by a build on a miss at the limit.
pub enum GenPlan {
    Hit,
    Admit,
    EvictAdmit { victim: Instance },
}

/// Whether some record in `s` has this path.
pub open spec fn seq_contains_path(s: Seq<Instance>, path: Seq<char>) -> bool {
    exists|i: int| 0 <= i < s.len() && (#[trigger] s[i]).path@ == path
}

/// All record paths in `s` are distinct.
pub open spec fn paths_unique(s: Seq<Instance>) -> bool {
    forall|i: int, j: int|
        0 <= i < j < s.len() ==> (#[trigger] s[i]).path@ != (#[trigger] s[j]).path@
}

/// `v` is an eviction victim for `s`: a member with the least usage,
/// and the least age among members with that usage.
pub open spec fn is_least_of(s: Seq<Instance>, v: Instance) -> bool {
    &&& s.contains(v)
    &&& forall|j: int|
        0 <= j < s.len() ==> v.usage <= (#[trigger] s[j]).usage && (v.usage == s[j].usage
            ==> v.age <= s[j].age)
}

/// The eviction victim of `s`.
pub open spec fn spec_victim(s: Seq<Instance>) -> Instance {
    choose|v: Instance| is_least_of(s, v)
}

/// Every non-empty table has an eviction victim.
pub proof fn lemma_least_exists(s: Seq<Instance>)
    requires
        s.len() > 0,
    ensures
        is_least_of(s, spec_victim(s)),
    decreases s.len(),
{
    if s.len() == 1 {
        assert(s.contains(s[0]));
        assert(is_least_of(s, s[0]));
    } else {
        lemma_least_exists(s.drop_last());
        let vp = spec_victim(s.drop_last());
        let last = s.last();
        let iv = choose|i: int| 0 <= i < s.drop_last().len() && s.drop_last()[i] == vp;
        assert(s[iv] == vp);
        assert(s.contains(vp));
        assert(s.contains(last));
        let cand = if last.usage < vp.usage || (last.usage == vp.usage && last.age < vp.age) {
            last
        } else {
            vp
        };
        assert forall|j: int|
            0 <= j < s.len() implies cand.usage <= (#[trigger] s[j]).usage && (cand.usage
            == s[j].usage ==> cand.age <= s[j].age) by {
            if j < s.len() - 1 {
                assert(s.drop_last()[j] == s[j]);
            }
        }
        assert(is_least_of(s, cand));
    }
}

/// With distinct ages the eviction victim is unique.
pub proof fn lemma_least_unique(s: Seq<Instance>, v1: Instance, v2: Instance)
    requires
        forall|i: int, j: int|
            0 <= i < j < s.len() ==> (#[trigger] s[i]).age != (#[trigger] s[j]).age,
        is_least_of(s, v1),
        is_least_of(s, v2),
    ensures
        v1 == v2,
{
    let i1 = choose|i: int| 0 <= i < s.len() && s[i] == v1;
    let i2 = choose|i: int| 0 <= i < s.len() && s[i] == v2;
    assert(v1.usage <= v2.usage && v2.usage <= v1.usage);
    assert(v1.age <= v2.age && v2.age <= v1.age);
    if i1 != i2 {
        assert(s[i1].age != s[i2].age);
    }
}

/// Bumping a usage count never changes the table's length or paths.
pub proof fn lemma_bump_paths(s: Seq<Instance>, path: Seq<char>)
    ensures
        spec_bump_usage(s, path).len() == s.len(),
        forall|i: int|
            0 <= i < s.len() ==> (#[trigger] spec_bump_usage(s, path)[i]).path@ == s[i].path@,
    decreases s.len(),
{
    if s.len() > 0 {
        lemma_bump_paths(s.drop_last(), path);
        let r = spec_bump_usage(s, path);
        let rp = spec_bump_usage(s.drop_last(), path);
        assert forall|i: int| 0 <= i < s.len() implies (#[trigger] r[i]).path@ == s[i].path@ by {
            if i < s.len() - 1 {
                assert(r[i] == rp[i]);
                assert(s.drop_last()[i] == s[i]);
            }
        }
    }
}

/// The instance table after one generate request: a hit bumps usage, a
/// miss below the limit admits, a miss at the limit evicts the victim
/// and admits; when the build failed nothing is admitted.
pub open spec fn spec_generate(s: Seq<Instance>, na: int, q: GenRequest, limit: int) -> (
    Seq<Instance>,
    int,
) {
    if seq_contains_path(s, q.path@) {
        (spec_bump_usage(s, q.path@), na)
    } else if s.len() < limit {
        if q.build_ok {
            (s.push(spec_new_instance(q, na)), na + 1)
        } else {
            (s, na)
        }
    } else {
        let s2 = spec_remove_path(s, spec_victim(s).path@);
        if q.build_ok {
            (s2.push(spec_new_instance(q, na)), na + 1)
        } else {
            (s2, na)
        }
    }
}

/// The record admitted for a request: usage zero, age from the
/// counter.
pub open spec fn spec_new_instance(q: GenRequest, na: int) -> Instance {
    Instance {
        path: q.path,
        command_string: q.command_string,
        usage: 0,
        age: na as i64,
        part_id: q.part_id,
    }
}

/// One generate request keeps paths unique and never pushes the table
/// above the model limit.
pub proof fn lemma_generate_step(s: Seq<Instance>, na: int, q: GenRequest, limit: int)
    requires
        limit >= 1,
        paths_unique(s),
        s.len() <= limit,
    ensures
        paths_unique(spec_generate(s, na, q, limit).0),
        spec_generate(s, na, q, limit).0.len() <= limit,
{
    let post = spec_generate(s, na, q, limit).0;
    if seq_contains_path(s, q.path@) {
        lemma_bump_paths(s, q.path@);
        assert forall|i: int, j: int| 0 <= i < j < post.len() implies (#[trigger] post[i]).path@
            != (#[trigger] post[j]).path@ by {
            assert(post[i].path@ == s[i].path@ && post[j].path@ == s[j].path@);
        }
    } else if s.len() < limit {
        if q.build_ok {
            assert forall|i: int, j: int| 0 <= i < j < post.len() implies (
            #[trigger] post[i]).path@ != (#[trigger] post[j]).path@ by {
                if j == post.len() - 1 {
                    assert(post[i] == s[i]);
                    assert(!seq_contains_path(s, q.path@));
                }
            }
        }
    } else {
        lemma_least_exists(s);
        let v = spec_victim(s);
        let vi = choose|i: int| 0 <= i < s.len() && s[i] == v;
        let s2 = spec_remove_path(s, v.path@);
        lemma_remove_path_unique(s, v.path@);
        lemma_remove_path_len(s, v.path@);
        assert(s[vi].path@ == v.path@);
        assert(s2.len() == s.len() - 1);
        if q.build_ok {
            lemma_remove_path_subset(s, v.path@);
            assert forall|i: int, j: int| 0 <= i < j < post.len() implies (
            #[trigger] post[i]).path@ != (#[trigger] post[j]).path@ by {
                if j == post.len() - 1 {
                    assert(post[i] == s2[i]);
                    let x = choose|x: int| 0 <= x < s.len() && (#[trigger] s2[i]) == s[x];
                    assert(!seq_contains_path(s, q.path@));
                    assert(s[x].path@ != q.path@);
                }
            }
        }
    }
}

/// The instance table after a whole sequence of generate requests.
pub open spec fn spec_run(s: Seq<Instance>, na: int, reqs: Seq<GenRequest>, limit: int) -> (
    Seq<Instance>,
    int,
)
    decreases reqs.len(),
{
    if reqs.len() == 0 {
        (s, na)
    } else {
        let prev = spec_run(s, na, reqs.drop_last(), limit);
        spec_generate(prev.0, prev.1, reqs.last(), limit)
    }
}

/// Capacity is invariant: for every sequence of generate requests, a
/// table that starts within the model limit stays within it.
pub proof fn lemma_capacity_invariant(
    s: Seq<Instance>,
    na: int,
    reqs: Seq<GenRequest>,
    limit: int,
)
    requires
        limit >= 1,
        paths_unique(s),
        s.len() <= limit,
    ensures
        spec_run(s, na, reqs, limit).0.len() <= limit,
        paths_unique(spec_run(s, na, reqs, limit).0),
    decreases reqs.len(),
{
    if reqs.len() > 0 {
        lemma_capacity_invariant(s, na, reqs.drop_last(), limit);
        let prev = spec_run(s, na, reqs.drop_last(), limit);
        lemma_generate_step(prev.0, prev.1, reqs.last(), limit);
    }
}

/// Decide what a generate request for this key needs from the binary:
/// a hit needs nothing, a miss below the model limit needs a build,
/// and a miss at the limit needs the named victim's artifact removed
/// and then a build.
pub fn plan_generate(store: &Store, path: &String, model_limit: i64) -> (p: GenPlan)
    requires
        store.inv(),
        model_limit >= 1,
    ensures
        (p matches GenPlan::Hit) == store.spec_contains_path(path@),
        (p matches GenPlan::Admit) == (!store.spec_contains_path(path@)
            && store.instances@.len() < model_limit),
        p matches GenPlan::EvictAdmit { victim } ==> !store.spec_contains_path(path@)
            && store.instances@.len() >= model_limit && is_least_of(store.instances@, victim)
            && victim == spec_victim(store.instances@),
{
    if store.contains_path(path) {
        return GenPlan::Hit;
    }
    if (store.instances.len() as i128) < (model_limit as i128) {
        return GenPlan::Admit;
    }
    match find_least_valuable_instance(store) {
        Some(v) => {
            proof {
                lemma_least_exists(store.instances@);
                lemma_least_unique(store.instances@, v, spec_victim(store.instances@));
            }
            GenPlan::EvictAdmit { victim: v }
        },
        None => {
            proof {
                assert(false);
            }
            GenPlan::Admit
        },
    }
}

/// Serve one generate request against the store: bump usage on a hit,
/// record the artifact on a successful build, evicting the least
/// valuable record first when the table is at the model limit.
pub fn apply_generate(
    store: &mut Store,
    path: String,
    command_string: String,
    part_id: i64,
    model_limit: i64,
    build_ok: bool,
) -> (r: GenResult)
    requires
        old(store).inv(),
        model_limit >= 1,
        old(store).next_age < i64::MAX,
        forall|i: int|
            0 <= i < old(store).instances@.len() && (#[trigger] old(
                store,
            ).instances@[i]).path@ == path@ ==> old(store).instances@[i].usage < i64::MAX,
    ensures
        final(store).inv(),
        final(store).models == old(store).models,
        final(store).parts == old(store).parts,
        final(store).parameters == old(store).parameters,
        final(store).instances@ == spec_generate(
            old(store).instances@,
            old(store).next_age as int,
            GenRequest { path, command_string, part_id, build_ok },
            model_limit as int,
        ).0,
        final(store).next_age as int == spec_generate(
            old(store).instances@,
            old(store).next_age as int,
            GenRequest { path, command_string, part_id, build_ok },
            model_limit as int,
        ).1,
        (r matches GenResult::Hit) == old(store).spec_contains_path(path@),
        !old(store).spec_contains_path(path@) && old(store).instances@.len() < model_limit
            ==> (if build_ok {
            r matches GenResult::Admitted && final(store).spec_contains_path(path@)
        } else {
            (r matches GenResult::Failed { victim } && victim is None) && *final(store)
                == *old(store)
        }),
        !old(store).spec_contains_path(path@) && old(store).instances@.len() >= model_limit
            ==> {
            let v = spec_victim(old(store).instances@);
            &&& is_least_of(old(store).instances@, v)
            &&& !final(store).spec_contains_path(v.path@)
            &&& (if build_ok {
                (r matches GenResult::EvictedAdmitted { victim } && victim == v)
                    && final(store).spec_contains_path(path@)
            } else {
                r matches GenResult::Failed { victim } && victim == Some(v)
            })
        },
        old(store).instances@.len() <= model_limit ==> final(store).instances@.len()
            <= model_limit,
{
    let ghost s0 = store.instances@;
    let ghost na0 = store.next_age as int;
    let ghost q = GenRequest { path: path, command_string: command_string, part_id, build_ok };
    proof {
        if s0.len() <= model_limit {
            lemma_generate_step(s0, na0, q, model_limit as int);
        }
    }
    if store.contains_path(&path) {
        increment_instance_usage(store, &path);
        return GenResult::Hit;
    }
    if (store.instances.len() as i128) < (model_limit as i128) {
        if build_ok {
            create_instance(store, path, command_string, part_id);
            proof {
                assert(store.spec_contains_path(q.path@)) by {
                    assert(store.instances@.last().path@ == q.path@);
                }
            }
            GenResult::Admitted
        } else {
            GenResult::Failed { victim: None }
        }
    } else {
        let vopt = find_least_valuable_instance(store);
        let v = match vopt {
            Some(v) => v,
            None => {
                proof {
                    assert(false);
                }
                return GenResult::Failed { victim: None };
            },
        };
        proof {
            lemma_least_exists(s0);
            lemma_least_unique(s0, v, spec_victim(s0));
            lemma_remove_path_len(s0, v.path@);
            lemma_remove_path_unique(s0, v.path@);
            lemma_remove_path_subset(s0, v.path@);
            lemma_remove_path_absent(s0, v.path@);
            let iv = choose|i: int| 0 <= i < s0.len() && s0[i] == v;
            assert(s0[iv].path@ == v.path@);
        }
        remove_instance(store, &v.path);
        proof {
            assert forall|i: int|
                0 <= i < store.instances@.len() implies (#[trigger] store.instances@[i]).path@
                != q.path@ by {
                let x = choose|x: int|
                    0 <= x < s0.len() && (#[trigger] store.instances@[i]) == s0[x];
                assert(s0[x].path@ != q.path@);
            }
        }
        if build_ok {
            create_instance(store, path, command_string, part_id);
            proof {
                assert(store.spec_contains_path(q.path@)) by {
                    assert(store.instances@.last().path@ == q.path@);
                }
                assert(!store.spec_contains_path(v.path@)) by {
                    assert forall|i: int|
                        0 <= i < store.instances@.len() implies (#[trigger] store.instances@[i]).path@ != v.path@ by {
                        if i < store.instances@.len() - 1 {
                            assert(store.instances@[i] == spec_remove_path(
                                s0,
                                v.path@,
                            )[i]);
                        } else {
                            assert(store.instances@[i].path@ == q.path@);
                            assert(!seq_contains_path(s0, q.path@));
                            let iv = choose|x: int| 0 <= x < s0.len() && s0[x] == v;
                            assert(s0[iv].path@ == v.path@);
                        }
                    }
                }
            }
            GenResult::EvictedAdmitted { victim: v }
        } else {
            proof {
                assert(!store.spec_contains_path(v.path@)) by {
                    lemma_remove_path_absent(s0, v.path@);
                }
            }
            GenResult::Failed { victim: Some(v) }
        }
    }
}

} // verus!
