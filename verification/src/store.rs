//! The metadata store: models, parts, parameter schema rows and
//! cached-instance records.
//!
//! The store is the relational heart of the service, held as plain
//! tables. Instance records are keyed by their artifact path; each
//! carries a usage count bumped on every cache hit and an age drawn
//! from a monotonic counter, which together order eviction victims.

use vstd::prelude::*;

use crate::schema::{ParamSchema, SchemaView};

verus! {

/// One indexed model.
pub struct ModelRecord {
    pub model_id: i64,
    pub name: String,
    pub creation_date: String,
    pub description: String,
    pub author: String,
    pub image_path: String,
    pub scad_path: String,
}

/// The mathematical shape of a model row.
pub struct ModelRecordView {
    pub model_id: i64,
    pub name: Seq<char>,
    pub creation_date: Seq<char>,
    pub description: Seq<char>,
    pub author: Seq<char>,
    pub image_path: Seq<char>,
    pub scad_path: Seq<char>,
}

impl View for ModelRecord {
    type V = ModelRecordView;

    open spec fn view(&self) -> ModelRecordView {
        ModelRecordView {
            model_id: self.model_id,
            name: self.name@,
            creation_date: self.creation_date@,
            description: self.description@,
            author: self.author@,
            image_path: self.image_path@,
            scad_path: self.scad_path@,
        }
    }
}

/// One named callable unit of a model's script.
pub struct PartRecord {
    pub part_id: i64,
    pub name: String,
    pub model_id: i64,
}

/// One validated parameter of a part.
pub struct ParameterRecord {
    pub parameter_id: i64,
    pub name: String,
    pub part_id: i64,
    pub schema: ParamSchema,
}

/// The mathematical shape of a parameter row.
pub struct ParameterRecordView {
    pub parameter_id: i64,
    pub name: String,
    pub part_id: i64,
    pub schema: SchemaView,
}

impl View for ParameterRecord {
    type V = ParameterRecordView;

    open spec fn view(&self) -> ParameterRecordView {
        ParameterRecordView {
            parameter_id: self.parameter_id,
            name: self.name,
            part_id: self.part_id,
            schema: self.schema@,
        }
    }
}

/// One materialized artifact: its path (the cache key), the compiler
/// command that produced it, its usage count and insertion age.
pub struct Instance {
    pub path: String,
    pub command_string: String,
    pub usage: i64,
    pub age: i64,
    pub part_id: i64,
}

impl Instance {
    /// A fresh record equal to this one.
    pub fn duplicate(&self) -> (r: Instance)
        ensures
            r == *self,
    {
        Instance {
            path: self.path.clone(),
            command_string: self.command_string.clone(),
            usage: self.usage,
            age: self.age,
            part_id: self.part_id,
        }
    }
}

/// The relational metadata store.
pub struct Store {
    pub models: Vec<ModelRecord>,
    pub parts: Vec<PartRecord>,
    pub parameters: Vec<ParameterRecord>,
    pub instances: Vec<Instance>,
    pub next_age: i64,
}

impl Store {
    /// Store invariant: instance paths are unique, ages are distinct,
    /// drawn from below the monotonic counter, and usage counts are
    /// non-negative.
    pub open spec fn inv(self) -> bool {
        &&& self.next_age >= 0
        &&& forall|i: int, j: int|
            0 <= i < j < self.instances@.len() ==> (#[trigger] self.instances@[i]).path@ != (
            #[trigger] self.instances@[j]).path@
        &&& forall|i: int, j: int|
            0 <= i < j < self.instances@.len() ==> (#[trigger] self.instances@[i]).age != (
            #[trigger] self.instances@[j]).age
        &&& forall|i: int|
            0 <= i < self.instances@.len() ==> 0 <= (#[trigger] self.instances@[i]).age
                < self.next_age
        &&& forall|i: int|
            0 <= i < self.instances@.len() ==> (#[trigger] self.instances@[i]).usage >= 0
    }

    /// Whether an instance record with this path exists.
    pub open spec fn spec_contains_path(self, path: Seq<char>) -> bool {
        exists|i: int|
            0 <= i < self.instances@.len() && (#[trigger] self.instances@[i]).path@ == path
    }

    /// An empty store.
    pub fn new() -> (s: Store)
        ensures
            s.inv(),
            s.models@.len() == 0,
            s.parts@.len() == 0,
            s.parameters@.len() == 0,
            s.instances@.len() == 0,
            s.next_age == 0,
    {
        Store {
            models: Vec::new(),
            parts: Vec::new(),
            parameters: Vec::new(),
            instances: Vec::new(),
            next_age: 0,
        }
    }

    /// Whether an instance record with this path exists.
    pub fn contains_path(&self, path: &String) -> (b: bool)
        ensures
            b == self.spec_contains_path(path@),
    {
        let mut i: usize = 0;
        while i < self.instances.len()
            invariant
                i <= self.instances@.len(),
                forall|j: int| 0 <= j < i ==> (#[trigger] self.instances@[j]).path@ != path@,
            decreases self.instances@.len() - i,
        {
            if self.instances[i].path.eq(path) {
                return true;
            }
            i = i + 1;
        }
        false
    }
}

/// Truncate every table; the age counter is kept so that restored
/// records stay below it.
pub fn db_reset(store: &mut Store)
    ensures
        final(store).models@.len() == 0,
        final(store).parts@.len() == 0,
        final(store).parameters@.len() == 0,
        final(store).instances@.len() == 0,
        final(store).next_age == old(store).next_age,
        old(store).inv() ==> final(store).inv(),
{
    store.models = Vec::new();
    store.parts = Vec::new();
    store.parameters = Vec::new();
    store.instances = Vec::new();
}

/// Insert a model row.
pub fn db_add_model(
    store: &mut Store,
    model_id: i64,
    name: String,
    creation_date: String,
    description: String,
    author: String,
    image_path: String,
    scad_path: String,
)
    ensures
        final(store).models@ == old(store).models@.push(
            ModelRecord { model_id, name, creation_date, description, author, image_path, scad_path },
        ),
        final(store).parts == old(store).parts,
        final(store).parameters == old(store).parameters,
        final(store).instances == old(store).instances,
        final(store).next_age == old(store).next_age,
        old(store).inv() ==> final(store).inv(),
{
    store.models.push(
        ModelRecord { model_id, name, creation_date, description, author, image_path, scad_path },
    );
}

/// Insert a part row.
pub fn db_add_part(store: &mut Store, part_id: i64, name: String, model_id: i64)
    ensures
        final(store).parts@ == old(store).parts@.push(PartRecord { part_id, name, model_id }),
        final(store).models == old(store).models,
        final(store).parameters == old(store).parameters,
        final(store).instances == old(store).instances,
        final(store).next_age == old(store).next_age,
        old(store).inv() ==> final(store).inv(),
{
    store.parts.push(PartRecord { part_id, name, model_id });
}

/// Insert a validated parameter row.
pub fn db_add_parameter(
    store: &mut Store,
    parameter_id: i64,
    name: String,
    part_id: i64,
    schema: ParamSchema,
)
    ensures
        final(store).parameters@ == old(store).parameters@.push(
            ParameterRecord { parameter_id, name, part_id, schema },
        ),
        final(store).models == old(store).models,
        final(store).parts == old(store).parts,
        final(store).instances == old(store).instances,
        final(store).next_age == old(store).next_age,
        old(store).inv() ==> final(store).inv(),
{
    store.parameters.push(ParameterRecord { parameter_id, name, part_id, schema });
}

/// A copy of every instance record, in store order.
pub fn db_save_instances(store: &Store) -> (r: Vec<Instance>)
    ensures
        r@ == store.instances@,
{
    let mut out: Vec<Instance> = Vec::new();
    let mut i: usize = 0;
    while i < store.instances.len()
        invariant
            i <= store.instances@.len(),
            out@ == store.instances@.take(i as int),
        decreases store.instances@.len() - i,
    {
        out.push(store.instances[i].duplicate());
        proof {
            assert(out@ =~= store.instances@.take((i + 1) as int));
        }
        i = i + 1;
    }
    proof {
        assert(out@ =~= store.instances@);
    }
    out
}

/// Record a newly materialized artifact: usage starts at zero and the
/// age counter supplies the insertion order.
pub fn create_instance(store: &mut Store, path: String, command_string: String, part_id: i64)
    requires
        old(store).inv(),
        !old(store).spec_contains_path(path@),
        old(store).next_age < i64::MAX,
    ensures
        final(store).inv(),
        final(store).instances@ == old(store).instances@.push(
            Instance { path, command_string, usage: 0, age: old(store).next_age, part_id },
        ),
        final(store).models == old(store).models,
        final(store).parts == old(store).parts,
        final(store).parameters == old(store).parameters,
        final(store).next_age == old(store).next_age + 1,
{
    let age = store.next_age;
    store.instances.push(Instance { path, command_string, usage: 0, age, part_id });
    store.next_age = age + 1;
}

/// Re-insert a snapshot record verbatim, keeping its usage and age.
pub fn insert_instance_restored(store: &mut Store, row: Instance)
    requires
        old(store).inv(),
        !old(store).spec_contains_path(row.path@),
        0 <= row.age < old(store).next_age,
        row.usage >= 0,
        forall|i: int|
            0 <= i < old(store).instances@.len() ==> (#[trigger] old(store).instances@[i]).age
                != row.age,
    ensures
        final(store).inv(),
        final(store).instances@ == old(store).instances@.push(row),
        final(store).models == old(store).models,
        final(store).parts == old(store).parts,
        final(store).parameters == old(store).parameters,
        final(store).next_age == old(store).next_age,
{
    store.instances.push(row);
}

/// The instance records left after removing the one at `path`.
pub open spec fn spec_remove_path(s: Seq<Instance>, path: Seq<char>) -> Seq<Instance>
    decreases s.len(),
{
    if s.len() == 0 {
        Seq::empty()
    } else {
        let r = spec_remove_path(s.drop_last(), path);
        if s.last().path@ == path {
            r
        } else {
            r.push(s.last())
        }
    }
}

/// Delete the instance record at `path`, if any.
pub fn remove_instance(store: &mut Store, path: &String)
    requires
        old(store).inv(),
    ensures
        final(store).inv(),
        final(store).instances@ == spec_remove_path(old(store).instances@, path@),
        final(store).models == old(store).models,
        final(store).parts == old(store).parts,
        final(store).parameters == old(store).parameters,
        final(store).next_age == old(store).next_age,
{
    let ghost s0 = store.instances@;
    let mut out: Vec<Instance> = Vec::new();
    let mut i: usize = 0;
    while i < store.instances.len()
        invariant
            i <= store.instances@.len(),
            store.instances@ == s0,
            old(store).inv(),
            s0 == old(store).instances@,
            out@ == spec_remove_path(s0.take(i as int), path@),
            forall|a: int|
                0 <= a < out@.len() ==> exists|b: int|
                    0 <= b < i && (#[trigger] out@[a]) == s0[b],
            forall|a: int, b: int|
                0 <= a < b < out@.len() ==> (#[trigger] out@[a]).path@ != (
                #[trigger] out@[b]).path@ && out@[a].age != out@[b].age,
        decreases store.instances@.len() - i,
    {
        proof {
            assert(s0.take((i + 1) as int).drop_last() =~= s0.take(i as int));
            assert(s0.take((i + 1) as int).last() == s0[i as int]);
        }
        let ghost out_pre = out@;
        if !store.instances[i].path.eq(path) {
            out.push(store.instances[i].duplicate());
            proof {
                assert forall|a: int, b: int| 0 <= a < b < out@.len() implies (
                #[trigger] out@[a]).path@ != (#[trigger] out@[b]).path@ && out@[a].age
                    != out@[b].age by {
                    if b == out@.len() - 1 {
                        let x = choose|x: int| 0 <= x < i && out_pre[a] == s0[x];
                        assert(out@[a] == s0[x]);
                        assert(out@[b] == s0[i as int]);
                    }
                }
            }
        }
        i = i + 1;
    }
    proof {
        assert(s0.take(s0.len() as int) =~= s0);
    }
    store.instances = out;
    proof {
        assert forall|a: int| 0 <= a < store.instances@.len() implies 0 <= (
        #[trigger] store.instances@[a]).age < store.next_age && store.instances@[a].usage >= 0 by {
            let b = choose|b: int| 0 <= b < s0.len() && store.instances@[a] == s0[b];
        }
    }
}

/// Every member of the removal result appears in the source.
pub proof fn lemma_remove_path_subset(s: Seq<Instance>, path: Seq<char>)
    ensures
        forall|a: int|
            0 <= a < spec_remove_path(s, path).len() ==> exists|x: int|
                0 <= x < s.len() && (#[trigger] spec_remove_path(s, path)[a]) == s[x],
    decreases s.len(),
{
    if s.len() > 0 {
        lemma_remove_path_subset(s.drop_last(), path);
        let r = spec_remove_path(s, path);
        let rp = spec_remove_path(s.drop_last(), path);
        assert forall|a: int| 0 <= a < r.len() implies exists|x: int|
            0 <= x < s.len() && (#[trigger] r[a]) == s[x] by {
            if s.last().path@ == path || a < r.len() - 1 {
                let x = choose|x: int|
                    0 <= x < s.drop_last().len() && (#[trigger] rp[a]) == s.drop_last()[x];
                assert(s.drop_last()[x] == s[x]);
                assert(r[a] == s[x]);
            } else {
                assert(r[a] == s[s.len() - 1]);
            }
        }
    }
}

/// Removal keeps path uniqueness.
pub proof fn lemma_remove_path_unique(s: Seq<Instance>, path: Seq<char>)
    requires
        forall|i: int, j: int|
            0 <= i < j < s.len() ==> (#[trigger] s[i]).path@ != (#[trigger] s[j]).path@,
    ensures
        forall|i: int, j: int|
            0 <= i < j < spec_remove_path(s, path).len() ==> (#[trigger] spec_remove_path(
                s,
                path,
            )[i]).path@ != (#[trigger] spec_remove_path(s, path)[j]).path@,
    decreases s.len(),
{
    if s.len() > 0 {
        assert forall|i: int, j: int|
            0 <= i < j < s.drop_last().len() implies (#[trigger] s.drop_last()[i]).path@ != (
        #[trigger] s.drop_last()[j]).path@ by {
            assert(s.drop_last()[i] == s[i] && s.drop_last()[j] == s[j]);
        }
        lemma_remove_path_unique(s.drop_last(), path);
        lemma_remove_path_subset(s.drop_last(), path);
        let r = spec_remove_path(s, path);
        let rp = spec_remove_path(s.drop_last(), path);
        if s.last().path@ != path {
            assert forall|i: int, j: int| 0 <= i < j < r.len() implies (#[trigger] r[i]).path@ != (
            #[trigger] r[j]).path@ by {
                if j == r.len() - 1 {
                    let x = choose|x: int|
                        0 <= x < s.drop_last().len() && (#[trigger] rp[i]) == s.drop_last()[x];
                    assert(r[i] == s[x]);
                    assert(r[j] == s[s.len() - 1]);
                } else {
                    assert(r[i] == rp[i] && r[j] == rp[j]);
                }
            }
        }
    }
}

/// Removal never grows the table, and removes exactly the one record
/// with the path when paths are unique.
pub proof fn lemma_remove_path_len(s: Seq<Instance>, path: Seq<char>)
    requires
        forall|i: int, j: int|
            0 <= i < j < s.len() ==> (#[trigger] s[i]).path@ != (#[trigger] s[j]).path@,
    ensures
        (exists|i: int| 0 <= i < s.len() && (#[trigger] s[i]).path@ == path) ==> spec_remove_path(
            s,
            path,
        ).len() == s.len() - 1,
        !(exists|i: int| 0 <= i < s.len() && (#[trigger] s[i]).path@ == path) ==> spec_remove_path(
            s,
            path,
        ) == s,
    decreases s.len(),
{
    if s.len() > 0 {
        assert forall|i: int, j: int|
            0 <= i < j < s.drop_last().len() implies (#[trigger] s.drop_last()[i]).path@ != (
        #[trigger] s.drop_last()[j]).path@ by {
            assert(s.drop_last()[i] == s[i] && s.drop_last()[j] == s[j]);
        }
        lemma_remove_path_len(s.drop_last(), path);
        if s.last().path@ == path {
            assert forall|i: int|
                0 <= i < s.drop_last().len() implies (#[trigger] s.drop_last()[i]).path@
                    != path by {
                assert(s.drop_last()[i] == s[i]);
            }
            assert(spec_remove_path(s.drop_last(), path) == s.drop_last());
        } else {
            if exists|i: int| 0 <= i < s.len() && (#[trigger] s[i]).path@ == path {
                let i = choose|i: int| 0 <= i < s.len() && (#[trigger] s[i]).path@ == path;
                assert(s.drop_last()[i] == s[i]);
            } else {
                assert forall|i: int|
                    0 <= i < s.drop_last().len() implies (#[trigger] s.drop_last()[i]).path@
                        != path by {
                    assert(s.drop_last()[i] == s[i]);
                }
                assert(spec_remove_path(s, path) =~= s);
            }
        }
    }
}

/// No record with the removed path remains; every other record stays.
pub proof fn lemma_remove_path_absent(s: Seq<Instance>, path: Seq<char>)
    ensures
        forall|a: int|
            0 <= a < spec_remove_path(s, path).len() ==> (#[trigger] spec_remove_path(
                s,
                path,
            )[a]).path@ != path,
        forall|x: int|
            0 <= x < s.len() && (#[trigger] s[x]).path@ != path ==> spec_remove_path(
                s,
                path,
            ).contains(s[x]),
    decreases s.len(),
{
    if s.len() > 0 {
        lemma_remove_path_absent(s.drop_last(), path);
        let r = spec_remove_path(s, path);
        let rp = spec_remove_path(s.drop_last(), path);
        assert forall|x: int| 0 <= x < s.len() && (#[trigger] s[x]).path@ != path implies r.contains(
            s[x],
        ) by {
            if x < s.len() - 1 {
                assert(s.drop_last()[x] == s[x]);
                assert(rp.contains(s.drop_last()[x]));
                let a = choose|a: int| 0 <= a < rp.len() && rp[a] == s[x];
                if s.last().path@ == path {
                    assert(r[a] == s[x]);
                } else {
                    assert(r[a] == s[x]);
                }
            } else {
                assert(r[r.len() - 1] == s[x]);
            }
        }
    }
}

/// The instance records with the usage count at `path` bumped by one.
pub open spec fn spec_bump_usage(s: Seq<Instance>, path: Seq<char>) -> Seq<Instance>
    decreases s.len(),
{
    if s.len() == 0 {
        Seq::empty()
    } else {
        let r = spec_bump_usage(s.drop_last(), path);
        let last = s.last();
        if last.path@ == path {
            r.push(
                Instance {
                    path: last.path,
                    command_string: last.command_string,
                    usage: (last.usage + 1) as i64,
                    age: last.age,
                    part_id: last.part_id,
                },
            )
        } else {
            r.push(last)
        }
    }
}

/// Bump the usage count of the instance at `path`; reports whether a
/// record was found.
#[verifier::rlimit(60)]
pub fn increment_instance_usage(store: &mut Store, path: &String) -> (found: bool)
    requires
        old(store).inv(),
        forall|i: int|
            0 <= i < old(store).instances@.len() && (#[trigger] old(
                store,
            ).instances@[i]).path@ == path@ ==> old(store).instances@[i].usage < i64::MAX,
    ensures
        final(store).inv(),
        found == old(store).spec_contains_path(path@),
        final(store).instances@ == spec_bump_usage(old(store).instances@, path@),
        final(store).models == old(store).models,
        final(store).parts == old(store).parts,
        final(store).parameters == old(store).parameters,
        final(store).next_age == old(store).next_age,
{
    let ghost s0 = store.instances@;
    let mut out: Vec<Instance> = Vec::new();
    let mut found = false;
    let mut i: usize = 0;
    while i < store.instances.len()
        invariant
            i <= store.instances@.len(),
            store.instances@ == s0,
            old(store).inv(),
            s0 == old(store).instances@,
            forall|k: int|
                0 <= k < s0.len() && (#[trigger] s0[k]).path@ == path@ ==> s0[k].usage < i64::MAX,
            out@ == spec_bump_usage(s0.take(i as int), path@),
            out@.len() == i,
            found == exists|k: int| 0 <= k < i && (#[trigger] s0[k]).path@ == path@,
        decreases store.instances@.len() - i,
    {
        proof {
            assert(s0.take((i + 1) as int).drop_last() =~= s0.take(i as int));
            assert(s0.take((i + 1) as int).last() == s0[i as int]);
        }
        let row = &store.instances[i];
        if row.path.eq(path) {
            out.push(
                Instance {
                    path: row.path.clone(),
                    command_string: row.command_string.clone(),
                    usage: row.usage + 1,
                    age: row.age,
                    part_id: row.part_id,
                },
            );
            found = true;
        } else {
            out.push(row.duplicate());
        }
        i = i + 1;
    }
    proof {
        assert(s0.take(s0.len() as int) =~= s0);
    }
    store.instances = out;
    proof {
        lemma_bump_usage_shape(s0, path@);
    }
    found
}

/// Bumping a usage count keeps length, paths and ages pointwise.
pub proof fn lemma_bump_usage_shape(s: Seq<Instance>, path: Seq<char>)
    requires
        forall|i: int|
            0 <= i < s.len() && (#[trigger] s[i]).path@ == path ==> s[i].usage < i64::MAX,
    ensures
        spec_bump_usage(s, path).len() == s.len(),
        forall|i: int|
            0 <= i < s.len() ==> (#[trigger] spec_bump_usage(s, path)[i]).path@ == s[i].path@
                && spec_bump_usage(s, path)[i].age == s[i].age && spec_bump_usage(
                s,
                path,
            )[i].part_id == s[i].part_id && spec_bump_usage(s, path)[i].usage >= s[i].usage,
    decreases s.len(),
{
    if s.len() > 0 {
        assert forall|i: int|
            0 <= i < s.drop_last().len() && (#[trigger] s.drop_last()[i]).path@
                == path implies s.drop_last()[i].usage < i64::MAX by {
            assert(s.drop_last()[i] == s[i]);
        }
        lemma_bump_usage_shape(s.drop_last(), path);
        let r = spec_bump_usage(s, path);
        let rp = spec_bump_usage(s.drop_last(), path);
        assert forall|i: int| 0 <= i < s.len() implies (#[trigger] r[i]).path@ == s[i].path@
            && r[i].age == s[i].age && r[i].part_id == s[i].part_id && r[i].usage
            >= s[i].usage by {
            if i < s.len() - 1 {
                assert(r[i] == rp[i]);
                assert(s.drop_last()[i] == s[i]);
            } else {
                assert(s[i] == s.last());
                if s.last().path@ == path {
                    assert(s[i].usage < i64::MAX);
                }
            }
        }
    }
}

/// A hit is observed: bumping the usage at `path` leaves every row
/// with that path strictly more used than before.
pub proof fn lemma_bump_usage_increases(s: Seq<Instance>, path: Seq<char>)
    requires
        forall|i: int|
            0 <= i < s.len() && (#[trigger] s[i]).path@ == path ==> s[i].usage < i64::MAX,
    ensures
        forall|i: int|
            0 <= i < s.len() && (#[trigger] s[i]).path@ == path ==> spec_bump_usage(
                s,
                path,
            )[i].usage == s[i].usage + 1,
    decreases s.len(),
{
    if s.len() > 0 {
        assert forall|i: int|
            0 <= i < s.drop_last().len() && (#[trigger] s.drop_last()[i]).path@
                == path implies s.drop_last()[i].usage < i64::MAX by {
            assert(s.drop_last()[i] == s[i]);
        }
        lemma_bump_usage_increases(s.drop_last(), path);
        lemma_bump_usage_shape(s, path);
        lemma_bump_usage_shape(s.drop_last(), path);
        let r = spec_bump_usage(s, path);
        let rp = spec_bump_usage(s.drop_last(), path);
        assert forall|i: int|
            0 <= i < s.len() && (#[trigger] s[i]).path@ == path implies r[i].usage == s[i].usage
            + 1 by {
            if i < s.len() - 1 {
                assert(s.drop_last()[i] == s[i]);
                assert(r[i] == rp[i]);
            }
        }
    }
}

/// The eviction victim: the instance with the least usage, the least
/// age among equals. `None` only on an empty table.
pub fn find_least_valuable_instance(store: &Store) -> (r: Option<Instance>)
    ensures
        r is None <==> store.instances@.len() == 0,
        r matches Some(v) ==> store.instances@.contains(v) && forall|j: int|
            0 <= j < store.instances@.len() ==> v.usage <= (#[trigger] store.instances@[j]).usage
                && (v.usage == store.instances@[j].usage ==> v.age <= store.instances@[j].age),
{
    if store.instances.len() == 0 {
        return None;
    }
    let mut best: usize = 0;
    let mut i: usize = 1;
    while i < store.instances.len()
        invariant
            best < i <= store.instances@.len(),
            forall|j: int|
                0 <= j < i ==> store.instances@[best as int].usage <= (
                #[trigger] store.instances@[j]).usage && (store.instances@[best as int].usage
                    == store.instances@[j].usage ==> store.instances@[best as int].age
                    <= store.instances@[j].age),
        decreases store.instances@.len() - i,
    {
        let cur = &store.instances[i];
        let b = &store.instances[best];
        if cur.usage < b.usage || (cur.usage == b.usage && cur.age < b.age) {
            best = i;
        }
        i = i + 1;
    }
    let v = store.instances[best].duplicate();
    proof {
        assert(store.instances@[best as int] == v);
    }
    Some(v)
}

} // verus!
