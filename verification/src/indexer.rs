//! The indexer: rebuild the metadata store from a tree of model
//! sources.
//!
//! The binary walks the model root one directory deep and hands each
//! candidate directory's entries to the classifier, which picks the
//! image, script and manifest files by extension, the last of each
//! winning. The parsed manifests are then indexed in order: the store
//! is reset and every model, part and validated parameter is inserted
//! with identifiers counted monotonically across the whole pass.

use vstd::prelude::*;

use crate::manifest::ModelManifest;
use crate::schema::{
    append_warnings, lemma_param_count_prefix, parse_parts, spec_param_count, spec_parts_ok,
    IdCounter, SchemaError, Warning,
};
use crate::store::{
    db_add_model, db_reset, ModelRecord, ModelRecordView, ParameterRecord, ParameterRecordView,
    PartRecord, Store,
};
use crate::text::{spec_ends_with, str_ends_with};

verus! {

/// The characters of the last entry with the given suffix; empty if
/// none has it.
pub open spec fn spec_last_with_ext(entries: Seq<String>, ext: Seq<char>) -> Seq<char>
    decreases entries.len(),
{
    if entries.len() == 0 {
        Seq::empty()
    } else if spec_ends_with(entries.last()@, ext) {
        entries.last()@
    } else {
        spec_last_with_ext(entries.drop_last(), ext)
    }
}

/// Pick a model candidate's image, script and manifest from its
/// directory entries by extension; among several with one extension
/// the last wins, and an extension with no file yields the empty
/// path. Entries with other extensions are ignored.
pub fn classify_model_dir(entries: &Vec<String>) -> (r: (String, String, String))
    ensures
        r.0@ == spec_last_with_ext(entries@, ".jpg"@),
        r.1@ == spec_last_with_ext(entries@, ".scad"@),
        r.2@ == spec_last_with_ext(entries@, ".json"@),
{
    let mut image = String::new();
    let mut scad = String::new();
    let mut info = String::new();
    let mut i: usize = 0;
    while i < entries.len()
        invariant
            i <= entries@.len(),
            image@ == spec_last_with_ext(entries@.take(i as int), ".jpg"@),
            scad@ == spec_last_with_ext(entries@.take(i as int), ".scad"@),
            info@ == spec_last_with_ext(entries@.take(i as int), ".json"@),
        decreases entries@.len() - i,
    {
        proof {
            reveal_strlit(".jpg");
            reveal_strlit(".scad");
            reveal_strlit(".json");
            assert(entries@.take((i + 1) as int).drop_last() =~= entries@.take(i as int));
            assert(entries@.take((i + 1) as int).last() == entries@[i as int]);
        }
        let is_jpg = str_ends_with(&entries[i], ".jpg");
        let is_scad = str_ends_with(&entries[i], ".scad");
        let is_json = str_ends_with(&entries[i], ".json");
        proof {
            let e = entries@[i as int]@;
            if spec_ends_with(e, ".jpg"@) && spec_ends_with(e, ".scad"@) {
                assert(e.skip(e.len() - 4)[3] == e[e.len() - 1]);
                assert(e.skip(e.len() - 5)[4] == e[e.len() - 1]);
                assert(false);
            }
            if spec_ends_with(e, ".jpg"@) && spec_ends_with(e, ".json"@) {
                assert(e.skip(e.len() - 4)[3] == e[e.len() - 1]);
                assert(e.skip(e.len() - 5)[4] == e[e.len() - 1]);
                assert(false);
            }
            if spec_ends_with(e, ".scad"@) && spec_ends_with(e, ".json"@) {
                assert(e.skip(e.len() - 5)[4] == e[e.len() - 1]);
                assert(false);
            }
        }
        if is_jpg {
            image = entries[i].clone();
        } else if is_scad {
            scad = entries[i].clone();
        } else if is_json {
            info = entries[i].clone();
        }
        i = i + 1;
    }
    proof {
        assert(entries@.take(entries@.len() as int) =~= entries@);
    }
    (image, scad, info)
}

/// Total number of parts across a manifest list.
pub open spec fn spec_total_parts(ms: Seq<ModelManifest>) -> int
    decreases ms.len(),
{
    if ms.len() == 0 {
        0
    } else {
        spec_total_parts(ms.drop_last()) + ms.last().parts@.len()
    }
}

/// Total number of parameter entries across a manifest list.
pub open spec fn spec_total_params(ms: Seq<ModelManifest>) -> int
    decreases ms.len(),
{
    if ms.len() == 0 {
        0
    } else {
        spec_total_params(ms.drop_last()) + spec_param_count(ms.last().parts@)
    }
}

/// Prefix part totals are bounded by the whole.
proof fn lemma_total_parts_prefix(ms: Seq<ModelManifest>, j: int)
    requires
        0 <= j <= ms.len(),
    ensures
        0 <= spec_total_parts(ms.take(j)) <= spec_total_parts(ms),
    decreases ms.len() - j,
{
    lemma_total_parts_nonneg(ms.take(j));
    if j < ms.len() {
        assert(ms.take(j + 1).drop_last() =~= ms.take(j));
        lemma_total_parts_prefix(ms, j + 1);
    } else {
        assert(ms.take(j) =~= ms);
    }
}

proof fn lemma_total_parts_nonneg(ms: Seq<ModelManifest>)
    ensures
        spec_total_parts(ms) >= 0,
    decreases ms.len(),
{
    if ms.len() > 0 {
        lemma_total_parts_nonneg(ms.drop_last());
    }
}

/// Prefix parameter totals are bounded by the whole.
proof fn lemma_total_params_prefix(ms: Seq<ModelManifest>, j: int)
    requires
        0 <= j <= ms.len(),
    ensures
        0 <= spec_total_params(ms.take(j)) <= spec_total_params(ms),
    decreases ms.len() - j,
{
    lemma_total_params_nonneg(ms.take(j));
    if j < ms.len() {
        assert(ms.take(j + 1).drop_last() =~= ms.take(j));
        lemma_total_params_prefix(ms, j + 1);
        lemma_param_count_prefix(ms[j].parts@, 0);
        assert(ms.take(j + 1).last() == ms[j]);
    } else {
        assert(ms.take(j) =~= ms);
    }
}

proof fn lemma_total_params_nonneg(ms: Seq<ModelManifest>)
    ensures
        spec_total_params(ms) >= 0,
    decreases ms.len(),
{
    if ms.len() > 0 {
        lemma_total_params_nonneg(ms.drop_last());
        lemma_param_count_prefix(ms.last().parts@, 0);
    }
}

/// Every parameter entry of every part of every manifest is
/// well-formed.
pub open spec fn manifests_wf(ms: Seq<ModelManifest>) -> bool {
    forall|i: int| 0 <= i < ms.len() ==> crate::schema::parts_wf((#[trigger] ms[i]).parts@)
}

/// The model row an indexed manifest produces: the image is filed
/// under `images/`, the script under `scad/`, both named after the
/// model.
pub open spec fn spec_model_row(m: ModelManifest, model_id: i64) -> ModelRecordView {
    ModelRecordView {
        model_id,
        name: m.name@,
        creation_date: m.date@,
        description: m.description@,
        author: m.author@,
        image_path: "images/"@ + m.name@ + ".jpg"@,
        scad_path: "scad/"@ + m.name@ + ".scad"@,
    }
}

/// Everything one index pass inserts: model rows, part rows,
/// parameter rows and warnings in manifest order, with monotonic
/// identifiers; or the first invalid entry's error.
pub open spec fn spec_index_ok(ms: Seq<ModelManifest>) -> Result<
    (Seq<ModelRecordView>, Seq<PartRecord>, Seq<ParameterRecordView>, Seq<Warning>),
    SchemaError,
>
    decreases ms.len(),
{
    if ms.len() == 0 {
        Ok((Seq::empty(), Seq::empty(), Seq::empty(), Seq::empty()))
    } else {
        match spec_index_ok(ms.drop_last()) {
            Err(e) => Err(e),
            Ok(t) => {
                let m = ms.last();
                let mid = (ms.len() - 1) as i64;
                match spec_parts_ok(
                    m.parts@,
                    mid,
                    spec_total_parts(ms.drop_last()),
                    spec_total_params(ms.drop_last()),
                ) {
                    Err(e) => Err(e),
                    Ok(tp) => Ok(
                        (
                            t.0.push(spec_model_row(m, mid)),
                            t.1 + tp.0,
                            t.2 + tp.1,
                            t.3 + tp.2,
                        ),
                    ),
                }
            },
        }
    }
}

/// An index pass that fails on some prefix fails as a whole, with the
/// same error.
proof fn lemma_index_err(ms: Seq<ModelManifest>, j: int)
    requires
        0 <= j <= ms.len(),
        spec_index_ok(ms.take(j)) is Err,
    ensures
        spec_index_ok(ms) == spec_index_ok(ms.take(j)),
    decreases ms.len() - j,
{
    if j < ms.len() {
        assert(ms.take(j + 1).drop_last() =~= ms.take(j));
        lemma_index_err(ms, j + 1);
    } else {
        assert(ms.take(j) =~= ms);
    }
}

/// One full index pass: reset the store, then insert every manifest's
/// model, parts and validated parameters, assigning model, part and
/// parameter identifiers monotonically from zero. The first invalid
/// parameter aborts with its error, leaving the rows inserted before
/// it.
pub fn index(store: &mut Store, manifests: &Vec<ModelManifest>) -> (r: Result<
    Vec<Warning>,
    SchemaError,
>)
    requires
        old(store).inv(),
        manifests_wf(manifests@),
        manifests@.len() <= i64::MAX,
        spec_total_parts(manifests@) <= i64::MAX,
        spec_total_params(manifests@) <= i64::MAX,
    ensures
        final(store).inv(),
        final(store).instances@.len() == 0,
        final(store).next_age == old(store).next_age,
        match spec_index_ok(manifests@) {
            Ok(t) => r matches Ok(w) && w@ == t.3 && final(store).models@.map_values(
                |m: ModelRecord| m@,
            ) == t.0 && final(store).parts@ == t.1 && final(store).parameters@.map_values(
                |p: ParameterRecord| p@,
            ) == t.2,
            Err(e) => r matches Err(e2) && e2 == e,
        },
{
    proof {
        reveal_strlit("images/");
        reveal_strlit(".jpg");
        reveal_strlit("scad/");
        reveal_strlit(".scad");
    }
    let ghost ms = manifests@;
    db_reset(store);
    let mut id_counter = IdCounter { model_id: 0, part_id: 0, parameter_id: 0 };
    let mut warnings: Vec<Warning> = Vec::new();
    let mut i: usize = 0;
    proof {
        assert(store.models@.map_values(|m: ModelRecord| m@) =~= Seq::<ModelRecordView>::empty());
        assert(store.parameters@.map_values(|p: ParameterRecord| p@) =~= Seq::<
            ParameterRecordView,
        >::empty());
    }
    while i < manifests.len()
        invariant
            i <= ms.len(),
            manifests@ == ms,
            manifests_wf(ms),
            ms.len() <= i64::MAX,
            spec_total_parts(ms) <= i64::MAX,
            spec_total_params(ms) <= i64::MAX,
            id_counter.model_id == i,
            id_counter.part_id == spec_total_parts(ms.take(i as int)),
            id_counter.parameter_id == spec_total_params(ms.take(i as int)),
            store.inv(),
            store.instances@.len() == 0,
            store.next_age == old(store).next_age,
            spec_index_ok(ms.take(i as int)) matches Ok(t) && store.models@.map_values(
                |m: ModelRecord| m@,
            ) == t.0 && store.parts@ == t.1 && store.parameters@.map_values(
                |p: ParameterRecord| p@,
            ) == t.2 && warnings@ == t.3,
        decreases ms.len() - i,
    {
        proof {
            assert(ms.take((i + 1) as int).drop_last() =~= ms.take(i as int));
            assert(ms.take((i + 1) as int).last() == ms[i as int]);
            lemma_total_parts_prefix(ms, i as int);
            lemma_total_parts_prefix(ms, i as int + 1);
            lemma_total_params_prefix(ms, i as int);
            lemma_total_params_prefix(ms, i as int + 1);
            lemma_param_count_prefix(ms[i as int].parts@, 0);
        }
        proof {
            reveal_strlit("images/");
            reveal_strlit(".jpg");
            reveal_strlit("scad/");
            reveal_strlit(".scad");
        }
        let m = &manifests[i];
        let mut image_path = String::new();
        image_path.append("images/");
        image_path.append(m.name.as_str());
        image_path.append(".jpg");
        let mut scad_path = String::new();
        scad_path.append("scad/");
        scad_path.append(m.name.as_str());
        scad_path.append(".scad");
        let model_id = id_counter.model_id;
        db_add_model(
            store,
            model_id,
            m.name.clone(),
            m.date.clone(),
            m.description.clone(),
            m.author.clone(),
            image_path,
            scad_path,
        );
        match parse_parts(store, &m.parts, &mut id_counter) {
            Ok(w) => {
                append_warnings(&mut warnings, w);
                id_counter.model_id = model_id + 1;
                proof {
                    broadcast use vstd::seq::Seq::lemma_push_map_commute;

                    let nt = spec_index_ok(ms.take((i + 1) as int))->Ok_0;
                    assert(store.models@.map_values(|m2: ModelRecord| m2@) =~= nt.0);
                    assert(store.parts@ =~= nt.1);
                    assert(store.parameters@.map_values(|p: ParameterRecord| p@) =~= nt.2);
                    assert(warnings@ =~= nt.3);
                }
            },
            Err(e) => {
                proof {
                    lemma_index_err(ms, i as int + 1);
                }
                return Err(e);
            },
        }
        i = i + 1;
    }
    proof {
        assert(ms.take(ms.len() as int) =~= ms);
    }
    Ok(warnings)
}

} // verus!
