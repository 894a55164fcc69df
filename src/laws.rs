use vstd::prelude::*;

use crate::command::{
    elements_result, field_lookup, key_result, keys_result, mismatch, pick, split_commas,
    step_result, takes_all, Step,
};
use crate::pipeline::{run, run_mismatches, stage};
use crate::value::{all_well_formed, well_formed, Tree};

verus! {

/// The empty pipeline is the identity: it yields the value it was given, and
/// meets no mismatch.
pub proof fn lemma_empty_pipeline(v: Tree)
    ensures
        run(Seq::empty(), seq![v]) == seq![v],
        run_mismatches(Seq::empty(), seq![v]) == 0,
{
}

/// Looking up a key in anything but an object is a type mismatch, and the
/// value is dropped.
pub proof fn lemma_key_drops_non_objects(key: Seq<char>, v: Tree)
    requires
        !(v is Object),
    ensures
        step_result(Step::Key(key), v) == Seq::<Tree>::empty(),
        mismatch(Step::Key(key), v),
{
}

/// Listing the keys of anything but an object is a type mismatch, and the
/// value is dropped.
pub proof fn lemma_keys_drop_non_objects(v: Tree)
    requires
        !(v is Object),
    ensures
        step_result(Step::Keys, v) == Seq::<Tree>::empty(),
        mismatch(Step::Keys, v),
{
}

/// Selecting elements of anything but an array yields a single null, whatever
/// the index expression, and is no mismatch.
pub proof fn lemma_elements_degrade_non_arrays(indices: Seq<char>, v: Tree)
    requires
        !(v is Array),
    ensures
        step_result(Step::Elements(indices), v) == seq![Tree::Null],
        !mismatch(Step::Elements(indices), v),
{
}

/// One stage over two runs of live values yields the results of the first
/// run followed by those of the second.
pub proof fn lemma_stage_concat(c: Step, a: Seq<Tree>, b: Seq<Tree>)
    ensures
        stage(c, a + b) == stage(c, a) + stage(c, b),
    decreases b.len(),
{
    if b.len() == 0 {
        assert(a + b =~= a);
        assert(stage(c, a) + stage(c, b) =~= stage(c, a));
    } else {
        assert((a + b).drop_last() =~= a + b.drop_last());
        lemma_stage_concat(c, a, b.drop_last());
        assert(stage(c, a + b) =~= stage(c, a) + stage(c, b));
    }
}

/// Fan-out keeps branches apart and in order: a pipeline run over two runs
/// of live values yields everything that comes of the first before
/// everything that comes of the second.
pub proof fn lemma_run_concat(cs: Seq<Step>, a: Seq<Tree>, b: Seq<Tree>)
    ensures
        run(cs, a + b) == run(cs, a) + run(cs, b),
    decreases cs.len(),
{
    if cs.len() > 0 {
        lemma_stage_concat(cs[0], a, b);
        lemma_run_concat(cs.drop_first(), stage(cs[0], a), stage(cs[0], b));
    }
}

proof fn lemma_field_lookup_well_formed(fields: Seq<(Seq<char>, Tree)>, key: Seq<char>, i: int)
    requires
        forall|k: int| 0 <= k < fields.len() ==> well_formed(#[trigger] fields[k].1),
    ensures
        well_formed(field_lookup(fields, key, i)),
    decreases fields.len() - i,
{
    if 0 <= i < fields.len() && fields[i].0 != key {
        lemma_field_lookup_well_formed(fields, key, i + 1);
    }
}

/// A command applied to a well-formed value yields well-formed values.
pub proof fn lemma_step_keeps_well_formed(c: Step, v: Tree)
    requires
        well_formed(v),
    ensures
        all_well_formed(step_result(c, v)),
{
    match c {
        Step::Key(key) => {
            if let Tree::Object(fields) = v {
                lemma_field_lookup_well_formed(fields, key, 0);
            }
        },
        Step::Elements(indices) => {
            if let Tree::Array(items) = v {
                if !takes_all(indices) {
                    let r = elements_result(indices, v);
                    assert forall|i: int| 0 <= i < r.len() implies well_formed(#[trigger] r[i]) by {
                        assert(r[i] == pick(items, split_commas(indices)[i]));
                    }
                }
            }
        },
        Step::Keys => {
            let r = keys_result(v);
            assert forall|i: int| 0 <= i < r.len() implies well_formed(#[trigger] r[i]) by {
                assert(r[i] is Str);
            }
        },
    }
}

/// A stage over well-formed values yields well-formed values.
pub proof fn lemma_stage_keeps_well_formed(c: Step, live: Seq<Tree>)
    requires
        all_well_formed(live),
    ensures
        all_well_formed(stage(c, live)),
    decreases live.len(),
{
    if live.len() > 0 {
        lemma_stage_keeps_well_formed(c, live.drop_last());
        lemma_step_keeps_well_formed(c, live.last());
        let a = stage(c, live.drop_last());
        let b = step_result(c, live.last());
        assert forall|i: int| 0 <= i < (a + b).len() implies well_formed(#[trigger] (a + b)[i]) by {
            if i >= a.len() {
                assert((a + b)[i] == b[i - a.len()]);
            }
        }
    }
}

/// A pipeline run over well-formed values yields well-formed values: no
/// command makes an object with two fields of one name.
pub proof fn lemma_run_keeps_well_formed(cs: Seq<Step>, live: Seq<Tree>)
    requires
        all_well_formed(live),
    ensures
        all_well_formed(run(cs, live)),
    decreases cs.len(),
{
    if cs.len() > 0 {
        lemma_stage_keeps_well_formed(cs[0], live);
        lemma_run_keeps_well_formed(cs.drop_first(), stage(cs[0], live));
    }
}

} // verus!
