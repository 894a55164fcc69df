use vstd::prelude::*;

use crate::command::{mismatch, step_result, Command, Step};
use crate::tokenize::{scan, steps, tokenize};
use crate::value::{trees, Tree, Value};

verus! {

/// One stage of fan-out: each live value in turn is handed to the command,
/// and everything it yields is kept in order.
pub open spec fn stage(c: Step, live: Seq<Tree>) -> Seq<Tree>
    decreases live.len(),
{
    if live.len() == 0 {
        Seq::empty()
    } else {
        stage(c, live.drop_last()) + step_result(c, live.last())
    }
}

/// How many live values of one stage are type mismatches for the command.
pub open spec fn stage_mismatches(c: Step, live: Seq<Tree>) -> nat
    decreases live.len(),
{
    if live.len() == 0 {
        0
    } else {
        stage_mismatches(c, live.drop_last()) + if mismatch(c, live.last()) {
            1nat
        } else {
            0nat
        }
    }
}

/// The values that the commands yield from the live values, stage after stage.
pub open spec fn run(cs: Seq<Step>, live: Seq<Tree>) -> Seq<Tree>
    decreases cs.len(),
{
    if cs.len() == 0 {
        live
    } else {
        run(cs.drop_first(), stage(cs[0], live))
    }
}

/// How many type mismatches the commands meet, over all stages.
pub open spec fn run_mismatches(cs: Seq<Step>, live: Seq<Tree>) -> nat
    decreases cs.len(),
{
    if cs.len() == 0 {
        0
    } else {
        stage_mismatches(cs[0], live) + run_mismatches(cs.drop_first(), stage(cs[0], live))
    }
}

/// `n`, or `usize::MAX` where it does not fit.
pub open spec fn capped(n: int) -> usize {
    if n > usize::MAX {
        usize::MAX
    } else {
        n as usize
    }
}

/// What a pipeline produced: the values, and how many type mismatches it met
/// on the way (capped at `usize::MAX`).
#[derive(Debug)]
pub struct Evaluation {
    pub values: Vec<Value>,
    pub mismatches: usize,
}

/// Runs one stage over the live values.
#[verifier::loop_isolation(false)]
fn apply_stage(command: &Command, live: Vec<Value>, seen: usize) -> (r: (Vec<Value>, usize))
    ensures
        trees(r.0@) == stage(command@, trees(live@)),
        r.1 == capped(seen + stage_mismatches(command@, trees(live@))),
{
    let ghost l = trees(live@);
    let mut out: Vec<Value> = Vec::new();
    let mut count: usize = seen;
    for v in it: live
        invariant
            it.seq() == live@,
            trees(out@) == stage(command@, l.take(it.index() as int)),
            count == capped(seen + stage_mismatches(command@, l.take(it.index() as int))),
    {
        let ghost k = it.index() as int;
        assert(l.take(k + 1).drop_last() =~= l.take(k));
        if command.rejects(&v) {
            count = count.saturating_add(1);
        }
        let mut results = command.apply(v);
        let ghost before = trees(out@);
        let ghost yielded = trees(results@);
        out.append(&mut results);
        assert(trees(out@) =~= before + yielded);
    }
    assert(l.take(live@.len() as int) =~= l);
    (out, count)
}

/// Threads the live values through every command of the pipeline, in order.
pub fn evaluate_all(pipeline: &Vec<Command>, live: Vec<Value>) -> (r: Evaluation)
    ensures
        trees(r.values@) == run(steps(pipeline@), trees(live@)),
        r.mismatches == capped(run_mismatches(steps(pipeline@), trees(live@)) as int),
{
    let ghost cs = steps(pipeline@);
    let ghost l0 = trees(live@);
    let mut current = live;
    let mut count: usize = 0;
    let mut k: usize = 0;
    assert(cs.skip(0) =~= cs);
    while k < pipeline.len()
        invariant
            cs == steps(pipeline@),
            k <= pipeline.len(),
            run(cs, l0) == run(cs.skip(k as int), trees(current@)),
            capped(run_mismatches(cs, l0) as int) == capped(
                count + run_mismatches(cs.skip(k as int), trees(current@)),
            ),
        decreases pipeline.len() - k,
    {
        let ghost rest = cs.skip(k as int);
        assert(rest.drop_first() =~= cs.skip(k + 1));
        assert(rest[0] == pipeline@[k as int]@);
        let (next, seen) = apply_stage(&pipeline[k], current, count);
        current = next;
        count = seen;
        k += 1;
    }
    assert(cs.skip(k as int) =~= Seq::<Step>::empty());
    Evaluation { values: current, mismatches: count }
}

/// Applies the pipeline to one value.
pub fn evaluate(pipeline: &Vec<Command>, initial: Value) -> (r: Evaluation)
    ensures
        trees(r.values@) == run(steps(pipeline@), seq![initial@]),
        r.mismatches == capped(run_mismatches(steps(pipeline@), seq![initial@]) as int),
{
    let live = vec![initial];
    assert(trees(live@) =~= seq![initial@]);
    evaluate_all(pipeline, live)
}

/// The values that `query` extracts from `data`.
pub fn query_json(data: Value, query: &str) -> (r: Vec<Value>)
    ensures
        trees(r@) == run(scan(query@, 0), seq![data@]),
{
    let pipeline = tokenize(query);
    evaluate(&pipeline, data).values
}

} // verus!
