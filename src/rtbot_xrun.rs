//! The `rtbot.xrun` command, which runs `rtbot.run` with a kept pipeline,
//! and the handling of the store's events: a sample added under a key is fed
//! to the pipelines bound to that key.

use vstd::prelude::*;
use vstd::string::StringExecFns;
use crate::engine::{PipelineEngine, RtBotMessage};
use crate::keys::{key_lt, same_text};
use crate::outputs::{OutputWrite, output_writes, writes_of, lemma_writes_keys, lemma_writes_order};
use crate::registry::{PipelinesRegistry, bound_outputs, receive_post};
use crate::rtbot_run::CommandError;

verus! {

/// The arguments with which `rtbot.xrun` runs `rtbot.run`: the program key,
/// the input key and the output key that it was given (after its own name),
/// and `true`, so that the pipeline is kept.
pub fn run(args: &Vec<String>) -> (r: Result<Vec<String>, CommandError>)
    ensures
        args@.len() < 2 <==> r matches Err(CommandError::MissingProgramKey),
        args@.len() == 2 <==> r matches Err(CommandError::MissingInputKey),
        args@.len() == 3 <==> r matches Err(CommandError::MissingOutputKey),
        args@.len() >= 4 ==> (r matches Ok(v) && v@.len() == 4 && v@[0]@ == args@[1]@
            && v@[1]@ == args@[2]@ && v@[2]@ == args@[3]@ && v@[3]@ == "true"@),
{
    if args.len() < 2 {
        return Err(CommandError::MissingProgramKey);
    }
    if args.len() < 3 {
        return Err(CommandError::MissingInputKey);
    }
    if args.len() < 4 {
        return Err(CommandError::MissingOutputKey);
    }
    let mut forwarded: Vec<String> = Vec::new();
    forwarded.push(args[1].clone());
    forwarded.push(args[2].clone());
    forwarded.push(args[3].clone());
    forwarded.push(String::from_str("true"));
    Ok(forwarded)
}

/// Whether a store event is the addition of a sample (`ts.add`).
pub fn is_sample_event(event: &str) -> (r: bool)
    ensures
        r == (event@ == "ts.add"@),
{
    same_text(event, "ts.add")
}

/// Feeds the sample (`timestamp`, `value`), just added under `key`, to every
/// pipeline bound to `key`, in the order of the output keys, and returns the
/// samples that their results ask to store, in that order. Each is under an
/// output key bound to `key`; with no binding of `key` there is none.
pub fn on_generic_event<E: PipelineEngine>(
    registry: &PipelinesRegistry,
    engine: &mut E,
    key: &String,
    timestamp: u64,
    value: E::Value,
) -> (r: Vec<OutputWrite<E::Value>>)
    requires
        registry.wf(),
    ensures
        exists|rs: Seq<(String, Vec<RtBotMessage<E::Value>>)>|
            #[trigger] writes_of(rs) == r@ && receive_post(
                registry@,
                key@,
                timestamp,
                seq![value],
                rs,
                old(engine).calls(),
                final(engine).calls(),
            ),
        forall|i: int|
            0 <= i < r@.len() ==> registry@.contains_key((key@, (#[trigger] r@[i]).output_key@)),
        forall|i: int, j: int|
            0 <= i < j < r@.len() ==> key_lt(r@[i].output_key@, r@[j].output_key@),
        bound_outputs(registry@, key@).is_empty() ==> r@.len() == 0,
{
    let mut sample: Vec<E::Value> = Vec::new();
    sample.push(value);
    assert(sample@ =~= seq![value]);
    let results = registry.receive(engine, key, timestamp, sample);
    let ghost rs = results@;
    let writes = output_writes(results);
    proof {
        lemma_writes_keys(rs);
        assert forall|i: int, j: int| 0 <= i < j < rs.len() implies key_lt(rs[i].0@, rs[j].0@) by {
            let names = rs.map_values(|e: (String, Vec<RtBotMessage<E::Value>>)| e.0@);
            assert(names[i] == rs[i].0@ && names[j] == rs[j].0@);
        }
        lemma_writes_order(rs);
        assert forall|t: int| 0 <= t < writes@.len() implies registry@.contains_key(
            (key@, (#[trigger] writes@[t]).output_key@),
        ) by {
            let j = choose|j: int| 0 <= j < rs.len() && writes_of(rs)[t].output_key == rs[j].0;
            assert(rs.map_values(|e: (String, Vec<RtBotMessage<E::Value>>)| e.0@)[j] == rs[j].0@);
        }
        if rs.len() == 0 {
            assert(writes_of(rs).len() == 0);
        }
    }
    writes
}

} // verus!
