//! The pipeline execution engine, as the registry sees it: three operations
//! over pipelines named by an id. What a pipeline computes, and all the state
//! it keeps, belongs to the engine.

use vstd::prelude::*;

verus! {

/// A timestamped vector of samples: a data point sent into a pipeline, or a
/// result that comes out of one.
pub struct RtBotMessage<V> {
    pub timestamp: u64,
    pub values: Vec<V>,
}

/// One operation that an engine was asked for, with its answer.
pub enum EngineCall<V> {
    Create { id: Seq<char>, program: Seq<char>, reply: Seq<char> },
    Delete { id: Seq<char>, reply: Seq<char> },
    Receive { id: Seq<char>, timestamp: u64, values: Seq<V>, emitted: Seq<RtBotMessage<V>> },
}

/// An engine that runs pipelines. The native engine is one implementation;
/// a double that returns scripted results is another. `calls` is the history
/// of the operations asked of the engine, each with its answer: every
/// operation appends one entry.
pub trait PipelineEngine {
    /// The type of one sample.
    type Value: Copy;

    /// The operations asked of this engine so far, oldest first. A verified
    /// implementation keeps this history in a ghost field; the default is
    /// there for implementations written outside the verifier.
    closed spec fn calls(&self) -> Seq<EngineCall<Self::Value>> {
        Seq::empty()
    }

    /// Instantiates the pipeline described by `program` under `id`. Returns
    /// the empty string on success, and the reason of the refusal otherwise.
    fn create_pipeline(&mut self, id: &String, program: &String) -> (r: String)
        ensures
            final(self).calls() == old(self).calls().push(
                EngineCall::Create { id: id@, program: program@, reply: r@ },
            ),
    ;

    /// Tears down the pipeline `id`. Returns the empty string on success, and
    /// the reason of the refusal otherwise.
    fn delete_pipeline(&mut self, id: &String) -> (r: String)
        ensures
            final(self).calls() == old(self).calls().push(EngineCall::Delete { id: id@, reply: r@ }),
    ;

    /// Feeds one data point to the pipeline `id` and returns the results it
    /// emits in response, possibly none.
    fn receive_message_in_pipeline(
        &mut self,
        id: &String,
        message: RtBotMessage<Self::Value>,
    ) -> (r: Vec<RtBotMessage<Self::Value>>)
        ensures
            final(self).calls() == old(self).calls().push(
                EngineCall::Receive {
                    id: id@,
                    timestamp: message.timestamp,
                    values: message.values@,
                    emitted: r@,
                },
            ),
    ;
}

/// A copy of `values`, sample for sample.
pub fn copy_values<V: Copy>(values: &Vec<V>) -> (r: Vec<V>)
    ensures
        r@ == values@,
{
    let mut r: Vec<V> = Vec::new();
    let mut i: usize = 0;
    while i < values.len()
        invariant
            i <= values@.len(),
            r@ == values@.take(i as int),
        decreases values.len() - i,
    {
        let x = values[i];
        r.push(x);
        proof {
            assert(values@.take(i + 1) =~= values@.take(i as int).push(x));
        }
        i = i + 1;
    }
    proof {
        assert(values@.take(values@.len() as int) =~= values@);
    }
    r
}

} // verus!
