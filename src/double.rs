//! An engine double that returns scripted answers, for exercising the
//! registry without the native engine.

use vstd::prelude::*;
use crate::engine::{EngineCall, PipelineEngine, RtBotMessage};

verus! {

/// Answers every creation with `create_reply` and every deletion with
/// `delete_reply` (empty for success), and every data point with one result:
/// the data point itself.
pub struct ScriptedEngine<V> {
    create_reply: String,
    delete_reply: String,
    log: Ghost<Seq<EngineCall<V>>>,
}

impl<V: Copy> ScriptedEngine<V> {
    /// The answer to every creation.
    pub closed spec fn create_answer(&self) -> Seq<char> {
        self.create_reply@
    }

    /// The answer to every deletion.
    pub closed spec fn delete_answer(&self) -> Seq<char> {
        self.delete_reply@
    }

    pub fn new(create_reply: String, delete_reply: String) -> (r: Self)
        ensures
            r.create_answer() == create_reply@,
            r.delete_answer() == delete_reply@,
            r.calls() == Seq::<EngineCall<V>>::empty(),
    {
        ScriptedEngine { create_reply, delete_reply, log: Ghost(Seq::empty()) }
    }
}

impl<V: Copy> PipelineEngine for ScriptedEngine<V> {
    type Value = V;

    closed spec fn calls(&self) -> Seq<EngineCall<V>> {
        self.log@
    }

    fn create_pipeline(&mut self, id: &String, program: &String) -> (r: String)
        ensures
            r@ == old(self).create_answer(),
            final(self).create_answer() == old(self).create_answer(),
            final(self).delete_answer() == old(self).delete_answer(),
    {
        let r = self.create_reply.clone();
        self.log = Ghost(self.log@.push(EngineCall::Create { id: id@, program: program@, reply: r@ }));
        r
    }

    fn delete_pipeline(&mut self, id: &String) -> (r: String)
        ensures
            r@ == old(self).delete_answer(),
            final(self).create_answer() == old(self).create_answer(),
            final(self).delete_answer() == old(self).delete_answer(),
    {
        let r = self.delete_reply.clone();
        self.log = Ghost(self.log@.push(EngineCall::Delete { id: id@, reply: r@ }));
        r
    }

    fn receive_message_in_pipeline(&mut self, id: &String, message: RtBotMessage<V>) -> (r: Vec<
        RtBotMessage<V>,
    >)
        ensures
            r@.len() == 1,
            r@[0].timestamp == message.timestamp,
            r@[0].values@ == message.values@,
            final(self).create_answer() == old(self).create_answer(),
            final(self).delete_answer() == old(self).delete_answer(),
    {
        let ghost ts = message.timestamp;
        let ghost vs = message.values@;
        let mut r: Vec<RtBotMessage<V>> = Vec::new();
        r.push(message);
        self.log = Ghost(
            self.log@.push(EngineCall::Receive { id: id@, timestamp: ts, values: vs, emitted: r@ }),
        );
        r
    }
}

} // verus!
