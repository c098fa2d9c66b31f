//! The pipelines manager: a registry behind its own handle, with the same
//! operations and the same guarantees.

use vstd::prelude::*;
use crate::engine::{PipelineEngine, RtBotMessage};
use crate::registry::{
    Bindings, PipelinesRegistry, RegistryError, bound_outputs, create_post, delete_input_post,
    delete_post, receive_post,
};

verus! {

/// Holds one registry and forwards to it.
pub struct PipelinesManager {
    pipelines: PipelinesRegistry,
}

impl View for PipelinesManager {
    type V = Bindings;

    closed spec fn view(&self) -> Bindings {
        self.pipelines@
    }
}

impl PipelinesManager {
    pub closed spec fn wf(&self) -> bool {
        self.pipelines.wf()
    }

    /// A manager with no pipeline.
    pub fn new() -> (r: Self)
        ensures
            r.wf(),
            r@ == Bindings::empty(),
    {
        PipelinesManager { pipelines: PipelinesRegistry::new() }
    }

    /// As `PipelinesRegistry::create`.
    pub fn create<E: PipelineEngine>(
        &mut self,
        engine: &mut E,
        program: &String,
        input_key: &String,
        output_key: &String,
    ) -> (r: Result<String, RegistryError>)
        requires
            old(self).wf(),
        ensures
            final(self).wf(),
            create_post(
                old(self)@,
                (input_key@, output_key@),
                program@,
                r,
                final(self)@,
                old(engine).calls(),
                final(engine).calls(),
            ),
    {
        self.pipelines.create(engine, program, input_key, output_key)
    }

    /// As `PipelinesRegistry::delete`.
    pub fn delete<E: PipelineEngine>(
        &mut self,
        engine: &mut E,
        input_key: &String,
        output_key: &String,
    ) -> (r: Result<(), RegistryError>)
        requires
            old(self).wf(),
        ensures
            final(self).wf(),
            delete_post(
                old(self)@,
                (input_key@, output_key@),
                r,
                final(self)@,
                old(engine).calls(),
                final(engine).calls(),
            ),
    {
        self.pipelines.delete(engine, input_key, output_key)
    }

    /// As `PipelinesRegistry::delete_by_input_key`.
    pub fn delete_by_input_key<E: PipelineEngine>(&mut self, engine: &mut E, input_key: &String) -> (r: Result<usize, RegistryError>)
        requires
            old(self).wf(),
        ensures
            final(self).wf(),
            delete_input_post(
                old(self)@,
                input_key@,
                r,
                final(self)@,
                old(engine).calls(),
                final(engine).calls(),
            ),
    {
        self.pipelines.delete_by_input_key(engine, input_key)
    }

    /// As `PipelinesRegistry::receive`.
    pub fn receive<E: PipelineEngine>(
        &self,
        engine: &mut E,
        input_key: &String,
        timestamp: u64,
        values: Vec<E::Value>,
    ) -> (r: Vec<(String, Vec<RtBotMessage<E::Value>>)>)
        requires
            self.wf(),
        ensures
            receive_post(
                self@,
                input_key@,
                timestamp,
                values@,
                r@,
                old(engine).calls(),
                final(engine).calls(),
            ),
            bound_outputs(self@, input_key@).is_empty() ==> r@.len() == 0,
    {
        self.pipelines.receive(engine, input_key, timestamp, values)
    }
}

} // verus!
