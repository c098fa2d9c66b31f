//! The `rtbot.run` command: bind a program between an input key and an
//! output key, replay the input's history through it, and either keep the
//! pipeline or tear it down again.

use vstd::prelude::*;
use vstd::string::StringExecFns;
use crate::engine::{EngineCall, PipelineEngine, RtBotMessage};
use crate::keys::same_text;
use crate::outputs::{OutputWrite, output_writes, writes_of};
use crate::registry::{
    Bindings, PipelinesRegistry, RegistryError, create_post, delete_post, is_dispatch_order,
    receive_calls,
};

verus! {

/// Why the arguments of a command were refused.
pub enum CommandError {
    MissingProgramKey,
    MissingInputKey,
    MissingOutputKey,
    /// The persist flag is neither `true` nor `false`; it holds the flag.
    InvalidPersistFlag(String),
}

/// The arguments of `rtbot.run`.
pub struct RunArgs {
    pub program_key: String,
    pub input_key: String,
    pub output_key: String,
    pub persist: bool,
}

/// The views of a list of arguments.
pub open spec fn arg_views(args: Seq<String>) -> Seq<Seq<char>> {
    args.map_values(|a: String| a@)
}

/// Reads `rtbot.run`'s arguments: the command's own name, then the program
/// key, the input key, the output key and, optionally, `true` or `false` for
/// whether the pipeline is kept (by default it is not). Further arguments
/// are ignored.
pub fn parse_args(args: &Vec<String>) -> (r: Result<RunArgs, CommandError>)
    ensures
        args@.len() < 2 <==> r matches Err(CommandError::MissingProgramKey),
        args@.len() == 2 <==> r matches Err(CommandError::MissingInputKey),
        args@.len() == 3 <==> r matches Err(CommandError::MissingOutputKey),
        args@.len() == 4 ==> (r matches Ok(a) && !a.persist),
        args@.len() > 4 && args@[4]@ == "true"@ ==> (r matches Ok(a) && a.persist),
        args@.len() > 4 && args@[4]@ == "false"@ ==> (r matches Ok(a) && !a.persist),
        args@.len() > 4 && args@[4]@ != "true"@ && args@[4]@ != "false"@ ==> (r matches Err(
            CommandError::InvalidPersistFlag(flag),
        ) && flag@ == args@[4]@),
        r matches Ok(a) ==> a.program_key@ == args@[1]@ && a.input_key@ == args@[2]@
            && a.output_key@ == args@[3]@,
{
    if args.len() < 2 {
        return Err(CommandError::MissingProgramKey);
    }
    if args.len() < 3 {
        return Err(CommandError::MissingInputKey);
    }
    if args.len() < 4 {
        return Err(CommandError::MissingOutputKey);
    }
    let mut persist = false;
    proof {
        reveal_strlit("true");
        reveal_strlit("false");
        assert("true"@[0] != "false"@[0]);
        assert("true"@ != "false"@);
    }
    if args.len() > 4 {
        if same_text(args[4].as_str(), "true") {
            persist = true;
        } else if !same_text(args[4].as_str(), "false") {
            return Err(CommandError::InvalidPersistFlag(args[4].clone()));
        }
    }
    Ok(
        RunArgs {
            program_key: args[1].clone(),
            input_key: args[2].clone(),
            output_key: args[3].clone(),
            persist,
        },
    )
}

/// What `run` did: the pipeline it created, the samples to store, in order,
/// and, where the pipeline was not kept, how its teardown went.
pub struct RunOutcome<V> {
    pub pipeline_id: String,
    pub writes: Vec<OutputWrite<V>>,
    pub teardown: Option<Result<(), RegistryError>>,
}

/// What a replay of `hist` asks of the engine, on the bindings `m` of
/// `input`, given what each receive returned (`rs`, one entry per sample):
/// the receives of each sample in turn.
pub open spec fn replay_calls<V>(
    m: Bindings,
    input: Seq<char>,
    hist: Seq<(u64, V)>,
    rs: Seq<Seq<(String, Vec<RtBotMessage<V>>)>>,
) -> Seq<EngineCall<V>>
    decreases hist.len(),
{
    if hist.len() == 0 || rs.len() == 0 {
        Seq::empty()
    } else {
        replay_calls(m, input, hist.drop_last(), rs.drop_last()) + receive_calls(
            m,
            input,
            hist.last().0,
            seq![hist.last().1],
            rs.last(),
        )
    }
}

/// The samples to store that the results of a replay ask for, sample after
/// sample.
pub open spec fn replay_writes<V>(rs: Seq<Seq<(String, Vec<RtBotMessage<V>>)>>) -> Seq<
    OutputWrite<V>,
>
    decreases rs.len(),
{
    if rs.len() == 0 {
        Seq::empty()
    } else {
        replay_writes(rs.drop_last()) + writes_of(rs.last())
    }
}

/// Creates a pipeline from `program` between `input_key` and `output_key`,
/// feeds the input's `history`, oldest first, to the pipelines bound to the
/// input key, and collects the samples that their results ask to store.
/// Unless `persist` is set, the pipeline is deleted again afterwards. Fails
/// only where the creation fails.
pub fn run<E: PipelineEngine>(
    registry: &mut PipelinesRegistry,
    engine: &mut E,
    program: &String,
    input_key: &String,
    output_key: &String,
    persist: bool,
    history: &Vec<(u64, E::Value)>,
) -> (r: Result<RunOutcome<E::Value>, RegistryError>)
    requires
        old(registry).wf(),
    ensures
        final(registry).wf(),
        match r {
            Err(e) => create_post(
                old(registry)@,
                (input_key@, output_key@),
                program@,
                Err(e),
                final(registry)@,
                old(engine).calls(),
                final(engine).calls(),
            ),
            Ok(out) => {
                let made = old(registry)@.insert((input_key@, output_key@), out.pipeline_id@);
                let created = old(engine).calls().push(
                    EngineCall::Create { id: out.pipeline_id@, program: program@, reply: Seq::empty() },
                );
                &&& create_post(
                    old(registry)@,
                    (input_key@, output_key@),
                    program@,
                    Ok(out.pipeline_id),
                    made,
                    old(engine).calls(),
                    created,
                )
                &&& exists|rs: Seq<Seq<(String, Vec<RtBotMessage<E::Value>>)>>|
                    #[trigger] replay_writes(rs) == out.writes@ && rs.len() == history@.len() && (
                    forall|i: int|
                        0 <= i < rs.len() ==> is_dispatch_order(
                            made,
                            input_key@,
                            rs[i].map_values(|e: (String, Vec<RtBotMessage<E::Value>>)| e.0@),
                        )) && if persist {
                        &&& out.teardown is None
                        &&& final(registry)@ == made
                        &&& final(engine).calls() == created + replay_calls(
                            made,
                            input_key@,
                            history@,
                            rs,
                        )
                    } else {
                        out.teardown matches Some(t) && delete_post(
                            made,
                            (input_key@, output_key@),
                            t,
                            final(registry)@,
                            created + replay_calls(made, input_key@, history@, rs),
                            final(engine).calls(),
                        )
                    }
            },
        },
{
    let pipeline_id = match registry.create(engine, program, input_key, output_key) {
        Ok(id) => id,
        Err(e) => {
            return Err(e);
        },
    };
    let ghost made = registry@;
    let ghost created = engine.calls();
    let ghost mut rs: Seq<Seq<(String, Vec<RtBotMessage<E::Value>>)>> = Seq::empty();
    let mut writes: Vec<OutputWrite<E::Value>> = Vec::new();
    let mut i: usize = 0;
    proof {
        assert(created + Seq::<EngineCall<E::Value>>::empty() =~= created);
    }
    while i < history.len()
        invariant
            registry.wf(),
            registry@ == made,
            i <= history@.len(),
            rs.len() == i,
            forall|t: int|
                0 <= t < rs.len() ==> is_dispatch_order(
                    made,
                    input_key@,
                    rs[t].map_values(|e: (String, Vec<RtBotMessage<E::Value>>)| e.0@),
                ),
            writes@ == replay_writes(rs),
            engine.calls() == created + replay_calls(made, input_key@, history@.take(i as int), rs),
        decreases history.len() - i,
    {
        let v = history[i].1;
        let mut sample: Vec<E::Value> = Vec::new();
        sample.push(v);
        let ghost before = engine.calls();
        let results = registry.receive(engine, input_key, history[i].0, sample);
        let ghost got = results@;
        let mut more = output_writes(results);
        let ghost w0 = writes@;
        writes.append(&mut more);
        proof {
            let h = history@.take(i + 1);
            assert(h.drop_last() =~= history@.take(i as int));
            assert(h.last() == history@[i as int]);
            let rs1 = rs.push(got);
            assert(rs1.drop_last() =~= rs);
            assert(seq![v] =~= seq![h.last().1]);
            assert(engine.calls() =~= created + replay_calls(made, input_key@, h, rs1));
            assert(writes@ =~= replay_writes(rs1));
            rs = rs1;
        }
        i = i + 1;
    }
    proof {
        assert(history@.take(i as int) =~= history@);
    }
    if persist {
        Ok(RunOutcome { pipeline_id, writes, teardown: None })
    } else {
        let t = registry.delete(engine, input_key, output_key);
        Ok(RunOutcome { pipeline_id, writes, teardown: Some(t) })
    }
}

} // verus!
