//! The pipeline registry: which pipeline connects which input key to which
//! output key, and the dispatch of data points to those pipelines.
//!
//! Every operation takes the registry by reference, so callers that share one
//! registry between tasks hold it behind a single lock for the whole call,
//! engine call included.

use vstd::prelude::*;
use crate::engine::{EngineCall, PipelineEngine, RtBotMessage, copy_values};
use vstd::string::StrSliceExecFns;
use crate::ids::{is_generated_id, random_id};
use crate::keys::{
    key_less, key_lt, lemma_key_lt_irreflexive, lemma_key_lt_total, lemma_key_lt_transitive,
};

verus! {

/// The length of a pipeline id.
pub const PIPELINE_ID_LEN: usize = 5;

/// How many random ids of `PIPELINE_ID_LEN` characters `create` draws, at
/// most, to find one not in use, before it draws a longer one.
pub const ID_ATTEMPTS: usize = 8;

/// The registry's state: (input key, output key) to pipeline id.
pub type Bindings = Map<(Seq<char>, Seq<char>), Seq<char>>;

/// Order of (input key, output key) pairs: by input key, then by output key.
pub open spec fn pair_lt(a: (Seq<char>, Seq<char>), b: (Seq<char>, Seq<char>)) -> bool {
    key_lt(a.0, b.0) || (a.0 == b.0 && key_lt(a.1, b.1))
}

pub proof fn lemma_pair_lt_irreflexive(a: (Seq<char>, Seq<char>))
    ensures
        !pair_lt(a, a),
{
    lemma_key_lt_irreflexive(a.0);
    lemma_key_lt_irreflexive(a.1);
}

pub proof fn lemma_pair_lt_transitive(
    a: (Seq<char>, Seq<char>),
    b: (Seq<char>, Seq<char>),
    c: (Seq<char>, Seq<char>),
)
    requires
        pair_lt(a, b),
        pair_lt(b, c),
    ensures
        pair_lt(a, c),
{
    if key_lt(a.0, b.0) && key_lt(b.0, c.0) {
        lemma_key_lt_transitive(a.0, b.0, c.0);
    }
    if a.0 == b.0 && b.0 == c.0 && key_lt(a.1, b.1) && key_lt(b.1, c.1) {
        lemma_key_lt_transitive(a.1, b.1, c.1);
    }
}

pub proof fn lemma_pair_lt_total(a: (Seq<char>, Seq<char>), b: (Seq<char>, Seq<char>))
    requires
        a != b,
    ensures
        pair_lt(a, b) || pair_lt(b, a),
{
    if a.0 != b.0 {
        lemma_key_lt_total(a.0, b.0);
    } else {
        lemma_key_lt_total(a.1, b.1);
    }
}

/// The output keys bound to `input`.
pub open spec fn bound_outputs(m: Bindings, input: Seq<char>) -> Set<Seq<char>> {
    Set::new(|o: Seq<char>| m.contains_key((input, o)))
}

/// A pipeline id: at least `PIPELINE_ID_LEN` characters of the id alphabet.
pub open spec fn is_pipeline_id(id: Seq<char>) -> bool {
    id.len() >= PIPELINE_ID_LEN && is_generated_id(id, id.len())
}

/// Some binding of `m` uses the pipeline id `id`.
pub open spec fn id_in_use(m: Bindings, id: Seq<char>) -> bool {
    exists|p: (Seq<char>, Seq<char>)| #[trigger] m.contains_key(p) && m[p] == id
}

/// `outs` lists the output keys bound to `input`, each once, in key order.
pub open spec fn is_dispatch_order(m: Bindings, input: Seq<char>, outs: Seq<Seq<char>>) -> bool {
    &&& forall|i: int, j: int| 0 <= i < j < outs.len() ==> key_lt(outs[i], outs[j])
    &&& forall|i: int| 0 <= i < outs.len() ==> m.contains_key((input, #[trigger] outs[i]))
    &&& forall|o: Seq<char>| #[trigger] m.contains_key((input, o)) ==> outs.contains(o)
}

/// `m` without any binding of `input`.
pub open spec fn without_input(m: Bindings, input: Seq<char>) -> Bindings {
    Map::new(|p: (Seq<char>, Seq<char>)| m.contains_key(p) && p.0 != input, |p| m[p])
}

/// `m` without the bindings of `input` whose output key is `last` or comes
/// before it.
pub open spec fn without_outputs_through(m: Bindings, input: Seq<char>, last: Seq<char>) -> Bindings {
    Map::new(
        |p: (Seq<char>, Seq<char>)|
            m.contains_key(p) && !(p.0 == input && (key_lt(p.1, last) || p.1 == last)),
        |p| m[p],
    )
}

/// The record that a live pipeline connects `input_key` to `output_key`.
pub struct Binding {
    pub input_key: String,
    pub output_key: String,
    pub pipeline_id: String,
}

impl Binding {
    pub open spec fn key(self) -> (Seq<char>, Seq<char>) {
        (self.input_key@, self.output_key@)
    }

    /// A copy of this binding.
    pub fn duplicate(&self) -> (r: Binding)
        ensures
            r.input_key@ == self.input_key@,
            r.output_key@ == self.output_key@,
            r.pipeline_id@ == self.pipeline_id@,
    {
        Binding {
            input_key: self.input_key.clone(),
            output_key: self.output_key.clone(),
            pipeline_id: self.pipeline_id.clone(),
        }
    }
}

/// Why a registry operation failed.
pub enum RegistryError {
    /// A pipeline already connects the two keys; it holds that pipeline's id.
    AlreadyExists(String),
    /// No pipeline connects the two keys.
    NotFound,
    /// The engine refused the operation; it holds the engine's reason.
    EngineRejected(String),
    /// No pipeline id that is not in use could be drawn.
    NoFreshId,
}

/// The registry. Bindings are kept in a vector ordered by (input key, output
/// key), each pair at most once.
pub struct PipelinesRegistry {
    bindings: Vec<Binding>,
    table: Ghost<Bindings>,
}

impl View for PipelinesRegistry {
    type V = Bindings;

    closed spec fn view(&self) -> Bindings {
        self.table@
    }
}

impl PipelinesRegistry {
    /// The vector and the map agree, and the vector is strictly ordered.
    pub closed spec fn wf(&self) -> bool {
        let b = self.bindings@;
        &&& self.table@.dom().finite()
        &&& forall|i: int|
            #![trigger b[i]]
            0 <= i < b.len() ==> self.table@.contains_key(b[i].key()) && self.table@[b[i].key()]
                == b[i].pipeline_id@
        &&& forall|p: (Seq<char>, Seq<char>)| #[trigger]
            self.table@.contains_key(p) ==> exists|i: int| 0 <= i < b.len() && b[i].key() == p
        &&& forall|i: int, j: int| 0 <= i < j < b.len() ==> pair_lt(b[i].key(), b[j].key())
    }

    /// An empty registry.
    pub fn new() -> (r: Self)
        ensures
            r.wf(),
            r@ == Bindings::empty(),
    {
        PipelinesRegistry { bindings: Vec::new(), table: Ghost(Bindings::empty()) }
    }

    /// Where the binding of (`input_key`, `output_key`) stands, if there is one.
    fn position(&self, input_key: &String, output_key: &String) -> (r: Option<usize>)
        requires
            self.wf(),
        ensures
            match r {
                Some(i) => i < self.bindings@.len() && self.bindings@[i as int].key() == (
                    input_key@,
                    output_key@,
                ),
                None => !self@.contains_key((input_key@, output_key@)),
            },
    {
        let mut i: usize = 0;
        while i < self.bindings.len()
            invariant
                self.wf(),
                i <= self.bindings@.len(),
                forall|j: int|
                    0 <= j < i ==> #[trigger] self.bindings@[j].key() != (input_key@, output_key@),
            decreases self.bindings.len() - i,
        {
            if self.bindings[i].input_key == *input_key && self.bindings[i].output_key
                == *output_key {
                return Some(i);
            }
            i = i + 1;
        }
        None
    }

    /// Where a binding of the absent pair (`input_key`, `output_key`) goes.
    fn insertion_point(&self, input_key: &String, output_key: &String) -> (r: usize)
        requires
            self.wf(),
            !self@.contains_key((input_key@, output_key@)),
        ensures
            r <= self.bindings@.len(),
            forall|j: int|
                0 <= j < r ==> pair_lt(#[trigger] self.bindings@[j].key(), (input_key@, output_key@)),
            forall|j: int|
                r <= j < self.bindings@.len() ==> pair_lt(
                    (input_key@, output_key@),
                    #[trigger] self.bindings@[j].key(),
                ),
    {
        let ghost k = (input_key@, output_key@);
        let mut i: usize = 0;
        while i < self.bindings.len() && pair_less(
            &self.bindings[i].input_key,
            &self.bindings[i].output_key,
            input_key,
            output_key,
        )
            invariant
                self.wf(),
                k == (input_key@, output_key@),
                !self@.contains_key(k),
                i <= self.bindings@.len(),
                forall|j: int| 0 <= j < i ==> pair_lt(#[trigger] self.bindings@[j].key(), k),
            decreases self.bindings.len() - i,
        {
            i = i + 1;
        }
        if i < self.bindings.len() {
            proof {
            let b = self.bindings@;
            assert(self.table@.contains_key(b[i as int].key()));
            lemma_pair_lt_total(b[i as int].key(), k);
            assert forall|j: int| i <= j < b.len() implies pair_lt(k, #[trigger] b[j].key()) by {
                if j > i {
                    lemma_pair_lt_transitive(k, b[i as int].key(), b[j].key());
                }
            }
            }
        }
        i
    }

    /// Adds `b`, whose pair is not bound yet.
    fn insert_binding(&mut self, b: Binding)
        requires
            old(self).wf(),
            !old(self)@.contains_key(b.key()),
        ensures
            final(self).wf(),
            final(self)@ == old(self)@.insert(b.key(), b.pipeline_id@),
    {
        let pos = self.insertion_point(&b.input_key, &b.output_key);
        let ghost k = b.key();
        let ghost id = b.pipeline_id@;
        let ghost old_b = self.bindings@;
        let ghost old_t = self.table@;
        self.bindings.insert(pos, b);
        self.table = Ghost(old_t.insert(k, id));
        proof {
            let nb = self.bindings@;
            assert(nb == old_b.insert(pos as int, nb[pos as int]));
            assert forall|i: int|
                #![trigger nb[i]]
                0 <= i < nb.len() implies self.table@.contains_key(nb[i].key())
                && self.table@[nb[i].key()] == nb[i].pipeline_id@ by {
                if i < pos {
                    assert(nb[i] == old_b[i]);
                    assert(old_t.contains_key(old_b[i].key()));
                } else if i > pos {
                    assert(nb[i] == old_b[i - 1]);
                    assert(old_t.contains_key(old_b[i - 1].key()));
                }
            }
            assert forall|p: (Seq<char>, Seq<char>)| #[trigger]
                self.table@.contains_key(p) implies exists|i: int|
                0 <= i < nb.len() && nb[i].key() == p by {
                if p == k {
                    assert(nb[pos as int].key() == p);
                } else {
                    assert(old_t.contains_key(p));
                    let j = choose|j: int| 0 <= j < old_b.len() && old_b[j].key() == p;
                    if j < pos {
                        assert(nb[j].key() == p);
                    } else {
                        assert(nb[j + 1].key() == p);
                    }
                }
            }
            assert forall|i: int, j: int| 0 <= i < j < nb.len() implies pair_lt(
                nb[i].key(),
                nb[j].key(),
            ) by {
                if j < pos {
                    assert(nb[i] == old_b[i] && nb[j] == old_b[j]);
                } else if j == pos {
                    assert(nb[i] == old_b[i]);
                } else if i < pos {
                    assert(nb[i] == old_b[i] && nb[j] == old_b[j - 1]);
                    lemma_pair_lt_transitive(old_b[i].key(), k, old_b[j - 1].key());
                } else if i == pos {
                    assert(nb[j] == old_b[j - 1]);
                } else {
                    assert(nb[i] == old_b[i - 1] && nb[j] == old_b[j - 1]);
                }
            }
        }
    }

    /// Removes the binding at `i` and hands it back.
    fn remove_at(&mut self, i: usize) -> (r: Binding)
        requires
            old(self).wf(),
            i < old(self).bindings@.len(),
        ensures
            final(self).wf(),
            r == old(self).bindings@[i as int],
            old(self)@.contains_key(r.key()),
            old(self)@[r.key()] == r.pipeline_id@,
            final(self)@ == old(self)@.remove(r.key()),
    {
        let ghost old_b = self.bindings@;
        let ghost old_t = self.table@;
        let ghost k = old_b[i as int].key();
        let b = self.bindings.remove(i);
        self.table = Ghost(old_t.remove(k));
        proof {
            let nb = self.bindings@;
            assert(old_t.contains_key(old_b[i as int].key()));
            assert forall|x: int, y: int| 0 <= x < old_b.len() && 0 <= y < old_b.len() && x != y
                implies old_b[x].key() != old_b[y].key() by {
                if x < y {
                    lemma_pair_lt_irreflexive(old_b[x].key());
                } else {
                    lemma_pair_lt_irreflexive(old_b[y].key());
                }
            }
            assert forall|j: int|
                #![trigger nb[j]]
                0 <= j < nb.len() implies self.table@.contains_key(nb[j].key())
                && self.table@[nb[j].key()] == nb[j].pipeline_id@ by {
                if j < i {
                    assert(nb[j] == old_b[j]);
                    assert(old_t.contains_key(old_b[j].key()));
                } else {
                    assert(nb[j] == old_b[j + 1]);
                    assert(old_t.contains_key(old_b[j + 1].key()));
                }
            }
            assert forall|p: (Seq<char>, Seq<char>)| #[trigger]
                self.table@.contains_key(p) implies exists|j: int|
                0 <= j < nb.len() && nb[j].key() == p by {
                assert(old_t.contains_key(p));
                let j = choose|j: int| 0 <= j < old_b.len() && old_b[j].key() == p;
                if j < i {
                    assert(nb[j].key() == p);
                } else {
                    assert(nb[j - 1].key() == p);
                }
            }
            assert forall|x: int, y: int| 0 <= x < y < nb.len() implies pair_lt(
                nb[x].key(),
                nb[y].key(),
            ) by {
                let ox = if x < i { x } else { x + 1 };
                let oy = if y < i { y } else { y + 1 };
                assert(nb[x] == old_b[ox] && nb[y] == old_b[oy]);
            }
        }
        b
    }
}

/// Whether the pair (`a_in`, `a_out`) comes strictly before (`b_in`, `b_out`).
fn pair_less(a_in: &String, a_out: &String, b_in: &String, b_out: &String) -> (r: bool)
    ensures
        r == pair_lt((a_in@, a_out@), (b_in@, b_out@)),
{
    key_less(a_in, b_in) || (*a_in == *b_in && key_less(a_out, b_out))
}


/// What `create` may leave behind, from the bindings `pre`, the pair `k`,
/// the program and the engine's history `log0`: a bound pair is refused with
/// the id of its pipeline, and the engine is not asked anything. Otherwise
/// the engine is asked once to create `program` under a fresh id; where it
/// accepts, that id is bound to the pair and returned, and where it refuses,
/// its reason is returned and the bindings stay as they were. Without asking
/// the engine, `create` may also give up for want of a fresh id, which only
/// happens where some id is in use.
pub open spec fn create_post<V>(
    pre: Bindings,
    k: (Seq<char>, Seq<char>),
    program: Seq<char>,
    r: Result<String, RegistryError>,
    post: Bindings,
    log0: Seq<EngineCall<V>>,
    log1: Seq<EngineCall<V>>,
) -> bool {
    if pre.contains_key(k) {
        post == pre && log1 == log0 && (r matches Err(RegistryError::AlreadyExists(id)) && id@
            == pre[k])
    } else {
        match r {
            Ok(id) => is_pipeline_id(id@) && !id_in_use(pre, id@) && post
                == pre.insert(k, id@) && log1 == log0.push(
                EngineCall::Create { id: id@, program, reply: Seq::empty() },
            ),
            Err(RegistryError::EngineRejected(detail)) => detail@.len() > 0 && post == pre
                && exists|id: Seq<char>|
                is_pipeline_id(id) && !id_in_use(pre, id) && log1
                    == #[trigger] log0.push(EngineCall::Create { id, program, reply: detail@ }),
            Err(RegistryError::NoFreshId) => post == pre && log1 == log0 && exists|p: (
                Seq<char>,
                Seq<char>,
            )| #[trigger] pre.contains_key(p) && pre[p].len() == usize::MAX,
            Err(_) => false,
        }
    }
}

/// The reason that a deletion's result carries, empty for a success.
pub open spec fn verdict_reply(r: Result<(), RegistryError>) -> Seq<char> {
    match r {
        Err(RegistryError::EngineRejected(detail)) => detail@,
        _ => Seq::empty(),
    }
}

/// What `delete` may leave behind: an absent pair is `NotFound`, nothing
/// changes and the engine is not asked anything; a bound pair is removed and
/// the engine is asked once to delete its pipeline, whose answer is the
/// result (the binding is gone even where the engine refuses).
pub open spec fn delete_post<V>(
    pre: Bindings,
    k: (Seq<char>, Seq<char>),
    r: Result<(), RegistryError>,
    post: Bindings,
    log0: Seq<EngineCall<V>>,
    log1: Seq<EngineCall<V>>,
) -> bool {
    if pre.contains_key(k) {
        &&& post == pre.remove(k)
        &&& log1 == log0.push(EngineCall::Delete { id: pre[k], reply: verdict_reply(r) })
        &&& match r {
            Ok(_) => true,
            Err(RegistryError::EngineRejected(detail)) => detail@.len() > 0,
            Err(_) => false,
        }
    } else {
        post == pre && log1 == log0 && r matches Err(RegistryError::NotFound)
    }
}

/// The deletions, all accepted, of the pipelines bound to `input` with the
/// output keys `outs`, in that order.
pub open spec fn accepted_deletes<V>(m: Bindings, input: Seq<char>, outs: Seq<Seq<char>>) -> Seq<
    EngineCall<V>,
> {
    outs.map_values(|o: Seq<char>| EngineCall::Delete { id: m[(input, o)], reply: Seq::empty() })
}

/// What `delete_by_input_key` may leave behind. With `outs` the output keys
/// bound to `input`, in key order, the engine is asked to delete their
/// pipelines in that order. Either it accepts every deletion: all the
/// bindings of `input` are gone and their number is returned. Or it refuses
/// the one of `outs[f]`: the ones before were accepted, no later one is
/// asked, the refused binding and those before it are gone, and the refusal
/// is returned.
pub open spec fn delete_input_post<V>(
    pre: Bindings,
    input: Seq<char>,
    r: Result<usize, RegistryError>,
    post: Bindings,
    log0: Seq<EngineCall<V>>,
    log1: Seq<EngineCall<V>>,
) -> bool {
    exists|outs: Seq<Seq<char>>|
        #[trigger] is_dispatch_order(pre, input, outs) && match r {
            Ok(n) => n == outs.len() && n == bound_outputs(pre, input).len() && post
                == without_input(pre, input) && log1 == log0 + accepted_deletes(pre, input, outs),
            Err(e) => exists|f: int|
                0 <= f < outs.len() && (e matches RegistryError::EngineRejected(detail)
                    && detail@.len() > 0 && log1 == log0 + accepted_deletes(
                    pre,
                    input,
                    outs.take(f),
                ).push(EngineCall::Delete { id: pre[(input, outs[f])], reply: detail@ }))
                    && post == #[trigger] without_outputs_through(pre, input, outs[f]),
        }
}

/// The operations that a receive of (`timestamp`, `values`) on `input` asks
/// of the engine, given what it returned under each output key: one per
/// entry, to the pipeline bound to that key.
pub open spec fn receive_calls<V>(
    m: Bindings,
    input: Seq<char>,
    timestamp: u64,
    values: Seq<V>,
    r: Seq<(String, Vec<RtBotMessage<V>>)>,
) -> Seq<EngineCall<V>> {
    r.map_values(
        |e: (String, Vec<RtBotMessage<V>>)|
            EngineCall::Receive { id: m[(input, e.0@)], timestamp, values, emitted: e.1@ },
    )
}

/// What `receive` returns and asks: one entry per output key bound to
/// `input`, in key order, each holding what the engine returned when it was
/// sent the data point under that binding's pipeline id, in the same order.
pub open spec fn receive_post<V>(
    m: Bindings,
    input: Seq<char>,
    timestamp: u64,
    values: Seq<V>,
    r: Seq<(String, Vec<RtBotMessage<V>>)>,
    log0: Seq<EngineCall<V>>,
    log1: Seq<EngineCall<V>>,
) -> bool {
    &&& is_dispatch_order(m, input, r.map_values(|e: (String, Vec<RtBotMessage<V>>)| e.0@))
    &&& log1 == log0 + receive_calls(m, input, timestamp, values, r)
}

/// Reads an engine's answer: the empty string is success, anything else is
/// the reason of a refusal.
pub fn engine_verdict(reply: &String) -> (r: Result<(), RegistryError>)
    ensures
        r is Ok <==> reply@.len() == 0,
        r is Err ==> (r matches Err(RegistryError::EngineRejected(detail)) && detail@ == reply@),
{
    if reply.as_str().is_empty() {
        Ok(())
    } else {
        Err(RegistryError::EngineRejected(reply.clone()))
    }
}

impl PipelinesRegistry {
    /// Whether a binding uses the pipeline id `id`.
    fn uses_id(&self, id: &String) -> (r: bool)
        requires
            self.wf(),
        ensures
            r == id_in_use(self@, id@),
    {
        let mut i: usize = 0;
        while i < self.bindings.len()
            invariant
                self.wf(),
                i <= self.bindings@.len(),
                forall|j: int| 0 <= j < i ==> #[trigger] self.bindings@[j].pipeline_id@ != id@,
            decreases self.bindings.len() - i,
        {
            if self.bindings[i].pipeline_id == *id {
                proof {
                    let b = self.bindings@[i as int];
                    assert(self.table@.contains_key(b.key()));
                }
                return true;
            }
            i = i + 1;
        }
        proof {
            assert forall|p: (Seq<char>, Seq<char>)| #[trigger]
                self.table@.contains_key(p) implies self.table@[p] != id@ by {
                let j = choose|j: int|
                    0 <= j < self.bindings@.len() && self.bindings@[j].key() == p;
                assert(self.bindings@[j].pipeline_id@ != id@);
            }
        }
        false
    }

    /// Draws random ids of `PIPELINE_ID_LEN` characters until one is not in
    /// use, for a bounded number of tries; then draws one longer than every
    /// id in use. Fails only where an id in use is as long as a length can be.
    fn fresh_pipeline_id(&self) -> (r: Option<String>)
        requires
            self.wf(),
        ensures
            r matches Some(id) ==> is_pipeline_id(id@) && !id_in_use(self@, id@),
            r is None ==> exists|p: (Seq<char>, Seq<char>)|
                #[trigger] self@.contains_key(p) && self@[p].len() == usize::MAX,
    {
        let mut attempt: usize = 0;
        while attempt < ID_ATTEMPTS
            invariant
                self.wf(),
            decreases ID_ATTEMPTS - attempt,
        {
            let id = random_id(PIPELINE_ID_LEN);
            if !self.uses_id(&id) {
                return Some(id);
            }
            attempt = attempt + 1;
        }
        let mut longest: usize = 0;
        let mut i: usize = 0;
        while i < self.bindings.len()
            invariant
                self.wf(),
                i <= self.bindings@.len(),
                forall|j: int| 0 <= j < i ==> (#[trigger] self.bindings@[j]).pipeline_id@.len() <= longest,
                longest > 0 ==> exists|j: int|
                    0 <= j < i && (#[trigger] self.bindings@[j]).pipeline_id@.len() == longest,
            decreases self.bindings.len() - i,
        {
            let n = self.bindings[i].pipeline_id.as_str().unicode_len();
            if n > longest {
                longest = n;
            }
            i = i + 1;
        }
        match longest.checked_add(1) {
            None => {
                proof {
                    let j = choose|j: int|
                        0 <= j < self.bindings@.len() && (#[trigger] self.bindings@[j]).pipeline_id@.len()
                            == longest;
                    let b = self.bindings@[j];
                    assert(self@.contains_key(b.key()));
                }
                None
            },
            Some(l) => {
                let len = if l < PIPELINE_ID_LEN {
                    PIPELINE_ID_LEN
                } else {
                    l
                };
                let id = random_id(len);
                proof {
                    if id_in_use(self@, id@) {
                        let p = choose|p: (Seq<char>, Seq<char>)| #[trigger]
                            self@.contains_key(p) && self@[p] == id@;
                        let j = choose|j: int|
                            0 <= j < self.bindings@.len() && self.bindings@[j].key() == p;
                        assert(self.bindings@[j].pipeline_id@.len() <= longest);
                    }
                }
                Some(id)
            },
        }
    }

    /// Creates a pipeline from `program` that connects `input_key` to
    /// `output_key`, under a fresh id, and returns that id.
    pub fn create<E: PipelineEngine>(
        &mut self,
        engine: &mut E,
        program: &String,
        input_key: &String,
        output_key: &String,
    ) -> (r: Result<String, RegistryError>)
        requires
            old(self).wf(),
        ensures
            final(self).wf(),
            create_post(
                old(self)@,
                (input_key@, output_key@),
                program@,
                r,
                final(self)@,
                old(engine).calls(),
                final(engine).calls(),
            ),
    {
        match self.position(input_key, output_key) {
            Some(i) => {
                return Err(RegistryError::AlreadyExists(self.bindings[i].pipeline_id.clone()));
            },
            None => {},
        }
        let id = match self.fresh_pipeline_id() {
            Some(id) => id,
            None => {
                return Err(RegistryError::NoFreshId);
            },
        };
        let reply = engine.create_pipeline(&id, program);
        match engine_verdict(&reply) {
            Err(e) => {
                proof {
                    let c = EngineCall::Create { id: id@, program: program@, reply: reply@ };
                    assert(is_pipeline_id(id@) && !id_in_use(old(self)@, id@)
                        && final(engine).calls() == old(engine).calls().push(c));
                }
                Err(e)
            },
            Ok(()) => {
                let b = Binding {
                    input_key: input_key.clone(),
                    output_key: output_key.clone(),
                    pipeline_id: id.clone(),
                };
                self.insert_binding(b);
                assert(reply@ =~= Seq::<char>::empty());
                Ok(id)
            },
        }
    }

    /// Removes the binding of `input_key` to `output_key` and tears its
    /// pipeline down. The binding is gone even where the engine refuses.
    pub fn delete<E: PipelineEngine>(
        &mut self,
        engine: &mut E,
        input_key: &String,
        output_key: &String,
    ) -> (r: Result<(), RegistryError>)
        requires
            old(self).wf(),
        ensures
            final(self).wf(),
            delete_post(
                old(self)@,
                (input_key@, output_key@),
                r,
                final(self)@,
                old(engine).calls(),
                final(engine).calls(),
            ),
    {
        match self.position(input_key, output_key) {
            None => Err(RegistryError::NotFound),
            Some(i) => {
                let b = self.remove_at(i);
                let reply = engine.delete_pipeline(&b.pipeline_id);
                let r = engine_verdict(&reply);
                proof {
                    if r is Ok {
                        assert(reply@ =~= Seq::<char>::empty());
                    }
                }
                r
            },
        }
    }

    /// The id of the pipeline that connects `input_key` to `output_key`, if
    /// there is one.
    pub fn pipeline_id(&self, input_key: &String, output_key: &String) -> (r: Option<String>)
        requires
            self.wf(),
        ensures
            match r {
                Some(id) => self@.contains_key((input_key@, output_key@)) && id@ == self@[(
                    input_key@,
                    output_key@,
                )],
                None => !self@.contains_key((input_key@, output_key@)),
            },
    {
        match self.position(input_key, output_key) {
            Some(i) => Some(self.bindings[i].pipeline_id.clone()),
            None => None,
        }
    }

    /// The bindings of `input_key`, in the order of their output keys.
    pub fn dispatch_plan(&self, input_key: &String) -> (r: Vec<Binding>)
        requires
            self.wf(),
        ensures
            is_dispatch_order(self@, input_key@, r@.map_values(|b: Binding| b.output_key@)),
            forall|i: int|
                #![trigger r@[i]]
                0 <= i < r@.len() ==> r@[i].input_key@ == input_key@ && self@.contains_key(
                    r@[i].key(),
                ) && self@[r@[i].key()] == r@[i].pipeline_id@,
    {
        let mut plan: Vec<Binding> = Vec::new();
        let ghost mut idx: Seq<int> = Seq::empty();
        let mut i: usize = 0;
        while i < self.bindings.len()
            invariant
                self.wf(),
                i <= self.bindings@.len(),
                idx.len() == plan@.len(),
                forall|t: int|
                    #![trigger idx[t]]
                    0 <= t < idx.len() ==> 0 <= idx[t] < i && self.bindings@[idx[t]].key()
                        == plan@[t].key() && self.bindings@[idx[t]].pipeline_id@
                        == plan@[t].pipeline_id@ && plan@[t].input_key@ == input_key@,
                forall|t: int, u: int| 0 <= t < u < idx.len() ==> idx[t] < idx[u],
                forall|j: int|
                    0 <= j < i && #[trigger] self.bindings@[j].input_key@ == input_key@ ==> exists|
                        t: int,
                    | 0 <= t < idx.len() && idx[t] == j,
            decreases self.bindings.len() - i,
        {
            if self.bindings[i].input_key == *input_key {
                plan.push(self.bindings[i].duplicate());
                proof {
                    let old_idx = idx;
                    idx = idx.push(i as int);
                    assert forall|j: int|
                        0 <= j < i + 1 && #[trigger] self.bindings@[j].input_key@
                            == input_key@ implies exists|t: int| 0 <= t < idx.len() && idx[t] == j by {
                        if j == i {
                            assert(idx[idx.len() - 1] == j);
                        } else {
                            let t = choose|t: int| 0 <= t < old_idx.len() && old_idx[t] == j;
                            assert(idx[t] == j);
                        }
                    }
                }
            }
            i = i + 1;
        }
        proof {
            let b = self.bindings@;
            let outs = plan@.map_values(|x: Binding| x.output_key@);
            assert forall|t: int, u: int| 0 <= t < u < outs.len() implies key_lt(
                outs[t],
                outs[u],
            ) by {
                assert(pair_lt(b[idx[t]].key(), b[idx[u]].key()));
                lemma_key_lt_irreflexive(input_key@);
            }
            assert forall|t: int| 0 <= t < outs.len() implies self@.contains_key(
                (input_key@, #[trigger] outs[t]),
            ) by {
                assert(b[idx[t]].key() == (input_key@, outs[t]));
            }
            assert forall|o: Seq<char>| #[trigger]
                self@.contains_key((input_key@, o)) implies outs.contains(o) by {
                let j = choose|j: int| 0 <= j < b.len() && b[j].key() == (input_key@, o);
                assert(b[j].input_key@ == input_key@);
                let t = choose|t: int| 0 <= t < idx.len() && idx[t] == j;
                assert(outs[t] == o);
            }
            assert forall|t: int|
                #![trigger plan@[t]]
                0 <= t < plan@.len() implies plan@[t].input_key@ == input_key@
                && self@.contains_key(plan@[t].key()) && self@[plan@[t].key()]
                == plan@[t].pipeline_id@ by {
                assert(b[idx[t]].key() == plan@[t].key());
            }
        }
        plan
    }

    /// Sends the data point (`timestamp`, `values`) to every pipeline bound to
    /// `input_key`, one after the other in the order of the output keys, and
    /// returns what each emitted, under its output key, in that order.
    pub fn receive<E: PipelineEngine>(
        &self,
        engine: &mut E,
        input_key: &String,
        timestamp: u64,
        values: Vec<E::Value>,
    ) -> (r: Vec<(String, Vec<RtBotMessage<E::Value>>)>)
        requires
            self.wf(),
        ensures
            receive_post(
                self@,
                input_key@,
                timestamp,
                values@,
                r@,
                old(engine).calls(),
                final(engine).calls(),
            ),
            bound_outputs(self@, input_key@).is_empty() ==> r@.len() == 0,
    {
        let plan = self.dispatch_plan(input_key);
        let ghost outs = plan@.map_values(|b: Binding| b.output_key@);
        let ghost log0 = engine.calls();
        let mut result: Vec<(String, Vec<RtBotMessage<E::Value>>)> = Vec::new();
        let mut i: usize = 0;
        assert(receive_calls(self@, input_key@, timestamp, values@, result@) =~= Seq::<
            EngineCall<E::Value>,
        >::empty());
        assert(log0 + Seq::<EngineCall<E::Value>>::empty() =~= log0);
        while i < plan.len()
            invariant
                self.wf(),
                i <= plan@.len(),
                outs == plan@.map_values(|b: Binding| b.output_key@),
                forall|t: int|
                    #![trigger plan@[t]]
                    0 <= t < plan@.len() ==> plan@[t].input_key@ == input_key@
                        && self@.contains_key(plan@[t].key()) && self@[plan@[t].key()]
                        == plan@[t].pipeline_id@,
                log0 == old(engine).calls(),
                result@.len() == i,
                forall|t: int| 0 <= t < i ==> (#[trigger] result@[t]).0@ == outs[t],
                engine.calls() == log0 + receive_calls(self@, input_key@, timestamp, values@, result@),
            decreases plan.len() - i,
        {
            let message = RtBotMessage { timestamp, values: copy_values(&values) };
            let ghost before = engine.calls();
            let ghost r0 = result@;
            let emitted = engine.receive_message_in_pipeline(&plan[i].pipeline_id, message);
            result.push((plan[i].output_key.clone(), emitted));
            proof {
                let e = result@[i as int];
                assert(plan@[i as int].key() == (input_key@, e.0@));
                assert(receive_calls(self@, input_key@, timestamp, values@, result@) =~= receive_calls(
                    self@,
                    input_key@,
                    timestamp,
                    values@,
                    r0,
                ).push(
                    EngineCall::Receive {
                        id: plan@[i as int].pipeline_id@,
                        timestamp,
                        values: values@,
                        emitted: e.1@,
                    },
                ));
                assert(engine.calls() =~= log0 + receive_calls(
                    self@,
                    input_key@,
                    timestamp,
                    values@,
                    result@,
                ));
            }
            i = i + 1;
        }
        proof {
            let got = result@.map_values(|e: (String, Vec<RtBotMessage<E::Value>>)| e.0@);
            assert(got =~= outs);
            if bound_outputs(self@, input_key@).is_empty() && result@.len() > 0 {
                assert(bound_outputs(self@, input_key@).contains(outs[0]));
            }
        }
        result
    }

    /// Deletes every binding of `input_key`, in the order of the output keys,
    /// and returns how many there were. Stops at the first refusal of the
    /// engine and returns it; the bindings deleted until then, the refused one
    /// included, stay deleted.
    pub fn delete_by_input_key<E: PipelineEngine>(&mut self, engine: &mut E, input_key: &String) -> (r: Result<usize, RegistryError>)
        requires
            old(self).wf(),
        ensures
            final(self).wf(),
            delete_input_post(
                old(self)@,
                input_key@,
                r,
                final(self)@,
                old(engine).calls(),
                final(engine).calls(),
            ),
    {
        let plan = self.dispatch_plan(input_key);
        let ghost outs = plan@.map_values(|b: Binding| b.output_key@);
        let ghost m0 = self@;
        let ghost log0 = engine.calls();
        let mut count: usize = 0;
        proof {
            assert(accepted_deletes::<E::Value>(m0, input_key@, outs.take(0)) =~= Seq::empty());
            assert(log0 + Seq::<EngineCall<E::Value>>::empty() =~= log0);
        }
        while count < plan.len()
            invariant
                self.wf(),
                log0 == old(engine).calls(),
                engine.calls() == log0 + accepted_deletes(m0, input_key@, outs.take(count as int)),
                count <= plan@.len(),
                outs == plan@.map_values(|b: Binding| b.output_key@),
                is_dispatch_order(m0, input_key@, outs),
                m0 == old(self)@,
                self@ == Map::new(
                    |p: (Seq<char>, Seq<char>)|
                        m0.contains_key(p) && !(p.0 == input_key@ && outs.take(count as int).contains(p.1)),
                    |p| m0[p],
                ),
            decreases plan.len() - count,
        {
            let ghost pre = self@;
            let ghost o = outs[count as int];
            proof {
                assert(o == plan@[count as int].output_key@);
                assert(m0.contains_key((input_key@, o)));
                if outs.take(count as int).contains(o) {
                    let t = choose|t: int| 0 <= t < count && outs.take(count as int)[t] == o;
                    assert(key_lt(outs[t], outs[count as int]));
                    lemma_key_lt_irreflexive(o);
                }
                assert(pre.contains_key((input_key@, o)));
                assert(pre[(input_key@, o)] == m0[(input_key@, o)]);
            }
            let ghost before = engine.calls();
            let res = self.delete(engine, input_key, &plan[count].output_key);
            let ghost del = EngineCall::Delete { id: m0[(input_key@, o)], reply: verdict_reply(res) };
            proof {
                let acc0 = accepted_deletes::<E::Value>(m0, input_key@, outs.take(count as int));
                assert(engine.calls() == log0 + acc0 + seq![del]);
                assert(engine.calls() =~= log0 + acc0.push(del));
                let tk0 = outs.take(count as int);
                let tk1 = outs.take(count + 1);
                assert(tk1 =~= tk0.push(o));
                assert forall|x: Seq<char>| tk1.contains(x) <==> (tk0.contains(x) || x == o) by {
                    if tk1.contains(x) {
                        let u = choose|u: int| 0 <= u < tk1.len() && #[trigger] tk1[u] == x;
                        if u < count {
                            assert(tk0[u] == x);
                        }
                    }
                    if tk0.contains(x) {
                        let u = choose|u: int| 0 <= u < tk0.len() && #[trigger] tk0[u] == x;
                        assert(tk1[u] == x);
                    }
                    if x == o {
                        assert(tk1[count as int] == x);
                    }
                }
                assert(self@ =~= Map::new(
                    |p: (Seq<char>, Seq<char>)|
                        m0.contains_key(p) && !(p.0 == input_key@ && outs.take(count + 1).contains(p.1)),
                    |p| m0[p],
                ));
            }
            match res {
                Err(e) => {
                    proof {
                        assert(m0.contains_key((input_key@, o)));
                        assert(self@ =~= without_outputs_through(m0, input_key@, o)) by {
                            assert forall|p: (Seq<char>, Seq<char>)| m0.contains_key(p) && p.0 == input_key@
                                implies (outs.take(count + 1).contains(p.1) <==> (key_lt(p.1, o) || p.1 == o)) by {
                                assert(outs.contains(p.1));
                                let t = choose|t: int| 0 <= t < outs.len() && outs[t] == p.1;
                                if t < count {
                                    assert(outs.take(count + 1)[t] == p.1);
                                } else if t > count {
                                    lemma_key_lt_irreflexive(o);
                                    if key_lt(p.1, o) {
                                        lemma_key_lt_transitive(o, p.1, o);
                                    }
                                    if outs.take(count + 1).contains(p.1) {
                                        let tk = outs.take(count + 1);
                                        let u = choose|u: int| 0 <= u < tk.len() && #[trigger] tk[u] == p.1;
                                        if u < t {
                                            lemma_key_lt_irreflexive(p.1);
                                        }
                                    }
                                } else {
                                    assert(outs.take(count + 1)[t] == p.1);
                                }
                            }
                        }
                        let f = count as int;
                        assert(outs.take(f) == outs.take(count as int));
                        assert(without_outputs_through(m0, input_key@, outs[f]) == self@);
                        assert(is_dispatch_order(m0, input_key@, outs));
                    }
                    return Err(e);
                },
                Ok(()) => {
                    proof {
                        let acc1 = accepted_deletes::<E::Value>(m0, input_key@, outs.take(count + 1));
                        let acc0 = accepted_deletes::<E::Value>(m0, input_key@, outs.take(count as int));
                        assert(verdict_reply(res) =~= Seq::<char>::empty());
                        assert(acc1 =~= acc0.push(del));
                    }
                },
            }
            count = count + 1;
        }
        proof {
            assert(outs.take(count as int) =~= outs);
            assert(self@ =~= without_input(m0, input_key@));
            assert(is_dispatch_order(m0, input_key@, outs));
            assert(outs.no_duplicates()) by {
                assert forall|t: int, u: int| 0 <= t < outs.len() && 0 <= u < outs.len() && t != u
                    implies outs[t] != outs[u] by {
                    if t < u {
                        lemma_key_lt_irreflexive(outs[t]);
                    } else {
                        lemma_key_lt_irreflexive(outs[u]);
                    }
                }
            }
            outs.unique_seq_to_set();
            assert(outs.to_set() =~= bound_outputs(m0, input_key@));
        }
        Ok(count)
    }
}

/// A second `create` of a pair that the first bound, with nothing between
/// them, is refused with the id that the first returned, changes nothing and
/// asks nothing of the engine.
pub proof fn law_create_twice<V>(
    m0: Bindings,
    k: (Seq<char>, Seq<char>),
    program1: Seq<char>,
    program2: Seq<char>,
    r1: Result<String, RegistryError>,
    m1: Bindings,
    r2: Result<String, RegistryError>,
    m2: Bindings,
    log0: Seq<EngineCall<V>>,
    log1: Seq<EngineCall<V>>,
    log2: Seq<EngineCall<V>>,
)
    requires
        create_post(m0, k, program1, r1, m1, log0, log1),
        r1 is Ok,
        create_post(m1, k, program2, r2, m2, log1, log2),
    ensures
        r2 matches Err(RegistryError::AlreadyExists(id)) && id@ == r1->Ok_0@,
        m2 == m1,
        m1[k] == r1->Ok_0@,
        log2 == log1,
{
}

/// Deleting a pair that is not bound is `NotFound`, changes nothing and asks
/// nothing of the engine.
pub proof fn law_delete_absent<V>(
    m0: Bindings,
    k: (Seq<char>, Seq<char>),
    r: Result<(), RegistryError>,
    m1: Bindings,
    log0: Seq<EngineCall<V>>,
    log1: Seq<EngineCall<V>>,
)
    requires
        !m0.contains_key(k),
        delete_post(m0, k, r, m1, log0, log1),
    ensures
        r matches Err(RegistryError::NotFound),
        m1 == m0,
        log1 == log0,
{
}

/// A receive on an input key with no bindings yields nothing and asks
/// nothing of the engine.
pub proof fn law_receive_unbound<V>(
    m: Bindings,
    input: Seq<char>,
    timestamp: u64,
    values: Seq<V>,
    r: Seq<(String, Vec<RtBotMessage<V>>)>,
    log0: Seq<EngineCall<V>>,
    log1: Seq<EngineCall<V>>,
)
    requires
        bound_outputs(m, input).is_empty(),
        receive_post(m, input, timestamp, values, r, log0, log1),
    ensures
        r.len() == 0,
        log1 == log0,
{
    let outs = r.map_values(|e: (String, Vec<RtBotMessage<V>>)| e.0@);
    if outs.len() > 0 {
        assert(bound_outputs(m, input).contains(outs[0]));
    }
    assert(log1 =~= log0);
}

/// On a new registry, `create` with an engine that accepts the program
/// binds the pair to the id that it gave the engine, and returns that id.
pub proof fn law_create_on_new<V>(
    k: (Seq<char>, Seq<char>),
    program: Seq<char>,
    r: Result<String, RegistryError>,
    m1: Bindings,
    log0: Seq<EngineCall<V>>,
    log1: Seq<EngineCall<V>>,
)
    requires
        create_post(Bindings::empty(), k, program, r, m1, log0, log1),
        forall|id: Seq<char>, reply: Seq<char>|
            log1 == #[trigger] log0.push(EngineCall::Create { id, program, reply }) ==> reply.len()
                == 0,
    ensures
        r matches Ok(id) && id@.len() > 0 && m1 == Bindings::empty().insert(k, id@) && log1
            == log0.push(EngineCall::Create { id: id@, program, reply: Seq::empty() }),
{
}

/// Creating a binding and then deleting it leaves the bindings as they were
/// before. Receives in between take the registry by shared reference and
/// cannot change it.
pub proof fn law_create_then_delete<V>(
    m0: Bindings,
    k: (Seq<char>, Seq<char>),
    program: Seq<char>,
    r1: Result<String, RegistryError>,
    m1: Bindings,
    r2: Result<(), RegistryError>,
    m2: Bindings,
    log0: Seq<EngineCall<V>>,
    log1: Seq<EngineCall<V>>,
    log2: Seq<EngineCall<V>>,
)
    requires
        create_post(m0, k, program, r1, m1, log0, log1),
        r1 is Ok,
        delete_post(m1, k, r2, m2, log1, log2),
    ensures
        m2 == m0,
        log2 == log0.push(EngineCall::Create { id: r1->Ok_0@, program, reply: Seq::empty() }).push(
            EngineCall::Delete { id: r1->Ok_0@, reply: verdict_reply(r2) },
        ),
{
    assert(m2 =~= m0);
}

} // verus!
