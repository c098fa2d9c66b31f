//! What becomes of a pipeline's results: for each output key whose pipeline
//! emitted something, the first value of the first result is stored under
//! that key and announced on the key's notification channel.

use vstd::prelude::*;
use vstd::string::StringExecFns;
use crate::engine::RtBotMessage;
use crate::keys::key_lt;

verus! {

/// One sample to store under an output key.
pub struct OutputWrite<V> {
    pub output_key: String,
    pub timestamp: u64,
    pub value: V,
}

/// The sample that the results `e.1`, emitted for the output key `e.0`, ask
/// to store: the first value of the first result, if there is one.
pub open spec fn write_of<V>(e: (String, Vec<RtBotMessage<V>>)) -> Option<OutputWrite<V>> {
    if e.1@.len() > 0 && e.1@[0].values@.len() > 0 {
        Some(OutputWrite { output_key: e.0, timestamp: e.1@[0].timestamp, value: e.1@[0].values@[0] })
    } else {
        None
    }
}

/// The samples that a sequence of results asks to store, in order.
pub open spec fn writes_of<V>(s: Seq<(String, Vec<RtBotMessage<V>>)>) -> Seq<OutputWrite<V>>
    decreases s.len(),
{
    if s.len() == 0 {
        Seq::empty()
    } else {
        let w = writes_of(s.drop_last());
        match write_of(s.last()) {
            Some(x) => w.push(x),
            None => w,
        }
    }
}

/// Each sample to store is under the output key of one of the results.
pub proof fn lemma_writes_keys<V>(s: Seq<(String, Vec<RtBotMessage<V>>)>)
    ensures
        forall|i: int|
            0 <= i < writes_of(s).len() ==> exists|j: int|
                0 <= j < s.len() && (#[trigger] writes_of(s)[i]).output_key == s[j].0,
    decreases s.len(),
{
    if s.len() > 0 {
        let p = s.drop_last();
        lemma_writes_keys(p);
        assert forall|i: int| 0 <= i < writes_of(s).len() implies exists|j: int|
            0 <= j < s.len() && (#[trigger] writes_of(s)[i]).output_key == s[j].0 by {
            if i < writes_of(p).len() {
                let j = choose|j: int| 0 <= j < p.len() && writes_of(p)[i].output_key == p[j].0;
                assert(s[j] == p[j]);
            } else {
                assert(writes_of(s)[i].output_key == s[s.len() - 1].0);
            }
        }
    }
}

/// Where the results come in strictly increasing order of output keys, so do
/// the samples to store.
pub proof fn lemma_writes_order<V>(s: Seq<(String, Vec<RtBotMessage<V>>)>)
    requires
        forall|i: int, j: int| 0 <= i < j < s.len() ==> key_lt(s[i].0@, s[j].0@),
    ensures
        forall|i: int, j: int|
            0 <= i < j < writes_of(s).len() ==> key_lt(
                writes_of(s)[i].output_key@,
                writes_of(s)[j].output_key@,
            ),
    decreases s.len(),
{
    if s.len() > 0 {
        let p = s.drop_last();
        lemma_writes_order(p);
        lemma_writes_keys(p);
        assert forall|i: int, j: int| 0 <= i < j < writes_of(s).len() implies key_lt(
            writes_of(s)[i].output_key@,
            writes_of(s)[j].output_key@,
        ) by {
            if j >= writes_of(p).len() {
                let k = choose|k: int| 0 <= k < p.len() && writes_of(p)[i].output_key == p[k].0;
                assert(s[k] == p[k]);
                assert(writes_of(s)[j].output_key == s[s.len() - 1].0);
            }
        }
    }
}

/// The samples that `results` asks to store, in the order of the results.
pub fn output_writes<V>(results: Vec<(String, Vec<RtBotMessage<V>>)>) -> (r: Vec<OutputWrite<V>>)
    ensures
        r@ == writes_of(results@),
{
    let ghost all = results@;
    let mut rest = results;
    let mut out: Vec<OutputWrite<V>> = Vec::new();
    let ghost mut done: int = 0;
    proof {
        assert(all.skip(0) =~= all);
        assert(all.take(0) =~= Seq::<(String, Vec<RtBotMessage<V>>)>::empty());
    }
    while rest.len() > 0
        invariant
            0 <= done <= all.len(),
            rest@ == all.skip(done),
            out@ == writes_of(all.take(done)),
        decreases rest.len(),
    {
        let ghost before = rest@;
        let (key, mut messages) = rest.remove(0);
        proof {
            assert(before[0] == all[done]);
            assert(rest@ =~= all.skip(done + 1));
            assert(all.take(done + 1).drop_last() =~= all.take(done));
            assert(all.take(done + 1).last() == all[done]);
        }
        if messages.len() > 0 {
            let mut first = messages.remove(0);
            if first.values.len() > 0 {
                let value = first.values.remove(0);
                out.push(OutputWrite { output_key: key, timestamp: first.timestamp, value });
            }
        }
        proof {
            done = done + 1;
        }
    }
    proof {
        assert(all.take(done) =~= all);
    }
    out
}

/// The notification channel of an output key: the key followed by `:ps`.
pub fn notification_channel(output_key: &String) -> (r: String)
    ensures
        r@ == output_key@ + ":ps"@,
{
    output_key.clone().concat(":ps")
}

} // verus!
