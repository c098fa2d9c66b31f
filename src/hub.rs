//! The fan-out hub: the set of connected live consumers, and the delivery of
//! every broadcast frame to each of them. A consumer is reached through the
//! sending half of its mailbox; the task that drains the mailbox into the
//! consumer's transport ends when a write fails, which closes the mailbox. A
//! broadcast notices closed mailboxes and drops their clients.

use vstd::prelude::*;
use tokio::sync::mpsc::UnboundedSender;
use crate::ids::{is_generated_id, random_id};

verus! {

#[verifier::external_type_specification]
#[verifier::external_body]
#[verifier::reject_recursive_types(T)]
pub struct ExUnboundedSender<T>(UnboundedSender<T>);

/// The length of a client id.
pub const CLIENT_ID_LEN: usize = 10;

/// How many random ids `connect` draws, at most, to find one not in use.
pub const CLIENT_ID_ATTEMPTS: usize = 8;

/// A message for a connected consumer.
pub enum ClientMessage {
    /// A broadcast frame: a timestamp and the values, as text.
    Data { timestamp: u64, values: Vec<String> },
}

/// Relies on tokio's UnboundedSender::send: it never waits, and where the
/// receiving half is closed it fails and hands the message back.
#[verifier::external_body]
fn mailbox_send(sender: &UnboundedSender<ClientMessage>, msg: ClientMessage) -> (r: Result<
    (),
    ClientMessage,
>)
    ensures
        r matches Err(back) ==> back == msg,
{
    sender.send(msg).map_err(|e| e.0)
}

impl View for ClientMessage {
    type V = FrameView;

    /// The timestamp and the values.
    open spec fn view(&self) -> FrameView {
        match self {
            ClientMessage::Data { timestamp, values } => (
                *timestamp,
                values@.map_values(|v: String| v@),
            ),
        }
    }
}

impl ClientMessage {
    /// A copy of this message.
    pub fn duplicate(&self) -> (r: ClientMessage)
        ensures
            r@ == self@,
    {
        match self {
            ClientMessage::Data { timestamp, values } => {
                let mut copy: Vec<String> = Vec::new();
                let mut i: usize = 0;
                while i < values.len()
                    invariant
                        i <= values@.len(),
                        copy@.len() == i,
                        forall|t: int| 0 <= t < i ==> (#[trigger] copy@[t])@ == values@[t]@,
                    decreases values.len() - i,
                {
                    copy.push(values[i].clone());
                    i = i + 1;
                }
                let r = ClientMessage::Data { timestamp: *timestamp, values: copy };
                proof {
                    assert(copy@.map_values(|v: String| v@) =~= values@.map_values(|v: String| v@));
                }
                r
            },
        }
    }
}

/// A frame as the contracts see it: its timestamp and its values.
pub type FrameView = (u64, Seq<Seq<char>>);

/// One offer of a frame to a client's mailbox, and whether it was accepted.
pub type Offer = (FrameView, bool);

/// A client as the contracts see it: its id and the offers made to it.
pub type ClientRecord = (Seq<char>, Seq<Offer>);

/// The sending half of one consumer's mailbox, with the history of the
/// messages offered to it.
pub struct ClientHandle {
    sender: UnboundedSender<ClientMessage>,
    offered: Ghost<Seq<Offer>>,
}

impl ClientHandle {
    /// The messages offered through this handle, oldest first, each with
    /// whether the mailbox took it.
    pub closed spec fn offers(&self) -> Seq<Offer> {
        self.offered@
    }

    pub fn new(sender: UnboundedSender<ClientMessage>) -> (r: Self)
        ensures
            r.offers() == Seq::<Offer>::empty(),
    {
        ClientHandle { sender, offered: Ghost(Seq::empty()) }
    }

    /// Queues `msg` for the consumer. Fails, handing `msg` back, where the
    /// consumer's task has ended.
    pub fn send(&mut self, msg: ClientMessage) -> (r: Result<(), ClientMessage>)
        ensures
            r matches Err(back) ==> back == msg,
            final(self).offers() == old(self).offers().push((msg@, r is Ok)),
    {
        let ghost m = msg@;
        let r = mailbox_send(&self.sender, msg);
        self.offered = Ghost(self.offered@.push((m, r is Ok)));
        r
    }
}

/// The clients of `s` that take the offer of `m`, where `oks` says which do,
/// each with that offer added to its history.
pub open spec fn survivors(s: Seq<ClientRecord>, m: FrameView, oks: Seq<bool>) -> Seq<ClientRecord>
    decreases s.len(),
{
    if s.len() == 0 || oks.len() == 0 {
        Seq::empty()
    } else {
        let rest = survivors(s.drop_last(), m, oks.drop_last());
        if oks.last() {
            rest.push((s.last().0, s.last().1.push((m, true))))
        } else {
            rest
        }
    }
}

/// The clients of `s` that refuse the offer of `m`, where `oks` says which
/// take it, each with that offer added to its history.
pub open spec fn casualties(s: Seq<ClientRecord>, m: FrameView, oks: Seq<bool>) -> Seq<
    ClientRecord,
>
    decreases s.len(),
{
    if s.len() == 0 || oks.len() == 0 {
        Seq::empty()
    } else {
        let rest = casualties(s.drop_last(), m, oks.drop_last());
        if !oks.last() {
            rest.push((s.last().0, s.last().1.push((m, false))))
        } else {
            rest
        }
    }
}

/// The ids of some client records.
pub open spec fn record_ids(s: Seq<ClientRecord>) -> Seq<Seq<char>> {
    s.map_values(|c: ClientRecord| c.0)
}

/// The survivors of an offer keep their order, and come from `s`.
pub proof fn lemma_survivors_ids(s: Seq<ClientRecord>, m: FrameView, oks: Seq<bool>)
    requires
        record_ids(s).no_duplicates(),
        oks.len() == s.len(),
    ensures
        record_ids(survivors(s, m, oks)).no_duplicates(),
        forall|x: Seq<char>|
            record_ids(survivors(s, m, oks)).contains(x) ==> record_ids(s).contains(x),
    decreases s.len(),
{
    if s.len() > 0 {
        let p = s.drop_last();
        let q = oks.drop_last();
        assert(record_ids(p) =~= record_ids(s).drop_last());
        assert forall|a: int, b: int| 0 <= a < record_ids(p).len() && 0 <= b < record_ids(p).len() && a != b
            implies record_ids(p)[a] != record_ids(p)[b] by {
            assert(record_ids(p)[a] == record_ids(s)[a] && record_ids(p)[b] == record_ids(s)[b]);
        }
        lemma_survivors_ids(p, m, q);
        let sp = record_ids(survivors(p, m, q));
        let ss = record_ids(survivors(s, m, oks));
        assert forall|x: Seq<char>| sp.contains(x) implies record_ids(s).contains(x) by {
            assert(record_ids(p).contains(x));
            let j = choose|j: int| 0 <= j < record_ids(p).len() && record_ids(p)[j] == x;
            assert(record_ids(s)[j] == record_ids(p)[j]);
        }
        if oks.last() {
            let last = s.last().0;
            assert(ss =~= sp.push(last));
            assert(record_ids(s)[s.len() - 1] == last);
            if sp.contains(last) {
                assert(record_ids(p).contains(last));
                let j = choose|j: int| 0 <= j < record_ids(p).len() && record_ids(p)[j] == last;
                assert(record_ids(s)[j] == record_ids(p)[j]);
                assert(false);
            }
            assert(!sp.contains(last));
            assert forall|a: int, b: int| 0 <= a < ss.len() && 0 <= b < ss.len() && a != b
                implies ss[a] != ss[b] by {
                if a < sp.len() && b < sp.len() {
                    assert(ss[a] == sp[a] && ss[b] == sp[b]);
                } else if a < sp.len() {
                    assert(ss[a] == sp[a] && ss[b] == last);
                    assert(sp.contains(sp[a]));
                } else {
                    assert(ss[b] == sp[b] && ss[a] == last);
                    assert(sp.contains(sp[b]));
                }
            }
            assert forall|x: Seq<char>| ss.contains(x) implies record_ids(s).contains(x) by {
                let j = choose|j: int| 0 <= j < ss.len() && ss[j] == x;
                if j < sp.len() {
                    assert(ss[j] == sp[j]);
                    assert(sp.contains(x));
                } else {
                    assert(ss[j] == last);
                }
            }
        } else {
            assert(ss =~= sp);
        }
    }
}

/// The ids of a sequence of clients, in order.
pub open spec fn client_ids(s: Seq<(String, ClientHandle)>) -> Seq<Seq<char>> {
    s.map_values(|e: (String, ClientHandle)| e.0@)
}

/// The set of the views of some strings.
pub open spec fn id_set(s: Seq<String>) -> Set<Seq<char>> {
    s.map_values(|x: String| x@).to_set()
}

/// The connected clients, each under a distinct id, in the order they
/// connected.
pub struct Hub {
    clients: Vec<(String, ClientHandle)>,
    departed: Ghost<Seq<ClientRecord>>,
}

impl View for Hub {
    type V = Set<Seq<char>>;

    /// The ids of the connected clients.
    closed spec fn view(&self) -> Set<Seq<char>> {
        client_ids(self.clients@).to_set()
    }
}

impl Hub {
    pub closed spec fn wf(&self) -> bool {
        client_ids(self.clients@).no_duplicates()
    }

    /// The connected clients, in the order they connected, each with the
    /// history of the offers made to it.
    pub closed spec fn clients(&self) -> Seq<ClientRecord> {
        self.clients@.map_values(|e: (String, ClientHandle)| (e.0@, e.1.offers()))
    }

    /// The clients that broadcasts dropped, in the order they were dropped,
    /// each with its history of offers, the refused one last.
    pub closed spec fn departed(&self) -> Seq<ClientRecord> {
        self.departed@
    }

    /// A hub with no client.
    pub fn new() -> (r: Self)
        ensures
            r.wf(),
            r@ == Set::<Seq<char>>::empty(),
            r.clients() == Seq::<ClientRecord>::empty(),
            r.departed() == Seq::<ClientRecord>::empty(),
    {
        let r = Hub { clients: Vec::new(), departed: Ghost(Seq::empty()) };
        proof {
            assert(client_ids(r.clients@).to_set() =~= Set::<Seq<char>>::empty());
            assert(r.clients() =~= Seq::<ClientRecord>::empty());
        }
        r
    }

    /// How many clients are connected.
    pub fn client_count(&self) -> (r: usize)
        requires
            self.wf(),
        ensures
            r == self@.len(),
    {
        proof {
            client_ids(self.clients@).unique_seq_to_set();
        }
        self.clients.len()
    }

    /// Whether a client is connected under `id`.
    pub fn is_connected(&self, id: &String) -> (r: bool)
        ensures
            r == self@.contains(id@),
    {
        let mut i: usize = 0;
        while i < self.clients.len()
            invariant
                i <= self.clients@.len(),
                forall|j: int| 0 <= j < i ==> (#[trigger] self.clients@[j]).0@ != id@,
            decreases self.clients.len() - i,
        {
            if self.clients[i].0 == *id {
                proof {
                    assert(client_ids(self.clients@)[i as int] == id@);
                }
                return true;
            }
            i = i + 1;
        }
        proof {
            if client_ids(self.clients@).contains(id@) {
                let j = choose|j: int|
                    0 <= j < self.clients@.len() && #[trigger] client_ids(self.clients@)[j]
                        == id@;
                assert(self.clients@[j].0@ == id@);
            }
        }
        false
    }

    /// Registers the consumer behind `handle` under a fresh id, and returns
    /// that id; `None`, with nothing registered, where no id that is not in
    /// use could be drawn.
    pub fn connect(&mut self, handle: ClientHandle) -> (r: Option<String>)
        requires
            old(self).wf(),
        ensures
            final(self).wf(),
            match r {
                Some(id) => is_generated_id(id@, CLIENT_ID_LEN as nat) && !old(self)@.contains(
                    id@,
                ) && final(self)@ == old(self)@.insert(id@),
                None => final(self)@ == old(self)@ && old(self)@.len() > 0,
            },
            match r {
                Some(id) => final(self).clients() == old(self).clients().push((id@, handle.offers())),
                None => final(self).clients() == old(self).clients(),
            },
            final(self).departed() == old(self).departed(),
    {
        let mut attempt: usize = 0;
        let ghost h = handle.offers();
        while attempt < CLIENT_ID_ATTEMPTS
            invariant
                self.wf(),
                self@ == old(self)@,
                self.clients() == old(self).clients(),
                self.departed() == old(self).departed(),
                attempt > 0 ==> old(self)@.len() > 0,
                h == handle.offers(),
            decreases CLIENT_ID_ATTEMPTS - attempt,
        {
            let id = random_id(CLIENT_ID_LEN);
            if !self.is_connected(&id) {
                let ghost before = client_ids(self.clients@);
                let ghost recs = self.clients();
                self.clients.push((id.clone(), handle));
                proof {
                    assert(self.clients() =~= recs.push((id@, h)));
                    let after = client_ids(self.clients@);
                    assert(after =~= before.push(id@));
                    assert(after.to_set() =~= before.to_set().insert(id@)) by {
                        assert forall|x: Seq<char>| after.contains(x) <==> (before.contains(x)
                            || x == id@) by {
                            if after.contains(x) {
                                let j = choose|j: int| 0 <= j < after.len() && #[trigger] after[j] == x;
                                if j < before.len() {
                                    assert(before[j] == x);
                                }
                            }
                            if before.contains(x) {
                                let j = choose|j: int| 0 <= j < before.len() && #[trigger] before[j] == x;
                                assert(after[j] == x);
                            }
                            if x == id@ {
                                assert(after[before.len() as int] == x);
                            }
                        }
                    }
                    assert forall|a: int, b: int| 0 <= a < after.len() && 0 <= b < after.len() && a != b
                        implies after[a] != after[b] by {
                        if a < before.len() && b < before.len() {
                            assert(after[a] == before[a] && after[b] == before[b]);
                        } else if a < before.len() {
                            assert(before.contains(after[a]));
                        } else {
                            assert(before.contains(after[b]));
                        }
                    }
                }
                return Some(id);
            }
            proof {
                client_ids(self.clients@).unique_seq_to_set();
                let j = choose|j: int|
                    0 <= j < client_ids(self.clients@).len() && client_ids(self.clients@)[j] == id@;
            }
            attempt = attempt + 1;
        }
        None
    }

    /// Drops every client whose id is in `gone`.
    pub fn prune(&mut self, gone: &Vec<String>)
        requires
            old(self).wf(),
        ensures
            final(self).wf(),
            final(self)@ == old(self)@.difference(id_set(gone@)),
    {
        let ghost all = client_ids(self.clients@);
        let ghost dead = id_set(gone@);
        let mut rest: Vec<(String, ClientHandle)> = Vec::new();
        std::mem::swap(&mut self.clients, &mut rest);
        let ghost mut done: int = 0;
        proof {
            assert(all.skip(0) =~= all);
            assert(client_ids(self.clients@) =~= Seq::<Seq<char>>::empty());
        }
        while rest.len() > 0
            invariant
                all.no_duplicates(),
                dead == id_set(gone@),
                0 <= done <= all.len(),
                client_ids(rest@) == all.skip(done),
                client_ids(self.clients@).no_duplicates(),
                client_ids(self.clients@).to_set() == all.take(done).to_set().difference(dead),
            decreases rest.len(),
        {
            let ghost old_rest = rest@;
            let e = rest.remove(0);
            let ghost xid = e.0@;
            let ghost before = client_ids(self.clients@);
            proof {
                assert(e == old_rest[0]);
                assert(client_ids(old_rest)[0] == xid);
                assert(all.skip(done).len() > 0);
                assert(all.skip(done)[0] == xid);
                assert(all.skip(done)[0] == all[done]);
                assert forall|j: int| 0 <= j < rest@.len() implies #[trigger] client_ids(rest@)[j]
                    == all.skip(done + 1)[j] by {
                    assert(rest@[j] == old_rest[j + 1]);
                    assert(client_ids(old_rest)[j + 1] == all.skip(done)[j + 1]);
                }
                assert(client_ids(rest@) =~= all.skip(done + 1));
            }
            let keep = !contains_id(gone, &e.0);
            if keep {
                self.clients.push(e);
            }
            proof {
                let after = client_ids(self.clients@);
                let t0 = all.take(done);
                let t1 = all.take(done + 1);
                assert(t1 =~= t0 + seq![xid]);
                if t0.contains(xid) {
                    let j = choose|j: int| 0 <= j < t0.len() && #[trigger] t0[j] == xid;
                    assert(all[j] == all[done]);
                }
                assert(!t0.to_set().contains(xid));
                Seq::lemma_to_set_insert_commutes(t0, xid);
                assert(!before.to_set().contains(xid));
                if keep {
                    assert(after =~= before + seq![xid]);
                    Seq::lemma_to_set_insert_commutes(before, xid);
                    assert(!before.contains(xid));
                    assert forall|a: int, b: int| 0 <= a < after.len() && 0 <= b < after.len() && a != b
                        implies after[a] != after[b] by {
                        if a < before.len() && b < before.len() {
                            assert(after[a] == before[a] && after[b] == before[b]);
                        } else if a < before.len() {
                            assert(before.contains(after[a]));
                        } else {
                            assert(before.contains(after[b]));
                        }
                    }
                }
                assert(after.to_set() =~= t1.to_set().difference(dead));
                done = done + 1;
            }
        }
        proof {
            assert(all.take(done) =~= all);
            assert(self@ =~= old(self)@.difference(dead));
        }
    }

    /// Offers `msg` to every connected client, in the order they connected,
    /// each exactly once; the clients whose mailbox refused it (their task
    /// has ended) are dropped, and their ids returned, in that order.
    pub fn broadcast(&mut self, msg: &ClientMessage) -> (gone: Vec<String>)
        requires
            old(self).wf(),
        ensures
            final(self).wf(),
            exists|oks: Seq<bool>|
                oks.len() == old(self).clients().len() && final(self).clients() == #[trigger] survivors(
                    old(self).clients(),
                    msg@,
                    oks,
                ) && final(self).departed() == old(self).departed() + casualties(
                    old(self).clients(),
                    msg@,
                    oks,
                ) && gone@.map_values(|g: String| g@) == record_ids(
                    casualties(old(self).clients(), msg@, oks),
                ),
    {
        let ghost all = self.clients();
        let ghost ids0 = client_ids(self.clients@);
        let ghost m = msg@;
        let ghost d0 = self.departed@;
        let mut gone: Vec<String> = Vec::new();
        let mut rest: Vec<(String, ClientHandle)> = Vec::new();
        std::mem::swap(&mut self.clients, &mut rest);
        let ghost mut oks: Seq<bool> = Seq::empty();
        proof {
            assert(record_ids(all) =~= ids0);
            assert(rest@.map_values(|e: (String, ClientHandle)| (e.0@, e.1.offers())) =~= all.skip(0));
            assert(self.clients() =~= Seq::<ClientRecord>::empty());
            assert(all.take(0) =~= Seq::<ClientRecord>::empty());
            assert(d0 + Seq::<ClientRecord>::empty() =~= d0);
            assert(gone@.map_values(|g: String| g@) =~= Seq::<Seq<char>>::empty());
        }
        while rest.len() > 0
            invariant
                record_ids(all).no_duplicates(),
                all == old(self).clients(),
                d0 == old(self).departed(),
                m == msg@,
                oks.len() <= all.len(),
                rest@.map_values(|e: (String, ClientHandle)| (e.0@, e.1.offers())) == all.skip(
                    oks.len() as int,
                ),
                self.clients() == survivors(all.take(oks.len() as int), m, oks),
                self.departed@ == d0 + casualties(all.take(oks.len() as int), m, oks),
                gone@.map_values(|g: String| g@) == record_ids(
                    casualties(all.take(oks.len() as int), m, oks),
                ),
            decreases rest.len(),
        {
            let ghost done = oks.len() as int;
            let ghost old_rest = rest@;
            let ghost surv0 = self.clients();
            let ghost cas0 = casualties(all.take(done), m, oks);
            let ghost gone0 = gone@;
            let (id, mut handle) = rest.remove(0);
            proof {
                let rv = old_rest.map_values(|e: (String, ClientHandle)| (e.0@, e.1.offers()));
                assert(rv.len() == old_rest.len());
                assert(all.skip(done).len() > 0);
                assert(rv[0] == all.skip(done)[0]);
                assert(all.skip(done)[0] == all[done]);
                assert((id@, handle.offers()) == all[done]);
                assert(rest@.map_values(|e: (String, ClientHandle)| (e.0@, e.1.offers())) =~= all.skip(
                    done + 1,
                )) by {
                    assert forall|j: int| 0 <= j < rest@.len() implies rest@[j] == old_rest[j + 1] by {}
                    assert(rv.skip(1) =~= all.skip(done + 1));
                }
            }
            let sent = handle.send(msg.duplicate());
            let ok = sent.is_ok();
            proof {
                let oks1 = oks.push(ok);
                let t1 = all.take(done + 1);
                assert(t1.drop_last() =~= all.take(done));
                assert(t1.last() == all[done]);
                assert(oks1.drop_last() =~= oks);
                assert(handle.offers() == all[done].1.push((m, ok)));
            }
            if ok {
                self.clients.push((id, handle));
                proof {
                    let oks1 = oks.push(ok);
                    assert(self.clients() =~= surv0.push((all[done].0, all[done].1.push((m, true)))));
                    assert(self.clients() == survivors(all.take(done + 1), m, oks1));
                    assert(casualties(all.take(done + 1), m, oks1) == cas0);
                }
            } else {
                let ghost rec = (id@, handle.offers());
                let ghost idv = id@;
                gone.push(id);
                proof {
                    let oks1 = oks.push(ok);
                    self.departed = Ghost(self.departed@.push(rec));
                    assert(casualties(all.take(done + 1), m, oks1) == cas0.push(rec));
                    assert(self.departed@ =~= d0 + cas0.push(rec));
                    assert(gone@.map_values(|g: String| g@) =~= gone0.map_values(|g: String| g@).push(
                        idv,
                    ));
                    assert(record_ids(cas0.push(rec)) =~= record_ids(cas0).push(idv));
                    assert(survivors(all.take(done + 1), m, oks1) == surv0);
                }
            }
            proof {
                oks = oks.push(ok);
            }
        }
        proof {
            assert(all.skip(oks.len() as int).len() == 0);
            assert(all.take(oks.len() as int) =~= all);
            lemma_survivors_ids(all, m, oks);
            assert(client_ids(self.clients@) =~= record_ids(self.clients()));
        }
        gone
    }
}

/// Whether `id` is among `ids`.
fn contains_id(ids: &Vec<String>, id: &String) -> (r: bool)
    ensures
        r == id_set(ids@).contains(id@),
{
    let mut i: usize = 0;
    while i < ids.len()
        invariant
            i <= ids@.len(),
            forall|j: int| 0 <= j < i ==> (#[trigger] ids@[j])@ != id@,
        decreases ids.len() - i,
    {
        if ids[i] == *id {
            proof {
                assert(ids@.map_values(|x: String| x@)[i as int] == id@);
            }
            return true;
        }
        i = i + 1;
    }
    proof {
        let s = ids@.map_values(|x: String| x@);
        if s.contains(id@) {
            let j = choose|j: int| 0 <= j < s.len() && #[trigger] s[j] == id@;
            assert(ids@[j]@ == id@);
        }
    }
    false
}

} // verus!
