//! Event streams: a signal without content, "something changed, read the state
//! again", to every open dashboard. Streams are registered under their session
//! id, or under the empty one for clients without a session, whose streams are
//! never closed from here. The caller holds the channels; who is to be sent
//! to, kept or closed is decided here.

use crate::text;
use std::collections::HashMap;
use vstd::prelude::*;
use vstd::std_specs::hash::*;

verus! {

broadcast use group_hash_axioms;

/// The one frame that is ever sent.
pub const FRAME: &'static str = "data: changed\n\n";

/// The open streams, by number, each with the session that it belongs to.
pub struct SseRegistry {
    next_id: u64,
    clients: HashMap<u64, String>,
}

#[verifier::ext_equal]
pub struct StreamsView {
    pub next_id: u64,
    pub clients: Map<u64, Seq<char>>,
}

impl View for SseRegistry {
    type V = StreamsView;

    closed spec fn view(&self) -> StreamsView {
        StreamsView {
            next_id: self.next_id,
            clients: self.clients@.map_values(|s: String| s@),
        }
    }
}

/// What came of sending to a stream: it was delivered, its backlog was full,
/// or the client was gone.
#[derive(Debug, Clone, Copy, PartialEq, Eq, Structural)]
pub enum Delivery {
    Delivered,
    Full,
    Closed,
}

/// The numbers of the streams that belong to a session.
pub open spec fn of_session(clients: Map<u64, Seq<char>>, session_id: Seq<char>) -> Set<u64> {
    clients.dom().filter(|id: u64| clients[id] == session_id)
}

/// A list of exactly these numbers, in some order, each once.
pub open spec fn lists(list: Seq<u64>, ids: Set<u64>) -> bool {
    list.no_duplicates() && forall|id: u64| #[trigger] list.contains(id) <==> ids.contains(id)
}

impl StreamsView {
    /// After a connect: the stream has the next number. A counter that has
    /// gone all the way round takes the place of the stream it meets.
    pub open spec fn after_register(self, session_id: Seq<char>) -> StreamsView {
        StreamsView {
            next_id: if self.next_id == u64::MAX {
                0
            } else {
                (self.next_id + 1) as u64
            },
            clients: self.clients.insert(self.next_id, session_id),
        }
    }

    /// After a disconnect.
    pub open spec fn after_unregister(self, id: u64) -> StreamsView {
        StreamsView { clients: self.clients.remove(id), ..self }
    }

    /// The streams that end with a session. The empty id is no session, and
    /// ends none.
    pub open spec fn ending_with(self, session_id: Seq<char>) -> Set<u64> {
        if session_id.len() == 0 {
            Set::empty()
        } else {
            of_session(self.clients, session_id)
        }
    }

    /// After a session ended.
    pub open spec fn after_close(self, session_id: Seq<char>) -> StreamsView {
        StreamsView { clients: self.clients.remove_keys(self.ending_with(session_id)), ..self }
    }
}

impl SseRegistry {
    pub fn new() -> (r: Self)
        ensures
            r@ == (StreamsView { next_id: 1, clients: Map::empty() }),
    {
        let r = SseRegistry { next_id: 1, clients: HashMap::new() };
        assert(r@.clients =~= Map::empty());
        r
    }

    /// Registers a stream and gives its number.
    pub fn register(&mut self, session_id: &str) -> (id: u64)
        ensures
            id == old(self)@.next_id,
            final(self)@ == old(self)@.after_register(session_id@),
    {
        let id: u64 = self.next_id;
        self.clients.insert(id, session_id.to_owned());
        self.next_id = if id == u64::MAX {
            0
        } else {
            id + 1
        };
        assert(self@.clients =~= old(self)@.clients.insert(id, session_id@));
        id
    }

    /// A client went away.
    pub fn unregister(&mut self, id: u64)
        ensures
            final(self)@ == old(self)@.after_unregister(id),
    {
        self.clients.remove(&id);
        assert(self@.clients =~= old(self)@.clients.remove(id));
    }

    /// Whom the frame is to be sent to: every stream, in no particular order.
    pub fn notify(&self) -> (r: Vec<u64>)
        ensures
            lists(r@, self@.clients.dom()),
    {
        let mut ids: Vec<u64> = Vec::new();
        let ghost order = vstd::std_specs::iter::IteratorSpec::remaining(
            &spec_keys_iter(&self.clients),
        );
        for id in it: self.clients.keys()
            invariant
                it.seq() == order,
                ids.len() == it.index(),
                forall|k: int| 0 <= k < ids.len() ==> ids@[k] == *(#[trigger] order[k]),
        {
            ids.push(*id);
        }
        proof {
            assert(ids@ =~= order.unref());
            assert(self@.clients.dom() =~= order.unref().to_set());
            assert forall|i: int, j: int| 0 <= i < ids.len() && 0 <= j < ids.len() && i
                != j implies ids@[i] != ids@[j] by {
                assert(order[i] != order[j]);
            }
            assert forall|id: u64| #[trigger] ids@.contains(id) <==> self@.clients.dom().contains(
                id,
            ) by {
                assert(order.unref().to_set().contains(id) <==> ids@.contains(id));
            }
        }
        ids
    }

    /// What came of sending to a stream. One whose client is gone is dropped;
    /// one that merely lags is kept, since it will catch up with any frame.
    pub fn settle(&mut self, id: u64, delivery: Delivery)
        ensures
            final(self)@ == if delivery == Delivery::Closed {
                old(self)@.after_unregister(id)
            } else {
                old(self)@
            },
    {
        if delivery == Delivery::Closed {
            self.unregister(id);
        }
    }

    fn belongs(&self, id: u64, session_id: &str) -> (r: bool)
        ensures
            r == (self@.clients.contains_key(id) && self@.clients[id] == session_id@),
    {
        match self.clients.get(&id) {
            Some(owner) => text::same_text(owner, session_id),
            None => false,
        }
    }

    /// A session ended: its streams are dropped, and their numbers given, to
    /// be closed.
    pub fn close_session_streams(&mut self, session_id: &str) -> (closed: Vec<u64>)
        ensures
            final(self)@ == old(self)@.after_close(session_id@),
            lists(closed@, old(self)@.ending_with(session_id@)),
    {
        let mut closed: Vec<u64> = Vec::new();
        if session_id.unicode_len() == 0 {
            assert(self@.after_close(session_id@).clients =~= self@.clients);
            return closed;
        }
        let ghost before = self@;
        let ids = self.notify();
        let mut i: usize = 0;
        while i < ids.len()
            invariant
                before == old(self)@,
                session_id@.len() > 0,
                i <= ids.len(),
                lists(ids@, before.clients.dom()),
                self@.next_id == before.next_id,
                closed@.no_duplicates(),
                forall|id: u64| #[trigger]
                    closed@.contains(id) <==> ids@.take(i as int).contains(id)
                        && before.clients[id] == session_id@,
                forall|id: u64| #[trigger]
                    self@.clients.contains_key(id) <==> before.clients.contains_key(id)
                        && !closed@.contains(id),
                forall|id: u64| #[trigger]
                    self@.clients.contains_key(id) ==> self@.clients[id] == before.clients[id],
            decreases ids.len() - i,
        {
            let id: u64 = ids[i];
            let ghost seen = ids@.take(i as int);
            let ghost so_far = closed@;
            proof {
                assert(ids@.take(i + 1) =~= seen.push(id));
                assert(!seen.contains(id));
                assert(ids@.contains(id));
            }
            if self.belongs(id, session_id) {
                self.unregister(id);
                closed.push(id);
            }
            assert forall|x: u64| #[trigger] closed@.contains(x) <==> ids@.take(i + 1).contains(x)
                && before.clients[x] == session_id@ by {
                lemma_contains_after_push(seen, id, x);
                lemma_contains_after_push(so_far, id, x);
            }
            assert forall|x: u64| #[trigger]
                self@.clients.contains_key(x) <==> before.clients.contains_key(x)
                    && !closed@.contains(x) by {
                lemma_contains_after_push(so_far, id, x);
            }
            i = i + 1;
        }
        assert(ids@.take(i as int) =~= ids@);
        assert(self@.clients =~= before.after_close(session_id@).clients);
        closed
    }

    /// How many streams are open.
    pub fn client_count(&self) -> (r: usize)
        ensures
            r == self@.clients.len(),
    {
        assert(self@.clients.dom() =~= self.clients@.dom());
        self.clients.len()
    }
}

proof fn lemma_contains_after_push(list: Seq<u64>, last: u64, id: u64)
    ensures
        list.push(last).contains(id) <==> list.contains(id) || id == last,
{
    let longer = list.push(last);
    if list.contains(id) {
        let k = choose|k: int| 0 <= k < list.len() && list[k] == id;
        assert(longer[k] == id);
    }
    assert(longer[list.len() as int] == last);
    if longer.contains(id) {
        let k = choose|k: int| 0 <= k < longer.len() && longer[k] == id;
        if k < list.len() {
            assert(list[k] == id);
        }
    }
}

impl Default for SseRegistry {
    fn default() -> (r: Self)
        ensures
            r@ == (StreamsView { next_id: 1, clients: Map::empty() }),
    {
        SseRegistry::new()
    }
}

// Laws.
/// A new stream has a number of its own, and takes none that is in use, until
/// the counter has gone all the way round.
pub proof fn law_numbers_are_fresh(before: StreamsView, session_id: Seq<char>)
    requires
        forall|id: u64| #[trigger] before.clients.contains_key(id) ==> id < before.next_id,
        before.next_id < u64::MAX,
    ensures
        ({
            let after = before.after_register(session_id);
            &&& !before.clients.contains_key(before.next_id)
            &&& before.clients.submap_of(after.clients)
            &&& after.clients.contains_key(before.next_id)
            &&& forall|id: u64| #[trigger] after.clients.contains_key(id) ==> id < after.next_id
        }),
{
}

/// When a session ends, its streams are gone and all others stay as they are.
pub proof fn law_close_ends_exactly_the_sessions_streams(
    before: StreamsView,
    session_id: Seq<char>,
    id: u64,
)
    requires
        before.clients.contains_key(id),
    ensures
        ({
            let after = before.after_close(session_id);
            if before.clients[id] == session_id && session_id.len() > 0 {
                !after.clients.contains_key(id)
            } else {
                after.clients.contains_key(id) && after.clients[id] == before.clients[id]
            }
        }),
{
}

/// Clients without a session are never cut off, whichever session ends.
pub proof fn law_sessionless_streams_stay(before: StreamsView, session_id: Seq<char>, id: u64)
    requires
        before.clients.contains_key(id),
        before.clients[id].len() == 0,
    ensures
        before.after_close(session_id).clients.contains_key(id),
{
}

/// A registry is empty at first, and counts streams from one.
pub proof fn law_new_registry_is_empty(r: SseRegistry, registry: &SseRegistry, count: usize)
    requires
        call_ensures(SseRegistry::new, (), r),
        registry@ == r@,
        call_ensures(SseRegistry::client_count, (registry,), count),
    ensures
        count == 0,
        r@.next_id == 1,
{
}

/// A stream that was registered is there under its number with its session, and
/// every other stream but one of the same number is as it was.
pub proof fn law_registered_stream_is_there(
    registry: &mut SseRegistry,
    session_id: &str,
    other: u64,
    id: u64,
)
    requires
        call_ensures(SseRegistry::register, (registry, session_id), id),
    ensures
        ({
            let before = old(registry)@.clients;
            let after = final(registry)@.clients;
            &&& after.contains_key(id) && after[id] == session_id@
            &&& id == old(registry)@.next_id
            &&& id < u64::MAX ==> final(registry)@.next_id == id + 1
            &&& id == u64::MAX ==> final(registry)@.next_id == 0
            &&& other != id ==> after.contains_key(other) == before.contains_key(other)
                && after[other] == before[other]
        }),
{
}

/// A stream that went away is gone, and no other is; one that was merely slow,
/// or was delivered to, stays.
pub proof fn law_only_the_gone_are_dropped(
    registry: &mut SseRegistry,
    settled: &mut SseRegistry,
    id: u64,
    delivery: Delivery,
    other: u64,
)
    requires
        call_ensures(SseRegistry::unregister, (registry, id), ()),
        call_ensures(SseRegistry::settle, (settled, id, delivery), ()),
    ensures
        !final(registry)@.clients.contains_key(id),
        other != id ==> final(registry)@.clients.contains_key(other) == old(
            registry,
        )@.clients.contains_key(other) && final(registry)@.clients[other] == old(
            registry,
        )@.clients[other],
        final(registry)@.next_id == old(registry)@.next_id,
        delivery == Delivery::Closed ==> !final(settled)@.clients.contains_key(id),
        delivery != Delivery::Closed ==> final(settled)@ == old(settled)@,
        other != id ==> final(settled)@.clients.contains_key(other) == old(
            settled,
        )@.clients.contains_key(other),
{
}

/// Everyone who listens is told, each once.
pub proof fn law_everyone_is_told(registry: &SseRegistry, id: u64, r: Vec<u64>)
    requires
        call_ensures(SseRegistry::notify, (registry,), r),
    ensures
        r@.contains(id) <==> registry@.clients.contains_key(id),
        r@.no_duplicates(),
{
}

/// A session that ended takes its own streams with it, each reported once, and
/// no others; the empty session takes none.
pub proof fn law_closing_takes_the_sessions_streams(
    registry: &mut SseRegistry,
    session_id: &str,
    id: u64,
    closed: Vec<u64>,
)
    requires
        call_ensures(SseRegistry::close_session_streams, (registry, session_id), closed),
    ensures
        ({
            let before = old(registry)@.clients;
            let after = final(registry)@.clients;
            let ends = before.contains_key(id) && before[id] == session_id@ && session_id@.len()
                > 0;
            &&& closed@.contains(id) <==> ends
            &&& closed@.no_duplicates()
            &&& after.contains_key(id) <==> before.contains_key(id) && !ends
            &&& after.contains_key(id) ==> after[id] == before[id]
            &&& final(registry)@.next_id == old(registry)@.next_id
        }),
{
}

/// As many are told as there are streams, and the frame that they are told with
/// is one event and no more.
pub proof fn law_count_is_the_number_of_streams(registry: &SseRegistry, count: usize)
    requires
        call_ensures(SseRegistry::client_count, (registry,), count),
    ensures
        count == registry@.clients.dom().len(),
        FRAME@ == "data: changed\n\n"@,
{
}

} // verus!
