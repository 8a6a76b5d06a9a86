//! The server's rendezvous table: parked public sockets keyed by
//! session id, each with a deadline. A claim removes its entry
//! atomically; expired entries are unreachable and swept.

use vstd::prelude::*;

verus! {

use crate::msg::{ServerMessage, ServerMsgV, SessionId};

/// A parked public connection awaiting its claim. The socket itself
/// lives in the networked runtime; `conn` is the opaque handle under
/// which the runtime holds it.
#[derive(Debug, Clone, Copy, PartialEq)]
pub struct ParkedConn {
    pub id: u128,
    /// Instant in milliseconds after which the entry is unreachable.
    pub deadline_ms: u64,
    /// Handle of the parked socket.
    pub conn: u64,
    /// Handle of the owning tunnel.
    pub tunnel: u64,
}

/// The mathematical content of a sequence of parked entries.
pub open spec fn table_map(s: Seq<ParkedConn>) -> Map<u128, ParkedConn>
    decreases s.len(),
{
    if s.len() == 0 {
        Map::empty()
    } else {
        table_map(s.drop_last()).insert(s.last().id, s.last())
    }
}

pub open spec fn unique_ids(s: Seq<ParkedConn>) -> bool {
    forall|i: int, j: int|
        #![trigger s[i].id, s[j].id]
        0 <= i < j < s.len() ==> s[i].id != s[j].id
}

proof fn lemma_table_map_domain(s: Seq<ParkedConn>)
    ensures
        forall|id: u128|
            #[trigger] table_map(s).contains_key(id) <==> exists|i: int|
                0 <= i < s.len() && (#[trigger] s[i]).id == id,
        forall|i: int|
            0 <= i < s.len() ==> table_map(s).contains_key(#[trigger] s[i].id),
    decreases s.len(),
{
    if s.len() > 0 {
        lemma_table_map_domain(s.drop_last());
        let dl = s.drop_last();
        assert forall|id: u128| #[trigger] table_map(s).contains_key(id) implies exists|i: int|
            0 <= i < s.len() && (#[trigger] s[i]).id == id by {
            if id == s.last().id {
                assert(s[s.len() - 1].id == id);
            } else {
                assert(table_map(dl).contains_key(id));
                let i = choose|i: int| 0 <= i < dl.len() && (#[trigger] dl[i]).id == id;
                assert(s[i].id == id);
            }
        }
        assert forall|i: int| 0 <= i < s.len() implies table_map(s).contains_key(
            #[trigger] s[i].id,
        ) by {
            if i < s.len() - 1 {
                assert(dl[i] == s[i]);
                assert(table_map(dl).contains_key(s[i].id));
            }
        }
        assert forall|id: u128|
            (exists|i: int| 0 <= i < s.len() && (#[trigger] s[i]).id == id)
            implies #[trigger] table_map(s).contains_key(id) by {
            let i = choose|i: int| 0 <= i < s.len() && (#[trigger] s[i]).id == id;
            assert(table_map(s).contains_key(s[i].id));
        }
    }
}

proof fn lemma_table_map_at(s: Seq<ParkedConn>, i: int)
    requires
        unique_ids(s),
        0 <= i < s.len(),
    ensures
        table_map(s).contains_key(s[i].id),
        table_map(s)[s[i].id] == s[i],
    decreases s.len(),
{
    lemma_table_map_domain(s);
    if i == s.len() - 1 {
    } else {
        let dl = s.drop_last();
        assert(dl[i] == s[i]);
        lemma_table_map_at(dl, i);
        assert(s[i].id != s.last().id);
    }
}

proof fn lemma_table_map_remove(s: Seq<ParkedConn>, i: int)
    requires
        unique_ids(s),
        0 <= i < s.len(),
    ensures
        unique_ids(s.remove(i)),
        table_map(s.remove(i)) == table_map(s).remove(s[i].id),
    decreases s.len(),
{
    lemma_table_map_domain(s);
    lemma_table_map_domain(s.remove(i));
    let id = s[i].id;
    let l = s.len() - 1;
    assert(unique_ids(s.remove(i))) by {
        assert(forall|t: int|
            0 <= t < s.remove(i).len() ==> #[trigger] s.remove(i)[t] == (if t < i {
                s[t]
            } else {
                s[t + 1]
            }));
    }
    if i == l {
        assert(s.remove(i) =~= s.drop_last());
        // the removed id is not among the earlier entries
        assert(!table_map(s.drop_last()).contains_key(id)) by {
            lemma_table_map_domain(s.drop_last());
            if table_map(s.drop_last()).contains_key(id) {
                let t = choose|t: int|
                    0 <= t < s.drop_last().len() && (#[trigger] s.drop_last()[t]).id == id;
                assert(s[t].id == id && t < l);
            }
        }
        assert(table_map(s.drop_last()) =~= table_map(s.drop_last()).insert(id, s.last()).remove(
            id,
        ));
    } else {
        let dl = s.drop_last();
        lemma_table_map_remove(dl, i);
        assert(s.remove(i).drop_last() =~= dl.remove(i));
        assert(s.remove(i).last() == s.last());
        assert(table_map(s.remove(i)) == table_map(dl.remove(i)).insert(s.last().id, s.last()));
        assert(s.last().id != id);
        assert(table_map(dl).remove(id).insert(s.last().id, s.last()) =~= table_map(dl).insert(
            s.last().id,
            s.last(),
        ).remove(id));
    }
}

/// What a claim does to the table: a live entry is removed and
/// handed out; an expired or missing entry yields nothing, and an
/// expired entry is swept on the way.
pub open spec fn spec_claim(m: Map<u128, ParkedConn>, id: u128, now_ms: u64) -> (
    Map<u128, ParkedConn>,
    Option<ParkedConn>,
) {
    if m.contains_key(id) && now_ms <= m[id].deadline_ms {
        (m.remove(id), Some(m[id]))
    } else {
        (m.remove(id), None)
    }
}

/// Rendezvous table; the runtime guards it with its lock and calls in
/// at accept, claim, sweep and teardown.
pub struct RendezvousTable {
    entries: Vec<ParkedConn>,
}

impl View for RendezvousTable {
    type V = Map<u128, ParkedConn>;

    open spec fn view(&self) -> Map<u128, ParkedConn> {
        table_map(self.entries_seq())
    }
}

impl RendezvousTable {
    pub closed spec fn entries_seq(&self) -> Seq<ParkedConn> {
        self.entries@
    }

    /// Session ids in the table are pairwise distinct.
    pub open spec fn wf(&self) -> bool {
        unique_ids(self.entries_seq())
    }

    pub fn new() -> (r: RendezvousTable)
        ensures
            r.wf(),
            r@ == Map::<u128, ParkedConn>::empty(),
    {
        RendezvousTable { entries: Vec::new() }
    }

    fn find(&self, id: u128) -> (r: Option<usize>)
        ensures
            match r {
                Some(i) => i < self.entries_seq().len() && self.entries_seq()[i as int].id == id,
                None => forall|t: int|
                    0 <= t < self.entries_seq().len() ==> (#[trigger] self.entries_seq()[t]).id
                        != id,
            },
    {
        let mut i: usize = 0;
        while i < self.entries.len()
            invariant
                i <= self.entries_seq().len(),
                forall|t: int| 0 <= t < i ==> (#[trigger] self.entries_seq()[t]).id != id,
            decreases self.entries_seq().len() - i,
        {
            if self.entries[i].id == id {
                return Some(i);
            }
            i += 1;
        }
        None
    }

    /// Insert a freshly accepted connection under a new id; refused
    /// (and the table unchanged) if the id is already present.
    pub fn insert(&mut self, id: SessionId, deadline_ms: u64, conn: u64, tunnel: u64) -> (r: bool)
        requires
            old(self).wf(),
        ensures
            final(self).wf(),
            r == !old(self)@.contains_key(id.id),
            r ==> final(self)@ == old(self)@.insert(
                id.id,
                ParkedConn { id: id.id, deadline_ms, conn, tunnel },
            ),
            !r ==> final(self)@ == old(self)@,
    {
        proof {
            lemma_table_map_domain(self.entries_seq());
        }
        match self.find(id.id) {
            Some(_) => false,
            None => {
                let ghost s0 = self.entries_seq();
                self.entries.push(ParkedConn { id: id.id, deadline_ms, conn, tunnel });
                proof {
                    assert(self.entries_seq().drop_last() =~= s0);
                    assert(forall|t: int|
                        0 <= t < s0.len() ==> #[trigger] self.entries_seq()[t] == s0[t]);
                }
                true
            },
        }
    }

    /// Claim an entry: remove it atomically if it is present and not
    /// past its deadline. An expired entry is swept and yields
    /// nothing, so an id unclaimed by its deadline is unreachable.
    pub fn claim(&mut self, id: SessionId, now_ms: u64) -> (r: Option<ParkedConn>)
        requires
            old(self).wf(),
        ensures
            final(self).wf(),
            (final(self)@, r) == spec_claim(old(self)@, id.id, now_ms),
    {
        proof {
            lemma_table_map_domain(self.entries_seq());
        }
        match self.find(id.id) {
            Some(i) => {
                proof {
                    lemma_table_map_at(self.entries_seq(), i as int);
                    lemma_table_map_remove(self.entries_seq(), i as int);
                }
                let e = self.entries.remove(i);
                if now_ms <= e.deadline_ms {
                    Some(e)
                } else {
                    None
                }
            },
            None => {
                proof {
                    assert(!old(self)@.contains_key(id.id));
                    assert(old(self)@.remove(id.id) =~= old(self)@);
                }
                None
            },
        }
    }

    /// Sweep every entry whose deadline has passed.
    pub fn sweep(&mut self, now_ms: u64)
        requires
            old(self).wf(),
        ensures
            final(self).wf(),
            forall|id: u128|
                #[trigger] final(self)@.contains_key(id) ==> old(self)@.contains_key(id)
                    && final(self)@[id] == old(self)@[id] && now_ms <= final(self)@[id].deadline_ms,
            forall|id: u128|
                #[trigger] old(self)@.contains_key(id) && now_ms <= old(self)@[id].deadline_ms
                    ==> final(self)@.contains_key(id),
    {
        let ghost m0 = self@;
        let mut i: usize = 0;
        while i < self.entries.len()
            invariant
                self.wf(),
                i <= self.entries_seq().len(),
                forall|t: int|
                    0 <= t < i ==> now_ms <= (#[trigger] self.entries_seq()[t]).deadline_ms,
                forall|id: u128|
                    #[trigger] self@.contains_key(id) ==> m0.contains_key(id) && self@[id]
                        == m0[id],
                forall|id: u128|
                    #[trigger] m0.contains_key(id) && now_ms <= m0[id].deadline_ms
                        ==> self@.contains_key(id),
            decreases self.entries_seq().len() - i,
        {
            if self.entries[i].deadline_ms < now_ms {
                let ghost scur = self.entries_seq();
                let ghost mcur = self@;
                let ghost rid = scur[i as int].id;
                proof {
                    lemma_table_map_at(scur, i as int);
                    lemma_table_map_remove(scur, i as int);
                }
                self.entries.remove(i);
                proof {
                    assert(self@ == mcur.remove(rid));
                    assert forall|id: u128| #[trigger] self@.contains_key(id) implies
                        m0.contains_key(id) && self@[id] == m0[id] by {
                        assert(mcur.contains_key(id) && id != rid);
                        assert(self@[id] == mcur[id]);
                    }
                    assert forall|id: u128|
                        #[trigger] m0.contains_key(id) && now_ms <= m0[id].deadline_ms implies
                        self@.contains_key(id) by {
                        assert(mcur.contains_key(id));
                        if id == rid {
                            assert(mcur[rid] == scur[i as int]);
                            assert(m0[id] == mcur[id]);
                        }
                    }
                }
            } else {
                i += 1;
            }
        }
        proof {
            lemma_table_map_domain(self.entries_seq());
            assert forall|id: u128| #[trigger] self@.contains_key(id) implies now_ms
                <= self@[id].deadline_ms by {
                let t = choose|t: int|
                    0 <= t < self.entries_seq().len() && (#[trigger] self.entries_seq()[t]).id
                        == id;
                lemma_table_map_at(self.entries_seq(), t);
            }
        }
    }

    /// Drop every entry owned by a tunnel being torn down.
    pub fn remove_tunnel(&mut self, tunnel: u64)
        requires
            old(self).wf(),
        ensures
            final(self).wf(),
            forall|id: u128|
                #[trigger] final(self)@.contains_key(id) ==> old(self)@.contains_key(id)
                    && final(self)@[id] == old(self)@[id] && final(self)@[id].tunnel != tunnel,
            forall|id: u128|
                #[trigger] old(self)@.contains_key(id) && old(self)@[id].tunnel != tunnel
                    ==> final(self)@.contains_key(id),
    {
        let ghost m0 = self@;
        let mut i: usize = 0;
        while i < self.entries.len()
            invariant
                self.wf(),
                i <= self.entries_seq().len(),
                forall|t: int|
                    0 <= t < i ==> (#[trigger] self.entries_seq()[t]).tunnel != tunnel,
                forall|id: u128|
                    #[trigger] self@.contains_key(id) ==> m0.contains_key(id) && self@[id]
                        == m0[id],
                forall|id: u128|
                    #[trigger] m0.contains_key(id) && m0[id].tunnel != tunnel
                        ==> self@.contains_key(id),
            decreases self.entries_seq().len() - i,
        {
            if self.entries[i].tunnel == tunnel {
                let ghost scur = self.entries_seq();
                let ghost mcur = self@;
                let ghost rid = scur[i as int].id;
                proof {
                    lemma_table_map_at(scur, i as int);
                    lemma_table_map_remove(scur, i as int);
                }
                self.entries.remove(i);
                proof {
                    assert(self@ == mcur.remove(rid));
                    assert forall|id: u128| #[trigger] self@.contains_key(id) implies
                        m0.contains_key(id) && self@[id] == m0[id] by {
                        assert(mcur.contains_key(id) && id != rid);
                        assert(self@[id] == mcur[id]);
                    }
                    assert forall|id: u128|
                        #[trigger] m0.contains_key(id) && m0[id].tunnel != tunnel implies
                        self@.contains_key(id) by {
                        assert(mcur.contains_key(id));
                        if id == rid {
                            assert(mcur[rid] == scur[i as int]);
                            assert(m0[id] == mcur[id]);
                        }
                    }
                }
            } else {
                i += 1;
            }
        }
        proof {
            lemma_table_map_domain(self.entries_seq());
            assert forall|id: u128| #[trigger] self@.contains_key(id) implies self@[id].tunnel
                != tunnel by {
                let t = choose|t: int|
                    0 <= t < self.entries_seq().len() && (#[trigger] self.entries_seq()[t]).id
                        == id;
                lemma_table_map_at(self.entries_seq(), t);
            }
        }
    }

    /// Park a freshly accepted public socket under a new random id and
    /// build the `Connection` notice for the client. Every notice sent
    /// corresponds to exactly one entry inserted under its id.
    pub fn park_and_notify(&mut self, now_ms: u64, park_timeout_ms: u64, conn: u64, tunnel: u64)
        -> (r: Option<(SessionId, ServerMessage)>)
        requires
            old(self).wf(),
            now_ms + park_timeout_ms <= u64::MAX,
        ensures
            final(self).wf(),
            match r {
                Some(p) => !old(self)@.contains_key(p.0.id) && final(self)@ == old(self)@.insert(
                    p.0.id,
                    ParkedConn {
                        id: p.0.id,
                        deadline_ms: (now_ms + park_timeout_ms) as u64,
                        conn,
                        tunnel,
                    },
                ) && p.1@ == ServerMsgV::Connection(p.0.id),
                None => final(self)@ == old(self)@,
            },
            old(self)@ =~= Map::<u128, ParkedConn>::empty() ==> r is Some,
    {
        let id = fresh_id();
        let deadline = now_ms + park_timeout_ms;
        if self.insert(id, deadline, conn, tunnel) {
            Some((id, ServerMessage::Connection(id)))
        } else {
            None
        }
    }
}

/// Relies on uuid::Uuid::new_v4 for a fresh random id; nothing is
/// assumed of its value beyond being some 128-bit number.
#[verifier::external_body]
fn fresh_id() -> (r: SessionId) {
    SessionId { id: uuid::Uuid::new_v4().as_u128() }
}

/// At most one claim of an id succeeds: whatever instants the two
/// claims are made at, once the first has taken the entry the second
/// finds nothing.
pub proof fn lemma_claim_at_most_once(
    m: Map<u128, ParkedConn>,
    id: u128,
    now1: u64,
    now2: u64,
)
    ensures
        !(spec_claim(m, id, now1).1 is Some && spec_claim(spec_claim(m, id, now1).0, id, now2).1
            is Some),
{
}

/// An id unclaimed after its deadline is unreachable: a claim at or
/// after expiry yields nothing.
pub proof fn lemma_expired_unreachable(m: Map<u128, ParkedConn>, id: u128, now_ms: u64)
    requires
        m.contains_key(id) ==> now_ms > m[id].deadline_ms,
    ensures
        spec_claim(m, id, now_ms).1 is None,
{
}

} // verus!
