//! The registry of live sessions: at most one delivery channel per identity.

use vstd::prelude::*;

use crate::connection::{SessionState, WsClientInfo, WsConnection};
use crate::error::KohakuError;

verus! {

/// `tokio::sync::mpsc::UnboundedSender`, the sending side of a session's
/// delivery queue; carried through, never looked into.
#[verifier::external_type_specification]
#[verifier::external_body]
#[verifier::reject_recursive_types(T)]
pub struct ExUnboundedSender<T>(tokio::sync::mpsc::UnboundedSender<T>);

/// `tokio::sync::mpsc::UnboundedReceiver`, the receiving side of a session's
/// delivery queue; handed to the session's runner.
#[verifier::external_type_specification]
#[verifier::external_body]
#[verifier::reject_recursive_types(T)]
pub struct ExUnboundedReceiver<T>(tokio::sync::mpsc::UnboundedReceiver<T>);

/// Relies on `tokio::sync::mpsc::unbounded_channel`: a new unbounded queue.
#[verifier::external_body]
fn new_channel() -> (r: (tokio::sync::mpsc::UnboundedSender<String>, tokio::sync::mpsc::UnboundedReceiver<String>)) {
    tokio::sync::mpsc::unbounded_channel::<String>()
}

/// Relies on `UnboundedSender::send`: queues the message, and fails only when
/// the receiving side is gone; which of the two holds is not known here.
#[verifier::external_body]
fn deliver(tx: &tokio::sync::mpsc::UnboundedSender<String>, payload: &str) -> (r: bool) {
    tx.send(payload.to_string()).is_ok()
}

/// No two entries name the same identity.
pub open spec fn unique_keys<T>(s: Seq<(i32, T)>) -> bool {
    forall|i: int, j: int| 0 <= i < j < s.len() ==> #[trigger] s[i].0 != #[trigger] s[j].0
}

/// The identity ids of the entries, in order.
pub open spec fn ids_of<T>(s: Seq<(i32, T)>) -> Seq<i32> {
    s.map_values(|e: (i32, T)| e.0)
}

/// The entries of `after` are those of `before` whose identity is not in
/// `gone`.
pub open spec fn kept_except<T>(before: Seq<(i32, T)>, after: Seq<(i32, T)>, gone: Seq<i32>) -> bool {
    &&& unique_keys(after)
    &&& forall|e: (i32, T)| #[trigger] after.contains(e) <==> (before.contains(e) && !gone.contains(e.0))
}

/// The targets of a broadcast: the given ids, or else the registered ones.
pub open spec fn targets_of(key_ids: Option<Vec<i32>>, registered: Seq<i32>) -> Seq<i32> {
    match key_ids {
        Some(v) => v@,
        None => registered,
    }
}

/// The targets whose delivery failed, in order.
pub open spec fn undelivered(targets: Seq<i32>, delivered: Seq<bool>) -> Seq<i32>
    decreases targets.len(),
{
    if targets.len() == 0 || delivered.len() == 0 {
        Seq::empty()
    } else {
        let rest = undelivered(targets.drop_last(), delivered.drop_last());
        if delivered.last() {
            rest
        } else {
            rest.push(targets.last())
        }
    }
}

/// Number of successful deliveries.
pub open spec fn delivered_count(delivered: Seq<bool>) -> nat
    decreases delivered.len(),
{
    if delivered.len() == 0 {
        0
    } else {
        delivered_count(delivered.drop_last()) + if delivered.last() {
            1nat
        } else {
            0nat
        }
    }
}

/// Tracks the delivery channel of each live session, keyed by identity id.
pub struct WsConnectionManager {
    connections: Vec<(i32, tokio::sync::mpsc::UnboundedSender<String>)>,
}

impl WsConnectionManager {
    /// The registry entries: identity id and delivery channel.
    pub closed spec fn entries(&self) -> Seq<(i32, tokio::sync::mpsc::UnboundedSender<String>)> {
        self.connections@
    }

    /// The registered identity ids.
    pub open spec fn ids(&self) -> Seq<i32> {
        ids_of(self.entries())
    }

    pub open spec fn wf(&self) -> bool {
        unique_keys(self.entries())
    }

    /// An empty registry.
    pub fn new() -> (r: Self)
        ensures
            r.entries().len() == 0,
            r.wf(),
    {
        WsConnectionManager { connections: Vec::new() }
    }

    /// Position of the entry of `key_id`.
    fn find(&self, key_id: i32) -> (r: Option<usize>)
        ensures
            r matches Some(i) ==> i < self.entries().len() && self.entries()[i as int].0 == key_id,
            r is None <==> !self.ids().contains(key_id),
    {
        let mut i: usize = 0;
        while i < self.connections.len()
            invariant
                i <= self.connections@.len(),
                forall|j: int| 0 <= j < i ==> #[trigger] self.connections@[j].0 != key_id,
            decreases self.connections.len() - i,
        {
            if self.connections[i].0 == key_id {
                assert(self.ids()[i as int] == key_id);
                return Some(i);
            }
            i = i + 1;
        }
        proof {
            if self.ids().contains(key_id) {
                let k = choose|k: int| 0 <= k < self.ids().len() && self.ids()[k] == key_id;
                assert(self.connections@[k].0 == key_id);
            }
        }
        None
    }

    /// Whether a session of `key_id` is registered.
    pub fn is_connected(&self, key_id: i32) -> (r: bool)
        ensures
            r == self.ids().contains(key_id),
    {
        self.find(key_id).is_some()
    }

    /// Number of registered sessions.
    pub fn connection_count(&self) -> (r: usize)
        ensures
            r == self.entries().len(),
    {
        self.connections.len()
    }

    /// Registers a session for `info.key_id` and returns it, ready to start.
    /// An identity that already has a session is refused, and nothing
    /// changes.
    pub fn add_connection(&mut self, info: WsClientInfo) -> (r: Option<WsConnection>)
        requires
            old(self).wf(),
        ensures
            final(self).wf(),
            old(self).ids().contains(info.key_id) ==> r is None && final(self).entries() == old(self).entries(),
            !old(self).ids().contains(info.key_id) ==> (r matches Some(c) && c.client() == info
                && c.fresh() && final(self).entries().drop_last() == old(self).entries()
                && final(self).entries().last().0 == info.key_id),
            final(self).ids() == if old(self).ids().contains(info.key_id) {
                old(self).ids()
            } else {
                old(self).ids().push(info.key_id)
            },
    {
        if self.find(info.key_id).is_some() {
            return None;
        }
        let (tx, rx) = new_channel();
        let key_id = info.key_id;
        let ghost before = self.connections@;
        self.connections.push((key_id, tx));
        proof {
            assert(self.connections@.drop_last() =~= before);
            assert(self.ids() =~= ids_of(before).push(key_id));
            assert forall|i: int, j: int| 0 <= i < j < self.connections@.len() implies #[trigger] self.connections@[i].0
                != #[trigger] self.connections@[j].0 by {
                if j == before.len() {
                    assert(ids_of(before)[i] == before[i].0);
                }
            }
        }
        Some(WsConnection::new(info, rx))
    }

    /// Removes the session of `key_id`, where there is one.
    pub fn remove_connection(&mut self, key_id: i32)
        requires
            old(self).wf(),
        ensures
            kept_except(old(self).entries(), final(self).entries(), seq![key_id]),
            !final(self).ids().contains(key_id),
            forall|x: i32| x != key_id ==> (#[trigger] final(self).ids().contains(x) <==> old(self).ids().contains(x)),
            final(self).entries().len() == old(self).entries().len() - if old(self).ids().contains(key_id) {
                1int
            } else {
                0int
            },
    {
        let ghost before = self.connections@;
        match self.find(key_id) {
            None => {
                proof {
                    assert forall|e: (i32, tokio::sync::mpsc::UnboundedSender<String>)| #[trigger]
                        before.contains(e) implies e.0 != key_id by {
                        let k = choose|k: int| 0 <= k < before.len() && before[k] == e;
                        assert(ids_of(before)[k] == e.0);
                    }
                }
            },
            Some(i) => {
                self.connections.remove(i);
                proof {
                    assert(seq![key_id][0] == key_id);
                    let after = self.connections@;
                    assert(after =~= before.remove(i as int));
                    assert forall|e: (i32, tokio::sync::mpsc::UnboundedSender<String>)| #[trigger]
                        after.contains(e) <==> (before.contains(e) && !seq![key_id].contains(e.0)) by {
                        if after.contains(e) {
                            let k = choose|k: int| 0 <= k < after.len() && after[k] == e;
                            if k < i {
                                assert(before[k] == e);
                                assert(before[k].0 != before[i as int].0);
                            } else {
                                assert(before[k + 1] == e);
                                assert(before[k + 1].0 != before[i as int].0);
                            }
                        }
                        if before.contains(e) && !seq![key_id].contains(e.0) {
                            let k = choose|k: int| 0 <= k < before.len() && before[k] == e;
                            assert(k != i);
                            if k < i {
                                assert(after[k] == e);
                            } else {
                                assert(after[k - 1] == e);
                            }
                        }
                        if seq![key_id].contains(e.0) {
                            assert(e.0 == key_id);
                        }
                    }
                    assert forall|a: int, b: int| 0 <= a < b < after.len() implies #[trigger] after[a].0
                        != #[trigger] after[b].0 by {
                        let a2 = if a < i { a } else { a + 1 };
                        let b2 = if b < i { b } else { b + 1 };
                        assert(after[a] == before[a2]);
                        assert(after[b] == before[b2]);
                    }
                }
            },
        }
        proof {
            let after = self.connections@;
            assert forall|x: i32| x != key_id implies (#[trigger] ids_of(after).contains(x) <==> ids_of(
                before,
            ).contains(x)) by {
                if ids_of(after).contains(x) {
                    let k = choose|k: int| 0 <= k < ids_of(after).len() && ids_of(after)[k] == x;
                    assert(after.contains(after[k]));
                    let m = choose|m: int| 0 <= m < before.len() && before[m] == after[k];
                    assert(ids_of(before)[m] == x);
                }
                if ids_of(before).contains(x) {
                    let k = choose|k: int| 0 <= k < ids_of(before).len() && ids_of(before)[k] == x;
                    assert(before.contains(before[k]));
                    assert(!seq![key_id].contains(x)) by {
                        if seq![key_id].contains(x) {
                            let q = choose|q: int| 0 <= q < 1 && seq![key_id][q] == x;
                            assert(seq![key_id][q] == key_id);
                        }
                    }
                    assert(after.contains(before[k]));
                    let m = choose|m: int| 0 <= m < after.len() && after[m] == before[k];
                    assert(ids_of(after)[m] == x);
                }
            }
            if ids_of(after).contains(key_id) {
                let k = choose|k: int| 0 <= k < ids_of(after).len() && ids_of(after)[k] == key_id;
                assert(after.contains(after[k]));
                assert(seq![key_id].contains(key_id));
            }
        }
    }

    /// Queues `payload` on the session of `key_id`. No session there is
    /// `NotFound`; a session whose receiving side is gone is a
    /// `WebsocketError`.
    pub fn send_to_client(&self, payload: &str, key_id: i32) -> (r: Result<(), KohakuError>)
        ensures
            !self.ids().contains(key_id) <==> (r matches Err(e) && e is NotFound),
            r matches Err(e) ==> e is NotFound || e is WebsocketError,
    {
        match self.find(key_id) {
            Some(i) => {
                if deliver(&self.connections[i].1, payload) {
                    Ok(())
                } else {
                    Err(KohakuError::WebsocketError(String::from_str("Failed to send to client")))
                }
            },
            None => Err(KohakuError::NotFound(String::from_str("Client not found"))),
        }
    }

    /// Sends `payload` to each target: the given ids, or else every identity
    /// registered when the call starts. Each delivery is independent; the
    /// outcomes go to [`Self::settle`], which deregisters the targets whose
    /// delivery failed. Answers the number of deliveries and the failed
    /// targets.
    pub fn broadcast(&mut self, payload: &str, key_ids: Option<Vec<i32>>) -> (r: (usize, Vec<i32>))
        requires
            old(self).wf(),
        ensures
            final(self).wf(),
            r.0 + r.1@.len() == targets_of(key_ids, old(self).ids()).len(),
            exists|d: Seq<bool>|
                #![trigger undelivered(targets_of(key_ids, old(self).ids()), d)]
                d.len() == targets_of(key_ids, old(self).ids()).len() && r.1@ == undelivered(
                    targets_of(key_ids, old(self).ids()),
                    d,
                ) && r.0 == delivered_count(d) && forall|i: int|
                    0 <= i < d.len() && !old(self).ids().contains(#[trigger] targets_of(key_ids, old(self).ids())[i])
                        ==> !d[i],
            kept_except(old(self).entries(), final(self).entries(), r.1@),
    {
        let ghost tg = targets_of(key_ids, old(self).ids());
        let targets: Vec<i32> = match key_ids {
            Some(given) => given,
            None => self.snapshot_ids(),
        };
        let mut delivered: Vec<bool> = Vec::new();
        let mut i: usize = 0;
        while i < targets.len()
            invariant
                self.wf(),
                i <= targets@.len(),
                delivered@.len() == i,
                forall|j: int| 0 <= j < i && !self.ids().contains(#[trigger] targets@[j]) ==> !delivered@[j],
            decreases targets.len() - i,
        {
            let ok = self.send_to_client(payload, targets[i]).is_ok();
            delivered.push(ok);
            i = i + 1;
        }
        let ghost before = self.ids();
        let r = self.settle(&targets, &delivered);
        proof {
            assert(before == old(self).ids());
            assert(tg == targets@);
            assert(r.1@ == undelivered(tg, delivered@));
            assert(forall|i: int| 0 <= i < tg.len() && !old(self).ids().contains(#[trigger] tg[i]) ==> !delivered@[i]);
            assert(r.0 + r.1@.len() == tg.len());
            assert(kept_except(old(self).entries(), self.entries(), r.1@));
            let d = delivered@;
            assert(d.len() == tg.len() && r.1@ == undelivered(tg, d) && r.0 == delivered_count(d) && forall|i: int|
                0 <= i < tg.len() && !old(self).ids().contains(#[trigger] tg[i]) ==> !d[i]);
        }
        r
    }

    /// Settles a delivery pass: `delivered[i]` tells whether `targets[i]` got
    /// the payload. Answers how many did and, in order, the targets that did
    /// not; those are deregistered.
    pub fn settle(&mut self, targets: &Vec<i32>, delivered: &Vec<bool>) -> (r: (usize, Vec<i32>))
        requires
            old(self).wf(),
            targets@.len() == delivered@.len(),
        ensures
            final(self).wf(),
            r.0 == delivered_count(delivered@),
            r.1@ == undelivered(targets@, delivered@),
            r.0 + r.1@.len() == targets@.len(),
            kept_except(old(self).entries(), final(self).entries(), r.1@),
    {
        let mut count: usize = 0;
        let mut failed: Vec<i32> = Vec::new();
        let mut i: usize = 0;
        while i < targets.len()
            invariant
                targets@.len() == delivered@.len(),
                i <= targets@.len(),
                count == delivered_count(delivered@.subrange(0, i as int)),
                failed@ == undelivered(targets@.subrange(0, i as int), delivered@.subrange(0, i as int)),
                count + failed@.len() == i,
            decreases targets.len() - i,
        {
            proof {
                assert(targets@.subrange(0, i + 1).drop_last() =~= targets@.subrange(0, i as int));
                assert(delivered@.subrange(0, i + 1).drop_last() =~= delivered@.subrange(0, i as int));
                assert(targets@.subrange(0, i + 1).last() == targets@[i as int]);
                assert(delivered@.subrange(0, i + 1).last() == delivered@[i as int]);
            }
            if delivered[i] {
                count = count + 1;
            } else {
                failed.push(targets[i]);
            }
            i = i + 1;
        }
        assert(targets@.subrange(0, targets@.len() as int) =~= targets@);
        assert(delivered@.subrange(0, delivered@.len() as int) =~= delivered@);
        self.remove_all(&failed);
        (count, failed)
    }

    /// Tears a session down: it is closed for good and its identity is no
    /// longer registered, so nothing more is queued for it.
    pub fn end_session(&mut self, conn: &mut WsConnection)
        requires
            old(self).wf(),
        ensures
            final(self).wf(),
            final(conn).state() == SessionState::Closed,
            final(conn).client() == old(conn).client(),
            !final(self).ids().contains(old(conn).client().key_id),
            kept_except(old(self).entries(), final(self).entries(), seq![old(conn).client().key_id]),
    {
        conn.finish();
        let key_id = conn.key_id();
        self.remove_connection(key_id);
    }

    /// The registered identity ids, in order.
    fn snapshot_ids(&self) -> (r: Vec<i32>)
        ensures
            r@ == self.ids(),
    {
        let mut r: Vec<i32> = Vec::new();
        let mut i: usize = 0;
        while i < self.connections.len()
            invariant
                i <= self.connections@.len(),
                r@ == self.ids().subrange(0, i as int),
            decreases self.connections.len() - i,
        {
            r.push(self.connections[i].0);
            i = i + 1;
            assert(r@ =~= self.ids().subrange(0, i as int));
        }
        assert(r@ =~= self.ids());
        r
    }

    /// Removes the session of every id in `gone`.
    fn remove_all(&mut self, gone: &Vec<i32>)
        requires
            old(self).wf(),
        ensures
            final(self).wf(),
            kept_except(old(self).entries(), final(self).entries(), gone@),
    {
        let ghost before = self.connections@;
        let mut i: usize = 0;
        while i < gone.len()
            invariant
                self.wf(),
                i <= gone@.len(),
                kept_except(before, self.connections@, gone@.subrange(0, i as int)),
            decreases gone.len() - i,
        {
            let ghost cur = self.connections@;
            self.remove_connection(gone[i]);
            proof {
                let next = gone@.subrange(0, i + 1);
                assert(next =~= gone@.subrange(0, i as int).push(gone@[i as int]));
                assert forall|e: (i32, tokio::sync::mpsc::UnboundedSender<String>)| #[trigger]
                    self.connections@.contains(e) <==> (before.contains(e) && !next.contains(e.0)) by {
                    if next.contains(e.0) && !gone@.subrange(0, i as int).contains(e.0) {
                        let k = choose|k: int| 0 <= k < next.len() && next[k] == e.0;
                        assert(k == i);
                        assert(seq![gone@[i as int]].contains(e.0)) by {
                            assert(seq![gone@[i as int]][0] == e.0);
                        }
                    }
                    if gone@.subrange(0, i as int).contains(e.0) {
                        let k = choose|k: int| 0 <= k < i && gone@.subrange(0, i as int)[k] == e.0;
                        assert(next[k] == e.0);
                    }
                    if seq![gone@[i as int]].contains(e.0) {
                        assert(next[i as int] == e.0);
                    }
                }
            }
            i = i + 1;
        }
        assert(gone@.subrange(0, gone@.len() as int) =~= gone@);
    }
}

/// Puts a new registry in `slot`, once: a second initialisation fails and
/// leaves the first registry in place.
pub fn init_manager(slot: &mut Option<WsConnectionManager>) -> (r: Result<(), KohakuError>)
    ensures
        (*old(slot)) is Some ==> r is Err && *final(slot) == *old(slot),
        (*old(slot)) is None ==> r is Ok && ((*final(slot)) matches Some(m) && m.entries().len() == 0 && m.wf()),
        r matches Err(e) ==> e is WebsocketError,
{
    if slot.is_some() {
        return Err(
            KohakuError::WebsocketError(String::from_str("Websocket Connection Manager already initialized")),
        );
    }
    *slot = Some(WsConnectionManager::new());
    Ok(())
}

/// The registry in `slot`, where one was put.
pub fn get_manager(slot: &Option<WsConnectionManager>) -> (r: Result<&WsConnectionManager, KohakuError>)
    ensures
        slot matches Some(m) ==> (r matches Ok(t) && *t == m),
        slot is None ==> (r matches Err(e) && e is WebsocketError),
{
    match slot {
        Some(m) => Ok(m),
        None => Err(
            KohakuError::WebsocketError(
                String::from_str("Websocket Connection Manager not initialized - call init_manager first!"),
            ),
        ),
    }
}

} // verus!

verus! {

/// While an identity has a session, a new one for it is refused (see
/// `add_connection`); removing another identity keeps its session, and
/// removing the identity itself frees its place.
pub proof fn lemma_session_slot(m1: WsConnectionManager, m2: WsConnectionManager, id: i32, removed: i32)
    requires
        m1.wf(),
        m1.ids().contains(id),
        kept_except(m1.entries(), m2.entries(), seq![removed]),
    ensures
        removed != id ==> m2.ids().contains(id),
        removed == id ==> !m2.ids().contains(id),
{
    let k = choose|k: int| 0 <= k < m1.ids().len() && m1.ids()[k] == id;
    let e = m1.entries()[k];
    assert(m1.entries().contains(e));
    if removed != id {
        assert(!seq![removed].contains(id)) by {
            if seq![removed].contains(id) {
                let q = choose|q: int| 0 <= q < 1 && seq![removed][q] == id;
            }
        }
        assert(m2.entries().contains(e));
        let j = choose|j: int| 0 <= j < m2.entries().len() && m2.entries()[j] == e;
        assert(m2.ids()[j] == id);
    } else {
        assert(seq![removed][0] == id);
        if m2.ids().contains(id) {
            let j = choose|j: int| 0 <= j < m2.ids().len() && m2.ids()[j] == id;
            assert(m2.entries().contains(m2.entries()[j]));
        }
    }
}

} // verus!
