//! Peer liveness: the registry that owns callback proxies, and the
//! disconnect watcher that retires every proxy of a peer once that peer's
//! connection closes.
//!
//! Cleanup is deterministic and idempotent: delivering the same disconnect
//! notification twice leaves the same end state as delivering it once.

use vstd::prelude::*;

use crate::error::BusError;
use crate::proxy::{invoke_matches, invoke_model, BusEndpoint, CallbackProxy, NotifModel,
    OutboundNotification, ProxyModel};
use crate::value::{views_of, ValModel, Value};

verus! {

/// The same proxy, marked unusable.
pub open spec fn retired_model(p: ProxyModel) -> ProxyModel {
    ProxyModel { retired: true, ..p }
}

/// The views of the registry's entries.
pub open spec fn entry_views(s: Seq<(u64, CallbackProxy)>) -> Seq<(u64, ProxyModel)> {
    Seq::new(s.len(), |i: int| (s[i].0, s[i].1@))
}

/// The proxy a registry resolves an id to: the most recent registration
/// under that id.
pub open spec fn reg_find(s: Seq<(u64, ProxyModel)>, id: u64) -> Option<ProxyModel>
    decreases s.len(),
{
    if s.len() == 0 {
        None
    } else if s.last().0 == id {
        Some(s.last().1)
    } else {
        reg_find(s.drop_last(), id)
    }
}

/// Whether an id is currently registered and usable: it resolves to a proxy
/// that is not retired.
pub open spec fn registered(s: Seq<(u64, ProxyModel)>, id: u64) -> bool {
    reg_find(s, id) matches Some(pm) && !pm.retired
}

/// What a call through the registry returns: `ProxyRetired` for an id that
/// never was or no longer is usable, and otherwise what the proxy itself
/// returns.
pub open spec fn callback_call_model(
    s: Seq<(u64, ProxyModel)>,
    id: u64,
    method: Seq<char>,
    args: Seq<ValModel>,
) -> Result<NotifModel, BusError> {
    match reg_find(s, id) {
        None => Err(BusError::ProxyRetired),
        Some(pm) => invoke_model(pm, method, args),
    }
}

/// All entries under the given id, marked retired.
pub open spec fn retire_one(s: Seq<(u64, ProxyModel)>, id: u64) -> Seq<(u64, ProxyModel)> {
    Seq::new(
        s.len(),
        |i: int|
            if s[i].0 == id {
                (s[i].0, retired_model(s[i].1))
            } else {
                s[i]
            },
    )
}

/// Whether a proxy id is attached to the watcher at all.
pub open spec fn attached(w: Seq<(u64, u64)>, id: u64) -> bool {
    exists|k: int| 0 <= k < w.len() && (#[trigger] w[k]).1 == id
}

/// Whether a proxy id is attached under the given connection.
pub open spec fn attached_under(w: Seq<(u64, u64)>, conn: u64, id: u64) -> bool {
    exists|k: int| 0 <= k < w.len() && (#[trigger] w[k]) == (conn, id)
}

/// Every entry whose id is attached under the connection, marked retired.
pub open spec fn retire_marked(
    s: Seq<(u64, ProxyModel)>,
    w: Seq<(u64, u64)>,
    conn: u64,
) -> Seq<(u64, ProxyModel)> {
    Seq::new(
        s.len(),
        |i: int|
            if attached_under(w, conn, s[i].0) {
                (s[i].0, retired_model(s[i].1))
            } else {
                s[i]
            },
    )
}

/// The watcher's entries with every entry of the given connection removed,
/// in order.
pub open spec fn drop_conn(w: Seq<(u64, u64)>, conn: u64) -> Seq<(u64, u64)>
    decreases w.len(),
{
    if w.len() == 0 {
        Seq::empty()
    } else if w[0].0 == conn {
        drop_conn(w.drop_first(), conn)
    } else {
        seq![w[0]] + drop_conn(w.drop_first(), conn)
    }
}

/// The entries the watcher keeps and those retired in the registry, after
/// one disconnect of the connection.
pub open spec fn cleanup_post(
    reg_pre: Seq<(u64, ProxyModel)>,
    reg_post: Seq<(u64, ProxyModel)>,
    w_pre: Seq<(u64, u64)>,
    w_post: Seq<(u64, u64)>,
    conn: u64,
) -> bool {
    &&& reg_post == retire_marked(reg_pre, w_pre, conn)
    &&& w_post == drop_conn(w_pre, conn)
}

/// Mathematical model of a [`CallbackRegistry`].
#[verifier::ext_equal]
pub struct RegModel {
    pub entries: Seq<(u64, ProxyModel)>,
    pub next_id: u64,
}

/// Owns the callback proxies a service registered, each under an id.
pub struct CallbackRegistry {
    entries: Vec<(u64, CallbackProxy)>,
    next_id: u64,
}

impl View for CallbackRegistry {
    type V = RegModel;

    closed spec fn view(&self) -> RegModel {
        RegModel { entries: entry_views(self.entries@), next_id: self.next_id }
    }
}

impl CallbackRegistry {
    /// A registry that holds nothing.
    pub fn new() -> (r: CallbackRegistry)
        ensures
            r@.entries == Seq::<(u64, ProxyModel)>::empty(),
            r@.next_id == 0,
    {
        let r = CallbackRegistry { entries: Vec::new(), next_id: 0 };
        assert(r@.entries =~= Seq::<(u64, ProxyModel)>::empty());
        r
    }

    /// The id the next registration will get; ids are never reused.
    pub fn next_id(&self) -> (r: u64)
        ensures
            r == self@.next_id,
    {
        self.next_id
    }

    /// Takes ownership of a proxy and hands back the id it is registered
    /// under.
    pub fn register_callback(&mut self, p: CallbackProxy) -> (id: u64)
        requires
            old(self)@.next_id < u64::MAX,
        ensures
            id == old(self)@.next_id,
            final(self)@.next_id == id + 1,
            final(self)@.entries == old(self)@.entries.push((id, p@)),
    {
        let id = self.next_id;
        let ghost before = self@.entries;
        self.next_id = id + 1;
        self.entries.push((id, p));
        assert(self@.entries =~= before.push((id, p@)));
        id
    }

    /// Calls one method through the proxy registered under an id.  An id
    /// that is not registered, or whose proxy was retired, fails with
    /// `ProxyRetired`; otherwise the proxy's own contract applies.
    #[verifier::loop_isolation(false)]
    pub fn invoke_callback(&self, id: u64, method: &String, args: &Vec<Value>) -> (r: Result<
        OutboundNotification,
        BusError,
    >)
        ensures
            invoke_matches(r, callback_call_model(self@.entries, id, method@, views_of(args@))),
    {
        let ghost em = self@.entries;
        let mut i: usize = self.entries.len();
        assert(em.take(em.len() as int) =~= em);
        while i > 0
            invariant
                i <= self.entries@.len(),
                reg_find(em, id) == reg_find(em.take(i as int), id),
            decreases i,
        {
            i = i - 1;
            proof {
                assert(em.take(i as int + 1).last() == em[i as int]);
                assert(em.take(i as int + 1).drop_last() =~= em.take(i as int));
            }
            if self.entries[i].0 == id {
                return self.entries[i].1.invoke(method, args);
            }
        }
        assert(em.take(0) =~= Seq::<(u64, ProxyModel)>::empty());
        Err(BusError::ProxyRetired)
    }

    /// Marks every proxy registered under the id as retired.
    #[verifier::loop_isolation(false)]
    pub fn retire_where(&mut self, id: u64)
        ensures
            final(self)@.next_id == old(self)@.next_id,
            final(self)@.entries == retire_one(old(self)@.entries, id),
    {
        let ghost e0 = old(self)@.entries;
        let n = self.entries.len();
        let mut i: usize = 0;
        while i < n
            invariant
                i <= n,
                n == self.entries@.len(),
                self@.next_id == old(self)@.next_id,
                self@.entries.len() == e0.len(),
                forall|j: int|
                    0 <= j < i ==> #[trigger] self@.entries[j] == retire_one(e0, id)[j],
                forall|j: int| i <= j < e0.len() ==> #[trigger] self@.entries[j] == e0[j],
            decreases n - i,
        {
            if self.entries[i].0 == id {
                let ghost pre = self@.entries;
                proof {
                    assert(pre[i as int] == e0[i as int]);
                }
                let entry = self.entries.remove(i);
                let (eid, mut pr) = entry;
                proof {
                    assert(eid == e0[i as int].0);
                    assert(pr@ == e0[i as int].1);
                }
                pr.retire();
                self.entries.insert(i, (eid, pr));
                proof {
                    assert(pr@ == retired_model(e0[i as int].1));
                    assert(self@.entries =~= pre.update(i as int, (eid, pr@)));
                }
            }
            i += 1;
        }
        assert(self@.entries =~= retire_one(e0, id));
    }
}

/// Observes peer liveness: holds, per connection, the proxy ids to retire
/// when that connection closes.  A proxy appears in at most one entry; the
/// watcher never owns a proxy and never extends its lifetime.
pub struct DisconnectWatcher {
    watched: Vec<(u64, u64)>,
}

impl View for DisconnectWatcher {
    type V = Seq<(u64, u64)>;

    closed spec fn view(&self) -> Seq<(u64, u64)> {
        self.watched@
    }
}

impl DisconnectWatcher {
    /// A watcher with nothing attached.
    pub fn new() -> (r: DisconnectWatcher)
        ensures
            r@ == Seq::<(u64, u64)>::empty(),
    {
        let r = DisconnectWatcher { watched: Vec::new() };
        assert(r@ =~= Seq::<(u64, u64)>::empty());
        r
    }

    /// Attaches a proxy id under the connection that owns it.  A proxy is
    /// attached at most once.
    pub fn attach(&mut self, conn: u64, proxy_id: u64)
        requires
            !attached(old(self)@, proxy_id),
        ensures
            final(self)@ == old(self)@.push((conn, proxy_id)),
    {
        self.watched.push((conn, proxy_id));
    }

    /// Attaches any bus endpoint under its own connection: the uniform entry
    /// point that spares callers per-interface cleanup code.
    pub fn attach_endpoint<P: BusEndpoint>(&mut self, p: &P, proxy_id: u64)
        requires
            !attached(old(self)@, proxy_id),
        ensures
            final(self)@ == old(self)@.push((p.endpoint_owner(), proxy_id)),
    {
        let conn = p.owner_connection();
        self.attach(conn, proxy_id);
    }

    /// Handles one disconnect notification for a connection: every proxy
    /// attached under it is retired in the registry that holds it, and its
    /// watcher entries are removed.  Delivering the same notification again
    /// finds nothing left to do.
    #[verifier::loop_isolation(false)]
    pub fn on_peer_disconnected(&mut self, conn: u64, reg: &mut CallbackRegistry)
        ensures
            final(reg)@.next_id == old(reg)@.next_id,
            cleanup_post(
                old(reg)@.entries,
                final(reg)@.entries,
                old(self)@,
                final(self)@,
                conn,
            ),
    {
        let ghost e0 = old(reg)@.entries;
        let ghost w = old(self)@;
        let n = self.watched.len();
        let mut k: usize = 0;
        proof {
            assert(reg@.entries =~= retire_upto(e0, w, conn, 0));
        }
        while k < n
            invariant
                k <= n,
                self@ == w,
                n == w.len(),
                reg@.next_id == old(reg)@.next_id,
                reg@.entries == retire_upto(e0, w, conn, k as int),
            decreases n - k,
        {
            let wc = self.watched[k].0;
            let wid = self.watched[k].1;
            if wc == conn {
                let ghost pre = reg@.entries;
                reg.retire_where(wid);
                proof {
                    lemma_retire_step_hit(e0, w, conn, k as int);
                }
            } else {
                proof {
                    lemma_retire_step_miss(e0, w, conn, k as int);
                }
            }
            k += 1;
        }
        proof {
            lemma_retire_upto_full(e0, w, conn);
        }
        let mut i: usize = 0;
        let ghost rdone = reg@.entries;
        proof {
            assert(self@.take(0) =~= Seq::<(u64, u64)>::empty());
            assert(self@.skip(0) =~= self@);
            assert(Seq::<(u64, u64)>::empty() + drop_conn(self@, conn) =~= drop_conn(
                self@,
                conn,
            ));
        }
        while i < self.watched.len()
            invariant
                i <= self.watched@.len(),
                reg@.entries == rdone,
                reg@.next_id == old(reg)@.next_id,
                forall|j: int| 0 <= j < i ==> (#[trigger] self@[j]).0 != conn,
                drop_conn(w, conn) == self@.take(i as int) + drop_conn(
                    self@.skip(i as int),
                    conn,
                ),
            decreases self.watched@.len() - i,
        {
            proof {
                assert(self@.skip(i as int)[0] == self@[i as int]);
                assert(self@.skip(i as int).drop_first() =~= self@.skip(i as int + 1));
            }
            if self.watched[i].0 == conn {
                let ghost cur = self@;
                self.watched.remove(i);
                proof {
                    assert(self@.take(i as int) =~= cur.take(i as int));
                    assert(self@.skip(i as int) =~= cur.skip(i as int + 1));
                }
            } else {
                proof {
                    let cur = self@;
                    assert(cur.take(i as int + 1) =~= cur.take(i as int).push(cur[i as int]));
                    assert(cur.take(i as int).push(cur[i as int]) + drop_conn(
                        cur.skip(i as int + 1),
                        conn,
                    ) =~= cur.take(i as int) + (seq![cur[i as int]] + drop_conn(
                        cur.skip(i as int + 1),
                        conn,
                    )));
                }
                i += 1;
            }
        }
        proof {
            assert(self@.take(self@.len() as int) =~= self@);
            assert(self@.skip(self@.len() as int) =~= Seq::<(u64, u64)>::empty());
            assert(self@ + Seq::<(u64, u64)>::empty() =~= self@);
        }
    }
}

/// The registry entries after the first `k` watcher entries have been
/// processed for a disconnect of the connection.
pub open spec fn retire_upto(
    s: Seq<(u64, ProxyModel)>,
    w: Seq<(u64, u64)>,
    conn: u64,
    k: int,
) -> Seq<(u64, ProxyModel)> {
    Seq::new(
        s.len(),
        |i: int|
            if exists|t: int| 0 <= t < k && (#[trigger] w[t]) == (conn, s[i].0) {
                (s[i].0, retired_model(s[i].1))
            } else {
                s[i]
            },
    )
}

proof fn lemma_retire_step_hit(s: Seq<(u64, ProxyModel)>, w: Seq<(u64, u64)>, conn: u64, k: int)
    requires
        0 <= k < w.len(),
        w[k].0 == conn,
    ensures
        retire_one(retire_upto(s, w, conn, k), w[k].1) == retire_upto(s, w, conn, k + 1),
{
    let lhs = retire_one(retire_upto(s, w, conn, k), w[k].1);
    let rhs = retire_upto(s, w, conn, k + 1);
    assert forall|i: int| 0 <= i < s.len() implies lhs[i] == rhs[i] by {
        if s[i].0 == w[k].1 {
            assert(w[k] == (conn, s[i].0));
        } else {
            assert(forall|t: int| 0 <= t < k + 1 && (#[trigger] w[t]) == (conn, s[i].0) ==> t < k);
        }
    }
    assert(lhs =~= rhs);
}

proof fn lemma_retire_step_miss(s: Seq<(u64, ProxyModel)>, w: Seq<(u64, u64)>, conn: u64, k: int)
    requires
        0 <= k < w.len(),
        w[k].0 != conn,
    ensures
        retire_upto(s, w, conn, k) == retire_upto(s, w, conn, k + 1),
{
    let lhs = retire_upto(s, w, conn, k);
    let rhs = retire_upto(s, w, conn, k + 1);
    assert forall|i: int| 0 <= i < s.len() implies lhs[i] == rhs[i] by {
        assert(forall|t: int| 0 <= t < k + 1 && (#[trigger] w[t]) == (conn, s[i].0) ==> t < k);
    }
    assert(lhs =~= rhs);
}

proof fn lemma_retire_upto_full(s: Seq<(u64, ProxyModel)>, w: Seq<(u64, u64)>, conn: u64)
    ensures
        retire_upto(s, w, conn, w.len() as int) == retire_marked(s, w, conn),
{
    assert(retire_upto(s, w, conn, w.len() as int) =~= retire_marked(s, w, conn));
}


proof fn lemma_reg_find_retired(
    s: Seq<(u64, ProxyModel)>,
    w: Seq<(u64, u64)>,
    conn: u64,
    id: u64,
)
    requires
        attached_under(w, conn, id),
    ensures
        match reg_find(retire_marked(s, w, conn), id) {
            Some(pm) => pm.retired,
            None => true,
        },
    decreases s.len(),
{
    let rm = retire_marked(s, w, conn);
    if s.len() == 0 {
    } else {
        assert(rm.last() == (if attached_under(w, conn, s.last().0) {
            (s.last().0, retired_model(s.last().1))
        } else {
            s.last()
        }));
        if s.last().0 == id {
            assert(attached_under(w, conn, s.last().0));
        } else {
            assert(rm.drop_last() =~= retire_marked(s.drop_last(), w, conn));
            lemma_reg_find_retired(s.drop_last(), w, conn, id);
        }
    }
}

/// Disconnect cleanup: once a connection's disconnect has been handled,
/// every proxy that was attached under it is gone from the registry that
/// held it, and any call attempted through it fails with `ProxyRetired`,
/// whatever the method and arguments.
pub proof fn lemma_disconnect_cleanup(
    entries: Seq<(u64, ProxyModel)>,
    w: Seq<(u64, u64)>,
    conn: u64,
    id: u64,
    method: Seq<char>,
    args: Seq<ValModel>,
)
    requires
        attached_under(w, conn, id),
    ensures
        !registered(retire_marked(entries, w, conn), id),
        callback_call_model(retire_marked(entries, w, conn), id, method, args) == Err::<
            NotifModel,
            BusError,
        >(BusError::ProxyRetired),
{
    lemma_reg_find_retired(entries, w, conn, id);
}

proof fn lemma_drop_conn_clean(w: Seq<(u64, u64)>, conn: u64)
    ensures
        forall|k: int|
            0 <= k < drop_conn(w, conn).len() ==> (#[trigger] drop_conn(w, conn)[k]).0 != conn,
    decreases w.len(),
{
    if w.len() != 0 {
        lemma_drop_conn_clean(w.drop_first(), conn);
        let rest = drop_conn(w.drop_first(), conn);
        if w[0].0 != conn {
            assert forall|k: int|
                0 <= k < drop_conn(w, conn).len() implies (#[trigger] drop_conn(w, conn)[k]).0
                != conn by {
                if k > 0 {
                    assert(drop_conn(w, conn)[k] == rest[k - 1]);
                }
            }
        }
    }
}

proof fn lemma_drop_conn_fixed(w: Seq<(u64, u64)>, conn: u64)
    requires
        forall|k: int| 0 <= k < w.len() ==> (#[trigger] w[k]).0 != conn,
    ensures
        drop_conn(w, conn) == w,
    decreases w.len(),
{
    if w.len() == 0 {
        assert(drop_conn(w, conn) =~= w);
    } else {
        assert(forall|k: int|
            0 <= k < w.drop_first().len() ==> (#[trigger] w.drop_first()[k]).0 != conn);
        lemma_drop_conn_fixed(w.drop_first(), conn);
        assert(seq![w[0]] + w.drop_first() =~= w);
    }
}

proof fn lemma_retire_marked_noop(s: Seq<(u64, ProxyModel)>, w: Seq<(u64, u64)>, conn: u64)
    requires
        forall|k: int| 0 <= k < w.len() ==> (#[trigger] w[k]).0 != conn,
    ensures
        retire_marked(s, w, conn) == s,
{
    assert forall|i: int| 0 <= i < s.len() implies retire_marked(s, w, conn)[i] == s[i] by {
        assert(forall|t: int| 0 <= t < w.len() ==> (#[trigger] w[t]) != (conn, s[i].0));
    }
    assert(retire_marked(s, w, conn) =~= s);
}

/// Disconnect cleanup is idempotent: handling the same connection's
/// disconnect a second time, from the state the first one left, changes
/// neither the watcher nor the registry.
pub proof fn lemma_disconnect_idempotent(
    entries: Seq<(u64, ProxyModel)>,
    w: Seq<(u64, u64)>,
    conn: u64,
)
    ensures
        drop_conn(drop_conn(w, conn), conn) == drop_conn(w, conn),
        retire_marked(retire_marked(entries, w, conn), drop_conn(w, conn), conn) == retire_marked(
            entries,
            w,
            conn,
        ),
        cleanup_post(
            retire_marked(entries, w, conn),
            retire_marked(entries, w, conn),
            drop_conn(w, conn),
            drop_conn(w, conn),
            conn,
        ),
{
    lemma_drop_conn_clean(w, conn);
    lemma_drop_conn_fixed(drop_conn(w, conn), conn);
    lemma_retire_marked_noop(retire_marked(entries, w, conn), drop_conn(w, conn), conn);
}

} // verus!
