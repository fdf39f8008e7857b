//! Connections that several users share. Each user holds a lease; once the last
//! lease is given back the connection is shut down.

#![verifier::loop_isolation(false)]

use crate::error::{self, AppError, ErrorView};
use crate::keyed::KeyedList;
use vstd::prelude::*;

verus! {

/// A connection: how many leases and how many running shutdowns hold on to it,
/// and whether a shutdown has begun.
#[derive(Clone, Copy, Debug, PartialEq, Eq, Structural)]
pub struct PooledConnection {
    pub leases: u64,
    pub shutdowns: u64,
    pub closing: bool,
}

impl PooledConnection {
    /// Whether something holds on to the connection.
    pub open spec fn alive(self) -> bool {
        self.leases > 0 || self.shutdowns > 0
    }

    /// The connection with one more lease.
    pub open spec fn leased(self) -> PooledConnection {
        PooledConnection { leases: (self.leases + 1) as u64, ..self }
    }

    /// The connection with one more shutdown that runs, as far as can be counted.
    pub open spec fn held(self) -> PooledConnection {
        if self.shutdowns == u64::MAX {
            self
        } else {
            PooledConnection { shutdowns: (self.shutdowns + 1) as u64, ..self }
        }
    }
}

/// The connections by their numbers, and the number under each key.
#[verifier::ext_equal]
pub struct PoolView {
    pub shared: Map<Seq<char>, usize>,
    pub connections: Seq<PooledConnection>,
}

impl PoolView {
    /// Every number under a key belongs to a connection.
    pub open spec fn wf(self) -> bool {
        forall|key: Seq<char>| #[trigger]
            self.shared.contains_key(key) ==> self.shared[key] < self.connections.len()
    }

    /// Whether every connection can be leased once more.
    pub open spec fn countable(self) -> bool {
        forall|i: int|
            0 <= i < self.connections.len() ==> (#[trigger] self.connections[i]).leases < u64::MAX
    }

    /// The connection under a key, where something holds on to it.
    pub open spec fn lookup(self, key: Seq<char>) -> Option<usize> {
        if self.shared.contains_key(key) && self.connections[self.shared[key] as int].alive() {
            Some(self.shared[key])
        } else {
            None
        }
    }

    /// The pool with a connection changed.
    pub open spec fn with(self, id: usize, connection: PooledConnection) -> PoolView {
        PoolView { connections: self.connections.update(id as int, connection), ..self }
    }
}

/// The pool after a lease was asked for, and the connection that was leased.
pub open spec fn acquired(pool: PoolView, key: Seq<char>) -> (PoolView, Option<usize>) {
    match pool.lookup(key) {
        Some(id) => (pool.with(id, pool.connections[id as int].leased()), Some(id)),
        None => (PoolView { shared: pool.shared.remove(key), ..pool }, None),
    }
}

/// The pool after a new connection was offered under a key, the connection that
/// was leased, and whether the new one has to be shut down.
pub open spec fn adopted(pool: PoolView, key: Seq<char>, candidate: usize) -> (PoolView, usize, bool) {
    match pool.lookup(key) {
        Some(id) => {
            let held = pool.with(candidate, pool.connections[candidate as int].held());
            (held.with(id, held.connections[id as int].leased()), id, true)
        },
        None => (
            PoolView {
                shared: pool.shared.insert(key, candidate),
                connections: pool.connections.update(
                    candidate as int,
                    pool.connections[candidate as int].leased(),
                ),
            },
            candidate,
            false,
        ),
    }
}

/// The pool after a lease was given back, and whether the connection has to be
/// shut down.
pub open spec fn released(pool: PoolView, id: usize) -> (PoolView, bool) {
    let before = pool.connections[id as int];
    let after = PooledConnection { leases: (before.leases - 1) as u64, ..before };
    if before.leases == 1 {
        (pool.with(id, after.held()), true)
    } else {
        (pool.with(id, after), false)
    }
}

/// The error for a pool that cannot be used any more.
pub open spec fn pool_unavailable_error() -> ErrorView {
    error::ssh_error(
        "CONNECTION-POOL-UNAVAILABLE"@,
        "SSH 连接池暂时不可用"@,
        "connection pool lock was poisoned"@,
        true,
    )
}

/// The error for a pool that cannot be used any more.
pub fn pool_unavailable() -> (r: AppError)
    ensures
        r@ == pool_unavailable_error(),
{
    AppError::ssh(
        "CONNECTION-POOL-UNAVAILABLE",
        "SSH 连接池暂时不可用",
        "connection pool lock was poisoned",
        true,
    )
}

/// The connections that are shared.
pub struct ConnectionPool {
    shared: KeyedList<usize>,
    connections: Vec<PooledConnection>,
}

impl View for ConnectionPool {
    type V = PoolView;

    closed spec fn view(&self) -> PoolView {
        PoolView { shared: self.shared.contents(), connections: self.connections@ }
    }
}

/// A pool that knows no more keys, and at least as many connections, is as good.
proof fn lemma_kept(before: ConnectionPool, after: ConnectionPool)
    requires
        before.wf(),
        after.shared.wf(),
        forall|key: Seq<char>| #[trigger]
            after.shared.contents().contains_key(key) ==> before.shared.contents().contains_key(key)
                && after.shared.contents()[key] == before.shared.contents()[key],
        before.connections@.len() <= after.connections@.len(),
    ensures
        after.wf(),
{
    assert forall|key: Seq<char>| #[trigger]
        after@.shared.contains_key(key) implies after@.shared[key] < after@.connections.len() by {
        assert(after.shared.contents().contains_key(key));
        assert(before@.shared.contains_key(key));
    }
}

impl ConnectionPool {
    /// Every number under a key belongs to a connection.
    pub closed spec fn wf(self) -> bool {
        self.shared.wf() && self@.wf()
    }

    /// What well-formedness says of the view.
    pub proof fn lemma_wf(self)
        requires
            self.wf(),
        ensures
            self@.wf(),
    {
    }

    /// A pool without connections.
    pub fn new() -> (r: Self)
        ensures
            r.wf(),
            r@ == (PoolView { shared: Map::empty(), connections: Seq::empty() }),
    {
        let r = ConnectionPool { shared: KeyedList::new(), connections: Vec::new() };
        assert(r.shared.contents() =~= Map::empty());
        assert(r.connections@ =~= Seq::empty());
        r
    }

    /// Gives a new connection a number.
    pub fn open(&mut self) -> (r: usize)
        requires
            old(self).wf(),
        ensures
            final(self).wf(),
            r == old(self)@.connections.len(),
            final(self)@ == (PoolView {
                connections: old(self)@.connections.push(
                    PooledConnection { leases: 0, shutdowns: 0, closing: false },
                ),
                ..old(self)@
            }),
    {
        let r: usize = self.connections.len();
        self.connections.push(PooledConnection { leases: 0, shutdowns: 0, closing: false });
        proof {
            lemma_kept(*old(self), *self);
        }
        r
    }

    /// The connection under a key, where something holds on to it.
    fn lookup(&self, key: &str) -> (r: Option<usize>)
        requires
            self.wf(),
        ensures
            r == self@.lookup(key@),
            r matches Some(id) ==> id < self@.connections.len(),
    {
        match self.shared.place(key) {
            None => None,
            Some(at) => {
                let id: usize = *self.shared.value_at(at);
                assert(self@.shared.contains_key(key@));
                let connection = self.connections[id];
                if connection.leases > 0 || connection.shutdowns > 0 {
                    Some(id)
                } else {
                    None
                }
            },
        }
    }

    /// Leases the connection under a key, where something still holds on to it.
    pub fn acquire(&mut self, key: &str) -> (r: Option<usize>)
        requires
            old(self).wf(),
            old(self)@.countable(),
        ensures
            final(self).wf(),
            (final(self)@, r) == acquired(old(self)@, key@),
    {
        match self.lookup(key) {
            Some(id) => {
                self.lease(id);
                Some(id)
            },
            None => {
                let _ = self.shared.take(key);
                proof {
                    lemma_kept(*old(self), *self);
                }
                None
            },
        }
    }

    /// Leases a connection.
    pub fn lease(&mut self, id: usize)
        requires
            old(self).wf(),
            id < old(self)@.connections.len(),
            old(self)@.connections[id as int].leases < u64::MAX,
        ensures
            final(self).wf(),
            final(self)@ == old(self)@.with(id, old(self)@.connections[id as int].leased()),
    {
        let connection = self.connections[id];
        self.connections[id] = PooledConnection { leases: connection.leases + 1, ..connection };
        proof {
            lemma_kept(*old(self), *self);
        }
    }

    /// Gives a new connection a number and leases it, without a key: no one else
    /// gets it.
    pub fn standalone(&mut self) -> (r: usize)
        requires
            old(self).wf(),
        ensures
            final(self).wf(),
            r == old(self)@.connections.len(),
            final(self)@ == (PoolView {
                connections: old(self)@.connections.push(
                    PooledConnection { leases: 1, shutdowns: 0, closing: false },
                ),
                ..old(self)@
            }),
    {
        let r = self.open();
        self.lease(r);
        assert(self@.connections =~= old(self)@.connections.push(
            PooledConnection { leases: 1, shutdowns: 0, closing: false },
        ));
        r
    }

    /// Holds on to a connection while its shutdown runs.
    fn hold(&mut self, id: usize)
        requires
            old(self).wf(),
            id < old(self)@.connections.len(),
        ensures
            final(self).wf(),
            final(self)@ == old(self)@.with(id, old(self)@.connections[id as int].held()),
    {
        let connection = self.connections[id];
        if connection.shutdowns < u64::MAX {
            self.connections[id] = PooledConnection {
                shutdowns: connection.shutdowns + 1,
                ..connection
            };
        } else {
            assert(self@.connections =~= self@.connections.update(id as int, connection));
        }
        proof {
            lemma_kept(*old(self), *self);
        }
    }

    /// Offers a new connection under a key, and leases it, or the one that is
    /// there already. Says which was leased, and whether the new one has to be
    /// shut down.
    pub fn adopt(&mut self, key: String, candidate: usize) -> (r: (usize, bool))
        requires
            old(self).wf(),
            old(self)@.countable(),
            candidate < old(self)@.connections.len(),
        ensures
            final(self).wf(),
            (final(self)@, r.0, r.1) == adopted(old(self)@, key@, candidate),
    {
        match self.lookup(key.as_str()) {
            Some(id) => {
                self.hold(candidate);
                self.lease(id);
                (id, true)
            },
            None => {
                self.shared.put(key, candidate);
                self.lease(candidate);
                (candidate, false)
            },
        }
    }

    /// Gives a lease back. Says whether the connection has to be shut down.
    pub fn release(&mut self, id: usize) -> (r: bool)
        requires
            old(self).wf(),
            id < old(self)@.connections.len(),
            old(self)@.connections[id as int].leases > 0,
        ensures
            final(self).wf(),
            (final(self)@, r) == released(old(self)@, id),
    {
        let connection = self.connections[id];
        self.connections[id] = PooledConnection { leases: connection.leases - 1, ..connection };
        proof {
            lemma_kept(*old(self), *self);
        }
        if connection.leases == 1 {
            self.hold(id);
            assert(self@ =~= released(old(self)@, id).0);
            true
        } else {
            false
        }
    }

    /// Begins to shut a connection down. Says whether this is the first time: only
    /// then is it disconnected.
    pub fn begin_shutdown(&mut self, id: usize) -> (r: bool)
        requires
            old(self).wf(),
            id < old(self)@.connections.len(),
        ensures
            final(self).wf(),
            r == !old(self)@.connections[id as int].closing,
            final(self)@ == old(self)@.with(
                id,
                PooledConnection { closing: true, ..old(self)@.connections[id as int] },
            ),
    {
        let connection = self.connections[id];
        self.connections[id] = PooledConnection { closing: true, ..connection };
        proof {
            lemma_kept(*old(self), *self);
        }
        !connection.closing
    }

    /// Notes that a shutdown of a connection has ended.
    pub fn end_shutdown(&mut self, id: usize)
        requires
            old(self).wf(),
            id < old(self)@.connections.len(),
            old(self)@.connections[id as int].shutdowns > 0,
        ensures
            final(self).wf(),
            final(self)@ == old(self)@.with(
                id,
                PooledConnection {
                    shutdowns: (old(self)@.connections[id as int].shutdowns - 1) as u64,
                    ..old(self)@.connections[id as int]
                },
            ),
    {
        let connection = self.connections[id];
        self.connections[id] = PooledConnection {
            shutdowns: connection.shutdowns - 1,
            ..connection
        };
        proof {
            lemma_kept(*old(self), *self);
        }
    }

    /// Forgets the connection under a key; those that hold a lease keep it.
    pub fn invalidate(&mut self, key: &str)
        requires
            old(self).wf(),
        ensures
            final(self).wf(),
            final(self)@ == (PoolView { shared: old(self)@.shared.remove(key@), ..old(self)@ }),
    {
        let _ = self.shared.take(key);
        proof {
            lemma_kept(*old(self), *self);
        }
    }

    /// Forgets every key. Gives the connections that are to be shut down: those
    /// under a key that something holds on to. Each is held until its shutdown
    /// ends.
    pub fn shutdown_all_bounded(&mut self) -> (r: Vec<usize>)
        requires
            old(self).wf(),
        ensures
            final(self).wf(),
            forall|id: usize| #[trigger]
                r@.contains(id) <==> exists|key: Seq<char>| #[trigger]
                    old(self)@.lookup(key) == Some(id),
            final(self)@ == (PoolView {
                shared: Map::empty(),
                connections: all_held(old(self)@.connections, r@),
            }),
    {
        let mut r: Vec<usize> = Vec::new();
        let mut i: usize = 0;
        while i < self.shared.len()
            invariant
                *self == *old(self),
                self.wf(),
                i <= self.shared.keys().len(),
                forall|id: usize| #[trigger]
                    r@.contains(id) <==> exists|j: int|
                        0 <= j < i && self@.lookup(#[trigger] self.shared.keys()[j]) == Some(id),
            decreases self.shared.keys().len() - i,
        {
            let ghost listed = r@;
            let ghost key = self.shared.keys()[i as int];
            proof {
                self.shared.lemma_at(i as int);
                assert(self@.shared.contains_key(key));
            }
            let id: usize = *self.shared.value_at(i);
            let connection = self.connections[id];
            if connection.leases > 0 || connection.shutdowns > 0 {
                r.push(id);
            }
            proof {
                assert forall|x: usize| #[trigger] r@.contains(x) <==> exists|j: int|
                    0 <= j < i + 1 && self@.lookup(#[trigger] self.shared.keys()[j]) == Some(x) by {
                    if r@.contains(x) {
                        let w = choose|w: int| 0 <= w < r@.len() && r@[w] == x;
                        if w < listed.len() {
                            assert(listed[w] == x);
                            assert(listed.contains(x));
                        } else {
                            assert(self@.lookup(self.shared.keys()[i as int]) == Some(x));
                        }
                    }
                    if exists|j: int|
                        0 <= j < i + 1 && self@.lookup(#[trigger] self.shared.keys()[j]) == Some(
                            x,
                        ) {
                        let j = choose|j: int|
                            0 <= j < i + 1 && self@.lookup(#[trigger] self.shared.keys()[j])
                                == Some(x);
                        if j < i {
                            assert(listed.contains(x));
                            let w = choose|w: int| 0 <= w < listed.len() && listed[w] == x;
                            assert(r@[w] == x);
                        } else {
                            assert(r@[listed.len() as int] == x);
                        }
                    }
                }
            }
            i = i + 1;
        }
        proof {
            assert forall|id: usize| #[trigger] r@.contains(id) <==> exists|key: Seq<char>| #[trigger]
                self@.lookup(key) == Some(id) by {
                if exists|key: Seq<char>| #[trigger] self@.lookup(key) == Some(id) {
                    let key = choose|key: Seq<char>| #[trigger] self@.lookup(key) == Some(id);
                    assert(self.shared.has(key));
                    let j = self.shared.keys().index_of(key);
                    assert(self.shared.keys()[j] == key);
                }
            }
            assert forall|k: int| 0 <= k < r@.len() implies #[trigger] r@[k]
                < self@.connections.len() by {
                assert(r@.contains(r@[k]));
                let key = choose|key: Seq<char>| #[trigger] self@.lookup(key) == Some(r@[k]);
                assert(self@.shared.contains_key(key));
            }
        }
        let ghost before = self@.connections;
        let mut k: usize = 0;
        assert(r@.take(0) =~= Seq::empty());
        while k < r.len()
            invariant
                self.wf(),
                k <= r@.len(),
                self@.shared == old(self)@.shared,
                self@.connections.len() == before.len(),
                self@.connections == all_held(before, r@.take(k as int)),
                forall|j: int| 0 <= j < r@.len() ==> #[trigger] r@[j] < before.len(),
            decreases r@.len() - k,
        {
            assert(r@.take(k + 1).drop_last() =~= r@.take(k as int));
            self.hold(r[k]);
            k = k + 1;
        }
        assert(r@.take(k as int) =~= r@);
        self.shared.clear();
        assert(self.shared.contents() =~= Map::empty());
        r
    }
}

/// The connections, each held once more for every time it is in the list.
pub open spec fn all_held(connections: Seq<PooledConnection>, list: Seq<usize>) -> Seq<
    PooledConnection,
>
    decreases list.len(),
{
    if list.len() == 0 {
        connections
    } else {
        let before = all_held(connections, list.drop_last());
        let id = list.last() as int;
        before.update(id, before[id].held())
    }
}

/// Giving back a lease while others are out shuts nothing down and leaves the
/// connection to the others; giving back the last one shuts it down.
pub proof fn last_release_shuts_down(pool: PoolView, id: usize)
    requires
        id < pool.connections.len(),
        pool.connections[id as int].leases > 0,
    ensures
        ({
            let (after, shut_down) = released(pool, id);
            &&& shut_down == (pool.connections[id as int].leases == 1)
            &&& after.shared == pool.shared
            &&& after.connections[id as int].leases == pool.connections[id as int].leases - 1
            &&& !shut_down ==> after.connections[id as int].alive()
                && after.connections[id as int].closing == pool.connections[id as int].closing
            &&& forall|i: int|
                0 <= i < pool.connections.len() && i != id ==> #[trigger] after.connections[i]
                    == pool.connections[i]
        }),
{
}

/// What is leased under a key is a connection that something held on to, and it
/// has one more lease.
pub proof fn acquired_is_alive(pool: PoolView, key: Seq<char>)
    requires
        pool.wf(),
        pool.countable(),
    ensures
        acquired(pool, key).1 matches Some(id) ==> {
            &&& id < pool.connections.len()
            &&& pool.shared[key] == id
            &&& pool.connections[id as int].alive()
            &&& acquired(pool, key).0.connections[id as int].leases
                == pool.connections[id as int].leases + 1
        },
{
}

/// Two that offer a connection under one key share the first: the second gets a
/// lease on the connection of the first, and its own is shut down.
pub proof fn second_offer_is_discarded(
    pool: PoolView,
    key: Seq<char>,
    first: usize,
    second: usize,
)
    requires
        pool.wf(),
        pool.countable(),
        first < pool.connections.len(),
        second < pool.connections.len(),
        first != second,
        pool.lookup(key) is None,
    ensures
        ({
            let (shared, leased, discarded) = adopted(pool, key, first);
            &&& leased == first
            &&& !discarded
            &&& adopted(shared, key, second).1 == first
            &&& adopted(shared, key, second).2
        }),
{
}

/// Once a key is forgotten, nothing is leased under it, and the leases that are
/// out stay.
pub proof fn invalidated_key_is_not_leased(pool: PoolView, key: Seq<char>)
    ensures
        ({
            let after = PoolView { shared: pool.shared.remove(key), ..pool };
            acquired(after, key).1 is None && after.connections == pool.connections
        }),
{
}

/// A connection is leased under a key if and only if one is shared under it that something
/// still holds on to. Nothing else of the pool changes: not the other connections, and not
/// what the other keys stand for.
pub proof fn shared_connections_are_leased(pool: PoolView, key: Seq<char>, other: Seq<char>)
    requires
        pool.wf(),
        pool.countable(),
        other != key,
    ensures
        ({
            let (after, leased) = acquired(pool, key);
            &&& leased is Some <==> pool.shared.contains_key(key) && {
                let one = pool.connections[pool.shared[key] as int];
                one.leases > 0 || one.shutdowns > 0
            }
            &&& leased matches Some(id) ==> after.shared == pool.shared && after.connections[id as int]
                == (PooledConnection {
                leases: (pool.connections[id as int].leases + 1) as u64,
                ..pool.connections[id as int]
            })
            &&& leased is None ==> after.connections == pool.connections
            &&& after.connections.len() == pool.connections.len()
            &&& after.shared.contains_key(other) == pool.shared.contains_key(other)
            &&& pool.shared.contains_key(other) ==> after.shared[other] == pool.shared[other]
            &&& forall|i: int|
                0 <= i < pool.connections.len() && leased != Some(i as usize)
                    ==> #[trigger] after.connections[i] == pool.connections[i]
        }),
{
}

/// A connection that is offered where none is shared is shared from then on: it has one
/// more lease, and the next that asks for its key gets it.
pub proof fn offered_connections_are_shared(pool: PoolView, key: Seq<char>, candidate: usize)
    requires
        pool.wf(),
        pool.countable(),
        candidate < pool.connections.len(),
        pool.connections[candidate as int].leases + 1 < u64::MAX,
    ensures
        ({
            let (after, leased, discarded) = adopted(pool, key, candidate);
            &&& discarded <==> pool.lookup(key) is Some
            &&& !discarded ==> leased == candidate && after.connections[candidate as int].leases
                == pool.connections[candidate as int].leases + 1 && acquired(after, key).1 == Some(
                candidate,
            )
            &&& discarded ==> Some(leased) == pool.lookup(key) && acquired(after, key).1 == Some(
                leased,
            )
            &&& discarded && leased != candidate ==> after.connections[leased as int].leases
                == pool.connections[leased as int].leases + 1
                && after.connections[candidate as int].leases
                == pool.connections[candidate as int].leases
        }),
{
}

/// A connection that its last holder gave back is no longer leased once its shutdown is
/// over.
pub proof fn shut_down_connections_are_not_leased(pool: PoolView, key: Seq<char>, id: usize)
    requires
        pool.wf(),
        pool.shared.contains_key(key),
        pool.shared[key] == id,
        pool.connections[id as int].leases == 1,
        pool.connections[id as int].shutdowns == 0,
    ensures
        ({
            let (after, shut_down) = released(pool, id);
            let over = after.with(
                id,
                PooledConnection {
                    shutdowns: (after.connections[id as int].shutdowns - 1) as u64,
                    ..after.connections[id as int]
                },
            );
            &&& shut_down
            &&& after.connections[id as int].shutdowns == 1
            &&& acquired(over, key).1 is None
        }),
{
}

/// When all connections are shut down, those that were shared are held on to until their
/// shutdown is over, no lease is taken away, and the other connections stay as they are.
pub proof fn shutting_down_all_keeps_the_leases(
    connections: Seq<PooledConnection>,
    list: Seq<usize>,
    i: usize,
)
    requires
        i < connections.len(),
        forall|k: int| 0 <= k < list.len() ==> (#[trigger] list[k]) < connections.len(),
    ensures
        all_held(connections, list).len() == connections.len(),
        all_held(connections, list)[i as int].leases == connections[i as int].leases,
        all_held(connections, list)[i as int].closing == connections[i as int].closing,
        !list.contains(i) ==> all_held(connections, list)[i as int] == connections[i as int],
        list.contains(i) ==> all_held(connections, list)[i as int].shutdowns > 0,
        all_held(connections, list)[i as int].shutdowns >= connections[i as int].shutdowns,
    decreases list.len(),
{
    if list.len() > 0 {
        let front = list.drop_last();
        assert forall|k: int| 0 <= k < front.len() implies (#[trigger] front[k])
            < connections.len() by {
            assert(front[k] == list[k]);
        }
        shutting_down_all_keeps_the_leases(connections, front, i);
        assert(list[list.len() - 1] == list.last());
        if front.contains(i) {
            let k = choose|k: int| 0 <= k < front.len() && front[k] == i;
            assert(list[k] == i);
        }
        if list.contains(i) && list.last() != i {
            let k = choose|k: int| 0 <= k < list.len() && list[k] == i;
            assert(front[k] == i);
        }
    }
}

} // verus!
