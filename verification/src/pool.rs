//! A pool of idle connections, for reuse by later channels.
use std::collections::{HashMap, VecDeque};
use std::hash::Hash;

use vstd::prelude::*;
use vstd::std_specs::hash::obeys_key_model;

verus! {

/// A simple pool for connections. This pool is not threadsafe, and highly
/// specific to the needs of this crate. It is unlikely to be suitable for use
/// as a generic connection pool.
///
/// The pool is keyed by address (`A`), as you might expect, and connections are
/// recycled in FIFO order. Note, however, that connections are not stored
/// directly, but rather framed connections (`F`) are stored. This is because a
/// framed connection has internal buffers that would be discarded when taking
/// the connection out of it, potentially leaving the connection in an unknown
/// state.
///
/// Its view maps each address to the idle connections there, the one that has
/// been idle longest first. What is said of it rests on the addresses being fit
/// to be keys of a hash map: equal exactly if they are the same, and hashed
/// alike if so.
#[verifier::reject_recursive_types(A)]
pub struct BasicPool<A, F>(HashMap<A, VecDeque<F>>);

impl<A, F> View for BasicPool<A, F> {
    type V = Map<A, Seq<F>>;

    closed spec fn view(&self) -> Map<A, Seq<F>> {
        self.0@.map_values(|queue: VecDeque<F>| queue@)
    }
}

/// The connections to `addr` that are idle in `pool`.
pub open spec fn idle<A, F>(pool: Map<A, Seq<F>>, addr: A) -> Seq<F> {
    if pool.contains_key(addr) {
        pool[addr]
    } else {
        Seq::empty()
    }
}

/// What taking a connection to `addr` out of `pool` yields.
pub open spec fn taken<A, F>(pool: Map<A, Seq<F>>, addr: A) -> Option<F> {
    if idle(pool, addr).len() == 0 {
        None
    } else {
        Some(idle(pool, addr).first())
    }
}

/// What taking a connection to `addr` out of `pool` leaves behind.
pub open spec fn after_get<A, F>(pool: Map<A, Seq<F>>, addr: A) -> Map<A, Seq<F>> {
    if idle(pool, addr).len() == 0 {
        pool.insert(addr, Seq::empty())
    } else {
        pool.insert(addr, idle(pool, addr).drop_first())
    }
}

/// `pool` once `conn`, a connection to `addr`, has been returned to it.
pub open spec fn after_put<A, F>(pool: Map<A, Seq<F>>, addr: A, conn: F) -> Map<A, Seq<F>> {
    pool.insert(addr, idle(pool, addr).push(conn))
}

impl<A: Eq + Hash, F> BasicPool<A, F> {
    /// Constructs an empty `BasicPool`.
    pub fn default() -> (pool: BasicPool<A, F>)
        ensures
            pool@ == Map::<A, Seq<F>>::empty(),
    {
        let pool: BasicPool<A, F> = BasicPool(HashMap::new());
        assert(pool@ =~= Map::<A, Seq<F>>::empty());
        pool
    }

    /// Attempts to retrieve an existing connection that is connected to `addr`.
    pub fn get(&mut self, addr: A) -> (conn: Option<F>)
        ensures
            obeys_key_model::<A>() ==> conn == taken(old(self)@, addr),
            obeys_key_model::<A>() ==> final(self)@ == after_get(old(self)@, addr),
            obeys_key_model::<A>() ==> match conn {
                Some(oldest) => old(self)@.contains_key(addr) && old(self)@[addr].len() > 0
                    && oldest == old(self)@[addr][0] && final(self)@ == old(self)@.insert(
                    addr,
                    old(self)@[addr].subrange(1, old(self)@[addr].len() as int),
                ),
                None => (old(self)@.contains_key(addr) ==> old(self)@[addr].len() == 0)
                    && final(self)@ == old(self)@.insert(addr, Seq::empty()),
            },
    {
        let conn: Option<F> = self.0.entry(addr).or_insert(VecDeque::new()).pop_front();
        proof {
            if obeys_key_model::<A>() {
                let queue = idle(old(self)@, addr);
                assert(self@[addr] =~= if queue.len() == 0 {
                    Seq::empty()
                } else {
                    queue.drop_first()
                });
                assert(self@ =~= after_get(old(self)@, addr));
            }
        }
        conn
    }

    /// Returns a framed connection to the pool so that it can be reused. `addr`
    /// is the address that it is connected to.
    pub fn put(&mut self, addr: A, conn: F)
        ensures
            obeys_key_model::<A>() ==> final(self)@ == after_put(old(self)@, addr, conn),
            obeys_key_model::<A>() ==> final(self)@ == old(self)@.insert(
                addr,
                if old(self)@.contains_key(addr) {
                    old(self)@[addr].push(conn)
                } else {
                    seq![conn]
                },
            ),
    {
        self.0.entry(addr).or_insert(VecDeque::new()).push_back(conn);
        proof {
            if obeys_key_model::<A>() {
                assert(self@ =~= after_put(old(self)@, addr, conn));
                assert(Seq::<F>::empty().push(conn) =~= seq![conn]);
            }
        }
    }
}

/// Asking for a connection to an address yields the one that has been idle there
/// longest, exactly if one is idle there, and takes that one, and nothing else,
/// out of the pool.
pub proof fn law_get_takes_the_oldest<A, F>(pool: Map<A, Seq<F>>, addr: A)
    ensures
        idle(pool, addr) == if pool.contains_key(addr) {
            pool[addr]
        } else {
            Seq::empty()
        },
        taken(pool, addr) is Some <==> pool.contains_key(addr) && pool[addr].len() > 0,
        taken(pool, addr) matches Some(conn) ==> pool[addr] == seq![conn] + after_get(
            pool,
            addr,
        )[addr],
        taken(pool, addr) is None ==> after_get(pool, addr)[addr].len() == 0,
        after_get(pool, addr).dom() == pool.dom().insert(addr),
        forall|other: A|
            other != addr && pool.contains_key(other) ==> #[trigger] after_get(pool, addr)[other]
                == pool[other],
{
    if idle(pool, addr).len() > 0 {
        assert(pool[addr] =~= seq![pool[addr].first()] + pool[addr].drop_first());
    }
    assert(after_get(pool, addr).dom() =~= pool.dom().insert(addr));
}

/// Returning a connection puts it last among those that are idle at its address,
/// and changes nothing else.
pub proof fn law_put_adds_the_newest<A, F>(pool: Map<A, Seq<F>>, addr: A, conn: F)
    ensures
        after_put(pool, addr, conn)[addr].last() == conn,
        after_put(pool, addr, conn)[addr].drop_last() == if pool.contains_key(addr) {
            pool[addr]
        } else {
            Seq::empty()
        },
        after_put(pool, addr, conn)[addr].len() > 0,
        after_put(pool, addr, conn).dom() == pool.dom().insert(addr),
        forall|other: A|
            other != addr && pool.contains_key(other) ==> #[trigger] after_put(
                pool,
                addr,
                conn,
            )[other] == pool[other],
{
    assert(after_put(pool, addr, conn)[addr].drop_last() =~= idle(pool, addr));
    assert(after_put(pool, addr, conn).dom() =~= pool.dom().insert(addr));
}

/// `pool` once `count` connections to `addr` have been asked for.
pub open spec fn after_gets<A, F>(pool: Map<A, Seq<F>>, addr: A, count: nat) -> Map<A, Seq<F>>
    decreases count,
{
    if count == 0 {
        pool
    } else {
        after_get(after_gets(pool, addr, (count - 1) as nat), addr)
    }
}

/// `pool` once all of `conns`, connections to `addr`, have been returned to it
/// in turn.
pub open spec fn after_puts<A, F>(pool: Map<A, Seq<F>>, addr: A, conns: Seq<F>) -> Map<A, Seq<F>>
    decreases conns.len(),
{
    if conns.len() == 0 {
        pool
    } else {
        after_put(after_puts(pool, addr, conns.drop_last()), addr, conns.last())
    }
}

/// The connections that are idle at an address come out one by one, the one
/// that has been idle longest first, each of them once; after the last of them
/// there is none.
pub proof fn law_idle_connections_come_out_in_order<A, F>(
    pool: Map<A, Seq<F>>,
    addr: A,
    earlier: nat,
)
    ensures
        earlier < idle(pool, addr).len() ==> taken(after_gets(pool, addr, earlier), addr) == Some(
            idle(pool, addr)[earlier as int],
        ),
        earlier >= idle(pool, addr).len() ==> taken(after_gets(pool, addr, earlier), addr) is None,
        idle(after_gets(pool, addr, earlier), addr) == idle(pool, addr).skip(
            if earlier <= idle(pool, addr).len() {
                earlier as int
            } else {
                idle(pool, addr).len() as int
            },
        ),
    decreases earlier,
{
    let queue = idle(pool, addr);
    if earlier == 0 {
        assert(queue.skip(0) =~= queue);
    } else {
        law_idle_connections_come_out_in_order(pool, addr, (earlier - 1) as nat);
        let before = after_gets(pool, addr, (earlier - 1) as nat);
        if earlier <= queue.len() {
            assert(idle(before, addr).drop_first() =~= queue.skip(earlier as int));
        } else {
            assert(queue.skip(queue.len() as int) =~= Seq::<F>::empty());
        }
    }
}

/// Connections that are returned line up behind those that are idle already, in
/// the order in which they are returned.
pub proof fn law_returned_connections_line_up<A, F>(pool: Map<A, Seq<F>>, addr: A, conns: Seq<F>)
    ensures
        idle(after_puts(pool, addr, conns), addr) == idle(pool, addr) + conns,
    decreases conns.len(),
{
    if conns.len() > 0 {
        law_returned_connections_line_up(pool, addr, conns.drop_last());
        assert((idle(pool, addr) + conns.drop_last()).push(conns.last()) =~= idle(pool, addr)
            + conns);
    } else {
        assert(idle(pool, addr) + conns =~= idle(pool, addr));
    }
}

/// Connections that are returned to a pool with none idle at their address are
/// handed out again in the order in which they were returned.
pub proof fn law_connections_are_recycled_in_order<A, F>(
    pool: Map<A, Seq<F>>,
    addr: A,
    conns: Seq<F>,
    earlier: nat,
)
    requires
        idle(pool, addr).len() == 0,
        earlier < conns.len(),
    ensures
        taken(after_gets(after_puts(pool, addr, conns), addr, earlier), addr) == Some(
            conns[earlier as int],
        ),
{
    law_returned_connections_line_up(pool, addr, conns);
    law_idle_connections_come_out_in_order(after_puts(pool, addr, conns), addr, earlier);
}

/// Nothing that is done with the connections to one address touches those to
/// another.
pub proof fn law_addresses_are_kept_apart<A, F>(
    pool: Map<A, Seq<F>>,
    addr: A,
    other: A,
    conn: F,
)
    requires
        addr != other,
    ensures
        idle(after_get(pool, addr), other) == idle(pool, other),
        idle(after_put(pool, addr, conn), other) == idle(pool, other),
{
}

/// One use of a pool.
pub enum PoolUse<A, F> {
    /// A connection to this address is asked for.
    Get(A),
    /// This connection is returned, under this address.
    Put(A, F),
}

/// `pool` after one use.
pub open spec fn after_use<A, F>(pool: Map<A, Seq<F>>, step: PoolUse<A, F>) -> Map<A, Seq<F>> {
    match step {
        PoolUse::Get(addr) => after_get(pool, addr),
        PoolUse::Put(addr, conn) => after_put(pool, addr, conn),
    }
}

/// `pool` after all of `steps`.
pub open spec fn after_uses<A, F>(pool: Map<A, Seq<F>>, steps: Seq<PoolUse<A, F>>) -> Map<
    A,
    Seq<F>,
>
    decreases steps.len(),
{
    if steps.len() == 0 {
        pool
    } else {
        after_use(after_uses(pool, steps.drop_last()), steps.last())
    }
}

/// The connections that `steps` return under `addr`, in turn.
pub open spec fn returned<A, F>(steps: Seq<PoolUse<A, F>>, addr: A) -> Seq<F>
    decreases steps.len(),
{
    if steps.len() == 0 {
        Seq::empty()
    } else {
        let earlier = returned(steps.drop_last(), addr);
        match steps.last() {
            PoolUse::Put(a, conn) if a == addr => earlier.push(conn),
            _ => earlier,
        }
    }
}

/// The connections that `pool` hands out for `addr` over all of `steps`, in turn.
pub open spec fn handed_out<A, F>(
    pool: Map<A, Seq<F>>,
    steps: Seq<PoolUse<A, F>>,
    addr: A,
) -> Seq<F>
    decreases steps.len(),
{
    if steps.len() == 0 {
        Seq::empty()
    } else {
        let earlier = handed_out(pool, steps.drop_last(), addr);
        match (steps.last(), taken(after_uses(pool, steps.drop_last()), addr)) {
            (PoolUse::Get(a), Some(conn)) if a == addr => earlier.push(conn),
            _ => earlier,
        }
    }
}

/// Over any history of a pool, whatever is done with other addresses in between,
/// the connections that come out for an address, followed by those that are idle
/// there in the end, are those that were idle there at first, followed by those
/// that were returned there. So they come out in the order in which they went
/// in, each of them once.
pub proof fn law_pool_is_first_in_first_out<A, F>(
    pool: Map<A, Seq<F>>,
    steps: Seq<PoolUse<A, F>>,
    addr: A,
)
    ensures
        handed_out(pool, steps, addr) + idle(after_uses(pool, steps), addr) == idle(pool, addr)
            + returned(steps, addr),
    decreases steps.len(),
{
    if steps.len() == 0 {
        assert(Seq::<F>::empty() + idle(pool, addr) =~= idle(pool, addr) + Seq::<F>::empty());
    } else {
        let prior = steps.drop_last();
        let before = after_uses(pool, prior);
        let out = handed_out(pool, prior, addr);
        law_pool_is_first_in_first_out(pool, prior, addr);
        match steps.last() {
            PoolUse::Get(a) => {
                if a == addr && idle(before, addr).len() > 0 {
                    let queue = idle(before, addr);
                    assert(out.push(queue.first()) + queue.drop_first() =~= out + queue);
                } else if a == addr {
                    assert(idle(after_get(before, addr), addr) =~= idle(before, addr));
                }
            },
            PoolUse::Put(a, conn) => {
                if a == addr {
                    assert(out + idle(before, addr).push(conn) =~= (out + idle(
                        before,
                        addr,
                    )).push(conn));
                    assert(idle(pool, addr) + returned(prior, addr).push(conn) =~= (idle(
                        pool,
                        addr,
                    ) + returned(prior, addr)).push(conn));
                }
            },
        }
    }
}

/// Whether `conn` is idle in `pool`, at whatever address.
pub open spec fn is_idle<A, F>(pool: Map<A, Seq<F>>, conn: F) -> bool {
    exists|addr: A| #[trigger] idle(pool, addr).contains(conn)
}

/// Whether no connection is idle twice in `pool`.
pub open spec fn no_duplicates<A, F>(pool: Map<A, Seq<F>>) -> bool {
    &&& forall|addr: A| #[trigger] idle(pool, addr).no_duplicates()
    &&& forall|one: A, other: A, conn: F| #[trigger]
        idle(pool, one).contains(conn) && #[trigger] idle(pool, other).contains(conn) ==> one
            == other
}

/// A connection leaves the pool when it is taken: where none is idle twice, one
/// that has been taken is idle nowhere any more, and still none is idle twice.
pub proof fn law_taken_connection_leaves_the_pool<A, F>(pool: Map<A, Seq<F>>, addr: A)
    requires
        no_duplicates(pool),
    ensures
        taken(pool, addr) matches Some(conn) ==> !is_idle(after_get(pool, addr), conn),
        taken(pool, addr) matches Some(conn) ==> forall|a: A|
            !(#[trigger] idle(after_get(pool, addr), a)).contains(conn),
        no_duplicates(after_get(pool, addr)),
{
    let queue = idle(pool, addr);
    let left = after_get(pool, addr);
    assert(queue.no_duplicates());
    assert forall|a: A, conn: F| #[trigger] idle(left, a).contains(conn) implies idle(
        pool,
        a,
    ).contains(conn) by {
        if a == addr {
            let i = choose|i: int| 0 <= i < idle(left, a).len() && idle(left, a)[i] == conn;
            assert(queue[i + 1] == conn);
        }
    }
    assert forall|a: A| #[trigger] idle(left, a).no_duplicates() by {
        assert(idle(pool, a).no_duplicates());
    }
    if queue.len() > 0 {
        let conn = queue.first();
        assert(queue.contains(conn));
        assert forall|a: A| !(#[trigger] idle(left, a)).contains(conn) by {
            if idle(left, a).contains(conn) {
                assert(idle(pool, a).contains(conn));
                let i = choose|i: int| 0 <= i < idle(left, a).len() && idle(left, a)[i] == conn;
                assert(queue[i + 1] == queue[0]);
            }
        }
    }
}

/// Returning a connection that is not idle keeps every connection from being
/// idle twice.
pub proof fn law_returned_connection_is_idle_once<A, F>(pool: Map<A, Seq<F>>, addr: A, conn: F)
    requires
        no_duplicates(pool),
        !is_idle(pool, conn),
    ensures
        no_duplicates(after_put(pool, addr, conn)),
        idle(after_put(pool, addr, conn), addr).contains(conn),
{
    let queue = idle(pool, addr);
    let filled = after_put(pool, addr, conn);
    assert(queue.push(conn)[queue.len() as int] == conn);
    assert forall|a: A, c: F| #[trigger] idle(filled, a).contains(c) implies idle(
        pool,
        a,
    ).contains(c) || (a == addr && c == conn) by {
        let i = choose|i: int| 0 <= i < idle(filled, a).len() && idle(filled, a)[i] == c;
        if a != addr || i < queue.len() {
            assert(idle(pool, a)[i] == c);
        }
    }
    assert forall|a: A| #[trigger] idle(filled, a).no_duplicates() by {
        assert(idle(pool, a).no_duplicates());
        if a == addr {
            assert(!queue.contains(conn));
        }
    }
    assert forall|one: A, other: A, c: F| #[trigger]
        idle(filled, one).contains(c) && #[trigger] idle(filled, other).contains(c) implies one
        == other by {
        if c == conn {
            assert(!idle(pool, one).contains(c));
            assert(!idle(pool, other).contains(c));
        }
    }
}

/// Whether each connection that `steps` return is idle nowhere in the pool when
/// it is returned, where the pool begins as `pool`.
pub open spec fn returned_when_not_idle<A, F>(
    pool: Map<A, Seq<F>>,
    steps: Seq<PoolUse<A, F>>,
) -> bool
    decreases steps.len(),
{
    steps.len() > 0 ==> {
        &&& returned_when_not_idle(pool, steps.drop_last())
        &&& steps.last() matches PoolUse::Put(_, conn) ==> !is_idle(
            after_uses(pool, steps.drop_last()),
            conn,
        )
    }
}

/// In every state that a pool which began empty can reach, where no connection
/// is returned while it is idle, no connection is idle twice.
pub proof fn law_reachable_pool_has_no_duplicates<A, F>(steps: Seq<PoolUse<A, F>>)
    requires
        returned_when_not_idle(Map::empty(), steps),
    ensures
        no_duplicates(after_uses(Map::empty(), steps)),
    decreases steps.len(),
{
    if steps.len() > 0 {
        let before = after_uses(Map::empty(), steps.drop_last());
        law_reachable_pool_has_no_duplicates(steps.drop_last());
        match steps.last() {
            PoolUse::Get(addr) => law_taken_connection_leaves_the_pool(before, addr),
            PoolUse::Put(addr, conn) => law_returned_connection_is_idle_once(before, addr, conn),
        }
    }
}

/// Whether `steps` give `conn` back at some point, under whatever address.
pub open spec fn gives_back<A, F>(steps: Seq<PoolUse<A, F>>, conn: F) -> bool {
    exists|i: int|
        0 <= i < steps.len() && (#[trigger] steps[i] matches PoolUse::Put(_, c) && c == conn)
}

/// A connection carries one channel at a time: one that is not idle is handed
/// out to nobody, at whatever address, until it has been returned.
pub proof fn law_connection_serves_one_channel_at_a_time<A, F>(
    pool: Map<A, Seq<F>>,
    steps: Seq<PoolUse<A, F>>,
    conn: F,
    addr: A,
)
    requires
        !is_idle(pool, conn),
        !gives_back(steps, conn),
    ensures
        !is_idle(after_uses(pool, steps), conn),
        taken(after_uses(pool, steps), addr) != Some(conn),
        !handed_out(pool, steps, addr).contains(conn),
    decreases steps.len(),
{
    if steps.len() > 0 {
        let prior = steps.drop_last();
        let before = after_uses(pool, prior);
        let now = after_uses(pool, steps);
        assert(!gives_back(prior, conn)) by {
            assert forall|i: int| 0 <= i < prior.len() implies !(#[trigger] prior[i] matches
                PoolUse::Put(_, c) && c == conn) by {
                assert(steps[i] == prior[i]);
            }
        }
        law_connection_serves_one_channel_at_a_time(pool, prior, conn, addr);
        assert(steps[steps.len() - 1] == steps.last());
        assert forall|a: A| !(#[trigger] idle(now, a)).contains(conn) by {
            assert(!idle(before, a).contains(conn));
            if idle(now, a).contains(conn) {
                let i = choose|i: int| 0 <= i < idle(now, a).len() && idle(now, a)[i] == conn;
                match steps.last() {
                    PoolUse::Get(b) => if a == b {
                        assert(idle(before, a)[i + 1] == conn);
                    },
                    PoolUse::Put(b, c) => if a == b {
                        assert(i < idle(before, a).len());
                        assert(idle(before, a)[i] == conn);
                    },
                }
            }
        }
        let earlier = handed_out(pool, prior, addr);
        assert forall|i: int| 0 <= i < handed_out(pool, steps, addr).len() implies handed_out(
            pool,
            steps,
            addr,
        )[i] != conn by {
            if i < earlier.len() {
                assert(earlier[i] != conn);
            }
        }
    }
    let left = idle(after_uses(pool, steps), addr);
    if left.len() > 0 {
        assert(left.contains(left.first()));
    }
}

/// Whether every connection that is idle in `pool` is filed under the address
/// of its `peer`.
pub open spec fn filed_by_peer<A, F>(pool: Map<A, Seq<F>>, peer: spec_fn(F) -> A) -> bool {
    forall|addr: A, i: int|
        0 <= i < idle(pool, addr).len() ==> peer(#[trigger] idle(pool, addr)[i]) == addr
}

/// Whether `steps` return every connection under the address of its `peer`.
pub open spec fn returned_to_peer<A, F>(
    steps: Seq<PoolUse<A, F>>,
    peer: spec_fn(F) -> A,
) -> bool {
    forall|i: int|
        0 <= i < steps.len() ==> (#[trigger] steps[i] matches PoolUse::Put(addr, conn) ==> peer(
            conn,
        ) == addr)
}

/// If every idle connection is filed under the address of its peer, it stays so
/// when connections are taken out and when they are returned under that address,
/// and a connection that is taken out is connected to the address that was asked
/// for.
pub proof fn law_connections_are_filed_by_peer<A, F>(
    pool: Map<A, Seq<F>>,
    peer: spec_fn(F) -> A,
    addr: A,
    conn: F,
)
    requires
        filed_by_peer(pool, peer),
    ensures
        filed_by_peer(after_get(pool, addr), peer),
        peer(conn) == addr ==> filed_by_peer(after_put(pool, addr, conn), peer),
        taken(pool, addr) matches Some(idle_conn) ==> peer(idle_conn) == addr,
{
    let left = after_get(pool, addr);
    assert forall|a: A, i: int| 0 <= i < idle(left, a).len() implies peer(
        #[trigger] idle(left, a)[i],
    ) == a by {
        if a == addr {
            assert(idle(left, a)[i] == idle(pool, a)[i + 1]);
        } else {
            assert(idle(left, a)[i] == idle(pool, a)[i]);
        }
    }
    if peer(conn) == addr {
        let filled = after_put(pool, addr, conn);
        assert forall|a: A, i: int| 0 <= i < idle(filled, a).len() implies peer(
            #[trigger] idle(filled, a)[i],
        ) == a by {
            if a != addr || i < idle(pool, a).len() {
                assert(idle(filled, a)[i] == idle(pool, a)[i]);
            }
        }
    }
    if idle(pool, addr).len() > 0 {
        assert(peer(idle(pool, addr)[0]) == addr);
    }
}

/// In every state that a pool which began empty can reach, where connections are
/// returned under the addresses of their peers, a connection that is taken out is
/// connected to the address that was asked for.
pub proof fn law_reachable_pool_is_filed_by_peer<A, F>(
    steps: Seq<PoolUse<A, F>>,
    peer: spec_fn(F) -> A,
    addr: A,
)
    requires
        returned_to_peer(steps, peer),
    ensures
        filed_by_peer(after_uses(Map::empty(), steps), peer),
        taken(after_uses(Map::empty(), steps), addr) matches Some(conn) ==> peer(conn) == addr,
    decreases steps.len(),
{
    if steps.len() > 0 {
        let prior = steps.drop_last();
        assert forall|i: int| 0 <= i < prior.len() implies (#[trigger] prior[i] matches
            PoolUse::Put(a, conn) ==> peer(conn) == a) by {
            assert(steps[i] == prior[i]);
        }
        law_reachable_pool_is_filed_by_peer(prior, peer, addr);
        let before = after_uses(Map::empty(), prior);
        assert(steps[steps.len() - 1] == steps.last());
        match steps.last() {
            PoolUse::Get(a) => {
                law_connections_are_filed_by_peer(before, peer, a, arbitrary());
            },
            PoolUse::Put(a, conn) => {
                law_connections_are_filed_by_peer(before, peer, a, conn);
            },
        }
    }
    law_connections_are_filed_by_peer(after_uses(Map::empty(), steps), peer, addr, arbitrary());
}

} // verus!
