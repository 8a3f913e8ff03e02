//! A bounded pool of TCP ports.
//!
//! The pool starts with every port of a closed range. A worker takes a port
//! before it opens a data socket and gives it back when the socket is closed.
//! The allocator binds nothing itself: it only says who may use which port.
//!
//! The allocator is a sequential value. A server shares it behind a lock and
//! waits on a condition while the pool is empty; that waiting is the
//! caller's, and it is why `allocate` asks for a pool that is not empty.
//!
//! No port stands in the pool twice: to give back a port that is free
//! already changes nothing. So the pool never holds more ports than the
//! range has.

use vstd::multiset::*;
use vstd::prelude::*;
use vstd::seq_lib::*;

verus! {

/// Every port from `first` to `last`, in rising order.
pub open spec fn port_range(first: u16, last: u16) -> Seq<u16> {
    Seq::new((last - first + 1) as nat, |i: int| (first + i) as u16)
}

/// One call on the allocator.
pub enum PortOp {
    /// A worker takes a port: `allocate`.
    Alloc,
    /// A worker gives this port back: `dealloc`.
    Dealloc(u16),
}

/// The pool after a call. Taking a port takes the last one out; giving a
/// port back puts it behind the others, unless it is in the pool already.
pub open spec fn pool_after(free: Seq<u16>, op: PortOp) -> Seq<u16> {
    match op {
        PortOp::Alloc => free.drop_last(),
        PortOp::Dealloc(port) => if free.contains(port) {
            free
        } else {
            free.push(port)
        },
    }
}

/// The pool together with the ports that workers hold.
pub struct Ledger {
    pub free: Seq<u16>,
    pub held: Multiset<u16>,
}

/// The ledger after one call: the pool as `allocate` and `dealloc` leave
/// it, and the port moving between the pool and the workers.
pub open spec fn record(ledger: Ledger, op: PortOp) -> Ledger {
    match op {
        PortOp::Alloc => Ledger {
            free: pool_after(ledger.free, op),
            held: ledger.held.insert(ledger.free.last()),
        },
        PortOp::Dealloc(port) => Ledger {
            free: pool_after(ledger.free, op),
            held: ledger.held.remove(port),
        },
    }
}

pub struct PortAllocator {
    pool: Vec<u16>,
    first_port: u16,
    last_port: u16,
}

/// A pool without a port twice, whose ports all lie in a range, holds no
/// more ports than the range has.
proof fn lemma_pool_fits_range(free: Seq<u16>, first: u16, last: u16)
    requires
        first <= last,
        free.no_duplicates(),
        forall|i: int| 0 <= i < free.len() ==> first <= #[trigger] free[i] <= last,
    ensures
        free.len() <= last - first + 1,
{
    let range = port_range(first, last);
    assert(range.no_duplicates());
    free.unique_seq_to_set();
    range.unique_seq_to_set();
    seq_to_set_is_finite(range);
    assert forall|port: u16| free.to_set().contains(port) implies range.to_set().contains(
        port,
    ) by {
        let i = choose|i: int| 0 <= i < free.len() && free[i] == port;
        assert(first <= free[i] <= last);
        assert(range[port - first] == port);
    }
    vstd::set_lib::lemma_len_subset(free.to_set(), range.to_set());
}

impl PortAllocator {
    /// The free ports, oldest return first; `allocate` hands out the last one.
    pub closed spec fn free(&self) -> Seq<u16> {
        self.pool@
    }

    pub closed spec fn first(&self) -> u16 {
        self.first_port
    }

    pub closed spec fn last(&self) -> u16 {
        self.last_port
    }

    /// The range is not empty, every free port lies in it, and no port is
    /// in the pool twice.
    pub closed spec fn well_formed(&self) -> bool {
        &&& self.first_port <= self.last_port
        &&& forall|i: int|
            0 <= i < self.pool@.len() ==> self.first_port <= #[trigger] self.pool@[i]
                <= self.last_port
        &&& self.pool@.no_duplicates()
    }

    /// The allocator's pool as a ledger, with `held` for the ports that
    /// workers hold.
    pub open spec fn ledger(&self, held: Multiset<u16>) -> Ledger {
        Ledger { free: self.free(), held }
    }

    /// What a well-formed allocator is: a pool without a port twice, all of
    /// whose ports lie in the range, and so no larger than the range.
    pub proof fn lemma_pool_is_within_range(self)
        requires
            self.well_formed(),
        ensures
            self.first() <= self.last(),
            self.free().no_duplicates(),
            forall|i: int|
                0 <= i < self.free().len() ==> self.first() <= #[trigger] self.free()[i]
                    <= self.last(),
            self.free().len() <= self.capacity(),
    {
        lemma_pool_fits_range(self.pool@, self.first_port, self.last_port);
    }

    /// Number of ports in the range.
    pub open spec fn capacity(&self) -> nat {
        (self.last() - self.first() + 1) as nat
    }

    /// A pool that holds every port of `first_port ..= last_port`.
    pub fn new(first_port: u16, last_port: u16) -> (allocator: Self)
        requires
            first_port <= last_port,
        ensures
            allocator.well_formed(),
            allocator.first() == first_port,
            allocator.last() == last_port,
            allocator.free() == port_range(first_port, last_port),
    {
        let mut pool: Vec<u16> = Vec::new();
        let mut next: u32 = first_port as u32;
        while next <= last_port as u32
            invariant
                first_port <= next <= last_port + 1,
                pool@.len() == next - first_port,
                forall|i: int| 0 <= i < pool@.len() ==> pool@[i] == (first_port + i) as u16,
            decreases last_port + 1 - next,
        {
            pool.push(next as u16);
            next = next + 1;
        }
        assert(pool@ =~= port_range(first_port, last_port));
        PortAllocator { pool, first_port, last_port }
    }

    /// Takes a free port out of the pool. The port is then in the pool no
    /// more, so it is not handed out again before it is given back.
    pub fn allocate(&mut self) -> (port: u16)
        requires
            old(self).well_formed(),
            old(self).free().len() > 0,
        ensures
            final(self).well_formed(),
            port == old(self).free().last(),
            final(self).free() == pool_after(old(self).free(), PortOp::Alloc),
            final(self).free() == old(self).free().drop_last(),
            forall|held: Multiset<u16>|
                final(self).ledger(held.insert(port)) == #[trigger] record(
                    old(self).ledger(held),
                    PortOp::Alloc,
                ),
            !final(self).free().contains(port),
            final(self).first() == old(self).first(),
            final(self).last() == old(self).last(),
            final(self).first() <= port <= final(self).last(),
    {
        let port = self.pool.pop().unwrap();
        assert(!self.pool@.contains(port)) by {
            if self.pool@.contains(port) {
                let i = choose|i: int| 0 <= i < self.pool@.len() && self.pool@[i] == port;
                assert(old(self).pool@[i] == old(self).pool@[old(self).pool@.len() - 1]);
            }
        }
        port
    }

    /// Whether `port` is free.
    pub fn is_free(&self, port: u16) -> (free: bool)
        ensures
            free == self.free().contains(port),
    {
        let mut i: usize = 0;
        while i < self.pool.len()
            invariant
                i <= self.pool@.len(),
                forall|k: int| 0 <= k < i ==> self.pool@[k] != port,
            decreases self.pool@.len() - i,
        {
            if self.pool[i] == port {
                return true;
            }
            i += 1;
        }
        false
    }

    /// Puts `port` back into the pool. Where the port is free already, the
    /// pool stays as it is.
    pub fn dealloc(&mut self, port: u16)
        requires
            old(self).well_formed(),
            old(self).first() <= port <= old(self).last(),
        ensures
            final(self).well_formed(),
            final(self).free() == pool_after(old(self).free(), PortOp::Dealloc(port)),
            final(self).free() == if old(self).free().contains(port) {
                old(self).free()
            } else {
                old(self).free().push(port)
            },
            forall|held: Multiset<u16>|
                final(self).ledger(held.remove(port)) == #[trigger] record(
                    old(self).ledger(held),
                    PortOp::Dealloc(port),
                ),
            final(self).free().contains(port),
            final(self).free().len() <= final(self).capacity(),
            final(self).first() == old(self).first(),
            final(self).last() == old(self).last(),
    {
        if !self.is_free(port) {
            self.pool.push(port);
            assert(self.pool@.no_duplicates()) by {
                assert forall|i: int, j: int|
                    0 <= i < self.pool@.len() && 0 <= j < self.pool@.len() && i != j implies
                    self.pool@[i] != self.pool@[j] by {
                    let n = old(self).pool@.len();
                    if i < n && j < n {
                        assert(old(self).pool@[i] != old(self).pool@[j]);
                    } else if i < n {
                        assert(old(self).pool@[i] != port);
                    } else {
                        assert(old(self).pool@[j] != port);
                    }
                }
            }
            assert(self.pool@[self.pool@.len() - 1] == port);
        }
        proof {
            lemma_pool_fits_range(self.pool@, self.first_port, self.last_port);
        }
    }

    /// Number of free ports; on a well-formed allocator never more than the
    /// range has.
    pub fn pool_size(&self) -> (size: usize)
        ensures
            size == self.free().len(),
            self.well_formed() ==> size <= self.capacity(),
    {
        proof {
            if self.well_formed() {
                lemma_pool_fits_range(self.pool@, self.first_port, self.last_port);
            }
        }
        self.pool.len()
    }

    pub fn first_port(&self) -> (port: u16)
        ensures
            port == self.first(),
    {
        self.first_port
    }

    pub fn last_port(&self) -> (port: u16)
        ensures
            port == self.last(),
    {
        self.last_port
    }
}

/// The ledger of a new allocator: every port free, none held.
pub open spec fn initial_ledger(first: u16, last: u16) -> Ledger {
    Ledger { free: port_range(first, last), held: Multiset::empty() }
}

/// Whether a worker that keeps to the rules may make this call now: it takes
/// a port only from a pool that has one, and returns only a port it holds.
pub open spec fn permitted(ledger: Ledger, op: PortOp) -> bool {
    match op {
        PortOp::Alloc => ledger.free.len() > 0,
        PortOp::Dealloc(port) => ledger.held.contains(port),
    }
}

/// The ledger after the first `n` calls of `ops`.
pub open spec fn ledger_after(start: Ledger, ops: Seq<PortOp>, n: nat) -> Ledger
    decreases n,
{
    if n == 0 || n > ops.len() {
        start
    } else {
        record(ledger_after(start, ops, (n - 1) as nat), ops[n - 1])
    }
}

/// Every call of `ops` is permitted at the moment it is made.
pub open spec fn matched(start: Ledger, ops: Seq<PortOp>) -> bool {
    forall|k: int|
        0 <= k < ops.len() ==> permitted(#[trigger] ledger_after(start, ops, k as nat), ops[k])
}

/// Every call of `ops` is one that the allocator accepts at the moment it is
/// made: a port is taken only from a pool that has one, and a port that is
/// given back lies in the range. Whether the port was held is not asked.
pub open spec fn accepted(start: Ledger, ops: Seq<PortOp>, first: u16, last: u16) -> bool {
    forall|k: int|
        0 <= k < ops.len() ==> match ops[k] {
            PortOp::Alloc => (#[trigger] ledger_after(start, ops, k as nat)).free.len() > 0,
            PortOp::Dealloc(port) => first <= port <= last,
        }
}

/// Whatever is given back, and however often, the pool holds no port twice
/// and only ports of the range, and so never more ports than the range has.
pub proof fn lemma_pool_never_outgrows_range(first: u16, last: u16, ops: Seq<PortOp>, n: nat)
    requires
        first <= last,
        accepted(initial_ledger(first, last), ops, first, last),
        n <= ops.len(),
    ensures
        ({
            let now = ledger_after(initial_ledger(first, last), ops, n);
            &&& now.free.no_duplicates()
            &&& forall|i: int| 0 <= i < now.free.len() ==> first <= #[trigger] now.free[i] <= last
            &&& now.free.len() <= last - first + 1
        }),
    decreases n,
{
    let start = initial_ledger(first, last);
    let now = ledger_after(start, ops, n);
    if n == 0 {
        assert(start.free.no_duplicates());
    } else {
        lemma_pool_never_outgrows_range(first, last, ops, (n - 1) as nat);
        let before = ledger_after(start, ops, (n - 1) as nat);
        match ops[n - 1] {
            PortOp::Alloc => {
                assert(before.free.len() > 0);
                assert forall|i: int| 0 <= i < now.free.len() implies first <= #[trigger] now.free[i]
                    <= last by {
                    assert(now.free[i] == before.free[i]);
                }
                assert forall|i: int, j: int|
                    0 <= i < now.free.len() && 0 <= j < now.free.len() && i != j implies now.free[i]
                    != now.free[j] by {
                    assert(now.free[i] == before.free[i]);
                    assert(now.free[j] == before.free[j]);
                }
            },
            PortOp::Dealloc(port) => {
                if !before.free.contains(port) {
                    let count = before.free.len() as int;
                    assert forall|i: int| 0 <= i < now.free.len() implies first
                        <= #[trigger] now.free[i] <= last by {
                        if i < count {
                            assert(now.free[i] == before.free[i]);
                        }
                    }
                    assert forall|i: int, j: int|
                        0 <= i < now.free.len() && 0 <= j < now.free.len() && i != j implies
                        now.free[i] != now.free[j] by {
                        if i < count && j < count {
                            assert(now.free[i] == before.free[i]);
                            assert(now.free[j] == before.free[j]);
                        } else if i < count {
                            assert(before.free[i] != port);
                        } else {
                            assert(before.free[j] != port);
                        }
                    }
                }
            },
        }
    }
    lemma_pool_fits_range(now.free, first, last);
}

/// The free and the held ports taken together.
pub open spec fn all_ports(ledger: Ledger) -> Multiset<u16> {
    ledger.free.to_multiset().add(ledger.held)
}

proof fn lemma_range_counts(first: u16, last: u16, port: u16)
    requires
        first <= last,
    ensures
        port_range(first, last).to_multiset().count(port) <= 1,
{
    let range = port_range(first, last);
    assert(range.no_duplicates());
    range.lemma_multiset_has_no_duplicates();
}

proof fn lemma_record_keeps_ports(first: u16, last: u16, ledger: Ledger, op: PortOp)
    requires
        first <= last,
        permitted(ledger, op),
        all_ports(ledger) == port_range(first, last).to_multiset(),
    ensures
        all_ports(record(ledger, op)) == all_ports(ledger),
{
    broadcast use group_multiset_axioms, group_to_multiset_ensures;

    match op {
        PortOp::Alloc => {
            assert(ledger.free.drop_last().push(ledger.free.last()) =~= ledger.free);
            assert(ledger.free.to_multiset() =~= ledger.free.drop_last().to_multiset().insert(
                ledger.free.last(),
            ));
            assert(all_ports(record(ledger, op)) =~= all_ports(ledger));
        },
        PortOp::Dealloc(port) => {
            lemma_range_counts(first, last, port);
            assert(all_ports(ledger).count(port) == ledger.free.to_multiset().count(port)
                + ledger.held.count(port));
            assert(ledger.free.to_multiset().count(port) == 0);
            assert(!ledger.free.contains(port));
            assert(ledger.free.push(port).to_multiset() =~= ledger.free.to_multiset().insert(
                port,
            ));
            assert(all_ports(record(ledger, op)) =~= all_ports(ledger));
        },
    }
}

proof fn lemma_ports_are_kept(first: u16, last: u16, ops: Seq<PortOp>, n: nat)
    requires
        first <= last,
        matched(initial_ledger(first, last), ops),
        n <= ops.len(),
    ensures
        all_ports(ledger_after(initial_ledger(first, last), ops, n)) == port_range(
            first,
            last,
        ).to_multiset(),
    decreases n,
{
    broadcast use group_multiset_axioms;

    let start = initial_ledger(first, last);
    if n == 0 {
        assert(all_ports(start) =~= port_range(first, last).to_multiset());
    } else {
        lemma_ports_are_kept(first, last, ops, (n - 1) as nat);
        let before = ledger_after(start, ops, (n - 1) as nat);
        assert(permitted(before, ops[n - 1]));
        lemma_record_keeps_ports(first, last, before, ops[n - 1]);
    }
}

/// When every `allocate` has been answered by a `dealloc` of the port it gave,
/// the pool is full again: it holds each port of the range once, and so as
/// many ports as the range has.
pub proof fn lemma_quiescent_pool_is_full(first: u16, last: u16, ops: Seq<PortOp>)
    requires
        first <= last,
        matched(initial_ledger(first, last), ops),
        ledger_after(initial_ledger(first, last), ops, ops.len()).held.len() == 0,
    ensures
        ledger_after(initial_ledger(first, last), ops, ops.len()).free.len() == last - first + 1,
        ledger_after(initial_ledger(first, last), ops, ops.len()).free.to_multiset()
            == port_range(first, last).to_multiset(),
{
    broadcast use group_multiset_axioms, group_to_multiset_ensures;

    let end = ledger_after(initial_ledger(first, last), ops, ops.len());
    lemma_ports_are_kept(first, last, ops, ops.len());
    assert(end.held =~= Multiset::empty());
    assert(all_ports(end) =~= end.free.to_multiset());
    assert(end.free.to_multiset().len() == end.free.len());
    assert(port_range(first, last).to_multiset().len() == port_range(first, last).len());
}

/// At any moment of a run the free ports and the held ports together are as
/// many as the range has. So when workers hold every port, the pool is
/// empty and the next worker has to wait; and as soon as one port is given
/// back, a port can be taken again.
pub proof fn lemma_exhausted_pool_waits_for_a_return(
    first: u16,
    last: u16,
    ops: Seq<PortOp>,
    n: nat,
    port: u16,
)
    requires
        first <= last,
        matched(initial_ledger(first, last), ops),
        n <= ops.len(),
    ensures
        ({
            let now = ledger_after(initial_ledger(first, last), ops, n);
            &&& now.free.len() + now.held.len() == last - first + 1
            &&& now.held.len() == last - first + 1 ==> !permitted(now, PortOp::Alloc)
            &&& permitted(now, PortOp::Dealloc(port)) ==> permitted(
                record(now, PortOp::Dealloc(port)),
                PortOp::Alloc,
            )
        }),
{
    broadcast use group_multiset_axioms, group_to_multiset_ensures;

    let now = ledger_after(initial_ledger(first, last), ops, n);
    lemma_ports_are_kept(first, last, ops, n);
    assert(all_ports(now).len() == now.free.to_multiset().len() + now.held.len());
    assert(now.free.to_multiset().len() == now.free.len());
    assert(port_range(first, last).to_multiset().len() == port_range(first, last).len());
}

/// While workers return only ports they hold, no port is held twice, and the
/// port that the next `allocate` hands out is held by nobody.
pub proof fn lemma_no_port_is_shared(first: u16, last: u16, ops: Seq<PortOp>, n: nat, port: u16)
    requires
        first <= last,
        matched(initial_ledger(first, last), ops),
        n <= ops.len(),
    ensures
        ledger_after(initial_ledger(first, last), ops, n).held.count(port) <= 1,
        ({
            let now = ledger_after(initial_ledger(first, last), ops, n);
            now.free.len() > 0 ==> !now.held.contains(now.free.last())
        }),
{
    broadcast use group_multiset_axioms, group_to_multiset_ensures;

    let now = ledger_after(initial_ledger(first, last), ops, n);
    lemma_ports_are_kept(first, last, ops, n);
    lemma_range_counts(first, last, port);
    assert(all_ports(now).count(port) == now.free.to_multiset().count(port) + now.held.count(
        port,
    ));
    if now.free.len() > 0 {
        let next = now.free.last();
        lemma_range_counts(first, last, next);
        assert(now.free.contains(next));
        assert(now.free.to_multiset().count(next) > 0);
        assert(all_ports(now).count(next) == now.free.to_multiset().count(next)
            + now.held.count(next));
    }
}

} // verus!
