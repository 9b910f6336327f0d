//! Allocation of session identifiers.
//!
//! Identifiers are small positive integers. A released identifier is handed
//! out again before any new one, the most recently released first.

use vstd::prelude::*;

verus! {

/// Mathematical model of an [`Allocator`].
pub struct IdPool {
    /// The largest identifier issued so far; zero when none was.
    pub last: nat,
    /// The released identifiers that wait for reuse, the most recent last.
    pub free: Seq<usize>,
}

impl IdPool {
    /// The pool from which nothing has been issued yet.
    pub open spec fn empty() -> IdPool {
        IdPool { last: 0, free: Seq::empty() }
    }

    /// Every pending identifier was issued once, and none is pending twice.
    pub open spec fn wf(self) -> bool {
        &&& self.free.no_duplicates()
        &&& forall|i: int| 0 <= i < self.free.len() ==> 1 <= #[trigger] self.free[i] <= self.last
    }

    /// `id` has been issued and not released since.
    pub open spec fn is_live(self, id: usize) -> bool {
        1 <= id <= self.last && !self.free.contains(id)
    }

    /// The identifiers that are in use.
    pub open spec fn live(self) -> Set<usize> {
        Set::new(|id: usize| self.is_live(id))
    }

    /// Number of identifiers in use.
    pub open spec fn count(self) -> int {
        self.last - self.free.len()
    }

    /// Whether another identifier can be issued without leaving `usize`.
    pub open spec fn can_acquire(self) -> bool {
        self.free.len() > 0 || self.last < usize::MAX
    }

    /// The identifier that the next acquisition returns.
    pub open spec fn next_id(self) -> usize {
        if self.free.len() > 0 {
            self.free.last()
        } else {
            (self.last + 1) as usize
        }
    }

    /// The pool after one acquisition.
    pub open spec fn acquire(self) -> IdPool {
        if self.free.len() > 0 {
            IdPool { last: self.last, free: self.free.drop_last() }
        } else {
            IdPool { last: self.last + 1, free: self.free }
        }
    }

    /// The pool after `id` has been released.
    pub open spec fn release(self, id: usize) -> IdPool {
        IdPool { last: self.last, free: self.free.push(id) }
    }

    /// The pool after `n` acquisitions in a row.
    pub open spec fn acquire_n(self, n: nat) -> IdPool
        decreases n,
    {
        if n == 0 {
            self
        } else {
            self.acquire_n((n - 1) as nat).acquire()
        }
    }
}

/// Issues and reclaims session identifiers.
#[derive(Debug)]
pub struct Allocator {
    last: usize,
    freelist: Vec<usize>,
}

impl View for Allocator {
    type V = IdPool;

    closed spec fn view(&self) -> IdPool {
        IdPool { last: self.last as nat, free: self.freelist@ }
    }
}

impl Allocator {
    /// An allocator that has issued nothing.
    pub fn new() -> (a: Self)
        ensures
            a@ == IdPool::empty(),
            a@.wf(),
    {
        Self { last: 0, freelist: Vec::new() }
    }

    /// Issues an identifier: the most recently released one if any is
    /// pending, else the successor of the high-water mark.
    pub fn get(&mut self) -> (id: usize)
        requires
            old(self)@.wf(),
            old(self)@.can_acquire(),
        ensures
            id == old(self)@.next_id(),
            final(self)@ == old(self)@.acquire(),
            final(self)@.wf(),
            !old(self)@.is_live(id),
            final(self)@.is_live(id),
            id >= 1,
    {
        proof {
            lemma_acquire(self@);
        }
        match self.freelist.pop() {
            Some(v) => v,
            None => {
                self.last += 1;
                self.last
            },
        }
    }

    /// Number of identifiers in use: the high-water mark less the number
    /// that wait for reuse.
    pub fn len(&self) -> (n: usize)
        requires
            self@.wf(),
        ensures
            n == self@.count(),
            n == self@.live().len(),
    {
        proof {
            lemma_free_fits(self@);
            lemma_count_is_live_len(self@);
        }
        self.last - self.freelist.len()
    }

    /// Takes back an identifier that is in use.
    pub fn remove(&mut self, id: usize)
        requires
            old(self)@.wf(),
            old(self)@.is_live(id),
        ensures
            final(self)@ == old(self)@.release(id),
            final(self)@.wf(),
            !final(self)@.is_live(id),
    {
        proof {
            lemma_release(self@, id);
        }
        self.freelist.push(id)
    }

    /// Whether another identifier can be issued.
    pub fn can_get(&self) -> (b: bool)
        ensures
            b == self@.can_acquire(),
    {
        self.freelist.len() > 0 || self.last < usize::MAX
    }

    /// Whether `id` is in use.
    pub fn is_live(&self, id: usize) -> (b: bool)
        ensures
            b == self@.is_live(id),
    {
        if id < 1 || id > self.last {
            return false;
        }
        let mut i: usize = 0;
        while i < self.freelist.len()
            invariant
                i <= self.freelist.len(),
                forall|j: int| 0 <= j < i ==> self.freelist@[j] != id,
            decreases self.freelist.len() - i,
        {
            if self.freelist[i] == id {
                return false;
            }
            i += 1;
        }
        true
    }
}

/// An acquisition returns an identifier that nobody holds, and afterwards
/// exactly that identifier has joined the ones in use.
pub proof fn lemma_acquire(p: IdPool)
    requires
        p.wf(),
        p.can_acquire(),
    ensures
        p.next_id() >= 1,
        !p.is_live(p.next_id()),
        p.acquire().wf(),
        p.acquire().live() == p.live().insert(p.next_id()),
        p.acquire().count() == p.count() + 1,
{
    let q = p.acquire();
    let id = p.next_id();
    if p.free.len() > 0 {
        let k = p.free.len() - 1;
        assert(p.free[k] == id);
        assert(p.free.contains(id));
        assert forall|x: usize| q.is_live(x) == (p.is_live(x) || x == id) by {
            if x != id && p.free.contains(x) {
                let j = choose|j: int| 0 <= j < p.free.len() && p.free[j] == x;
                assert(q.free[j] == x);
            }
            if q.free.contains(x) {
                let j = choose|j: int| 0 <= j < q.free.len() && q.free[j] == x;
                assert(p.free[j] == x);
            }
        }
    } else {
        assert forall|x: usize| q.is_live(x) == (p.is_live(x) || x == id) by {}
    }
    assert(q.live() =~= p.live().insert(id));
}

/// A release puts the identifier out of use and leaves the others as
/// they were.
pub proof fn lemma_release(p: IdPool, id: usize)
    requires
        p.wf(),
        p.is_live(id),
    ensures
        p.release(id).wf(),
        p.release(id).live() == p.live().remove(id),
        p.release(id).count() == p.count() - 1,
        p.release(id).can_acquire(),
        !p.release(id).is_live(id),
{
    let q = p.release(id);
    assert(q.free[p.free.len() as int] == id);
    assert forall|x: usize| q.is_live(x) == (p.is_live(x) && x != id) by {
        if p.free.contains(x) {
            let j = choose|j: int| 0 <= j < p.free.len() && p.free[j] == x;
            assert(q.free[j] == x);
        }
        if q.free.contains(x) && x != id {
            let j = choose|j: int| 0 <= j < q.free.len() && q.free[j] == x;
            assert(p.free[j] == x);
        }
    }
    assert(q.live() =~= p.live().remove(id));
}

/// Releasing an identifier and acquiring again returns that identifier,
/// before any new one is issued, and restores the pool.
pub proof fn lemma_release_then_acquire(p: IdPool, id: usize)
    requires
        p.wf(),
        p.is_live(id),
    ensures
        p.release(id).next_id() == id,
        p.release(id).acquire() == p,
        p.release(id).acquire().last == p.last,
{
    let q = p.release(id);
    assert(q.free.drop_last() =~= p.free);
}

/// Of two identifiers released one after the other, the later one is
/// reused first.
pub proof fn lemma_reuse_is_lifo(p: IdPool, a: usize, b: usize)
    requires
        p.wf(),
        p.is_live(a),
        p.is_live(b),
        a != b,
    ensures
        p.release(a).release(b).next_id() == b,
        p.release(a).release(b).acquire().next_id() == a,
{
    let q = p.release(a).release(b);
    assert(q.free.drop_last() =~= p.release(a).free);
}

/// After `n` acquisitions from a fresh pool and no release, `n`
/// identifiers are in use, and they are exactly `1..=n`.
pub proof fn lemma_fresh_acquisitions(n: nat)
    requires
        n <= usize::MAX,
    ensures
        IdPool::empty().acquire_n(n) == (IdPool { last: n, free: Seq::empty() }),
        IdPool::empty().acquire_n(n).wf(),
        IdPool::empty().acquire_n(n).count() == n,
        IdPool::empty().acquire_n(n).live() == Set::new(|id: usize| 1 <= id <= n),
    decreases n,
{
    if n > 0 {
        lemma_fresh_acquisitions((n - 1) as nat);
    }
    let q = IdPool::empty().acquire_n(n);
    assert(q.live() =~= Set::new(|id: usize| 1 <= id <= n));
}

/// The identifiers in use are pairwise distinct by construction: as long as
/// acquisitions and releases alternate lawfully, an identifier that is in
/// use is never issued a second time.
pub proof fn lemma_no_shared_id(p: IdPool, held: usize)
    requires
        p.wf(),
        p.can_acquire(),
        p.is_live(held),
    ensures
        p.next_id() != held,
        p.acquire().is_live(held),
{
    lemma_acquire(p);
    assert(p.acquire().live().contains(held));
}

/// The pending identifiers never outnumber the issued ones.
pub proof fn lemma_free_fits(p: IdPool)
    requires
        p.wf(),
    ensures
        p.free.len() <= p.last,
        p.count() >= 0,
{
    let issued = Set::new(|id: usize| 1 <= id <= p.last);
    lemma_issued_len(p.last);
    assert forall|x: usize| p.free.to_set().contains(x) implies issued.contains(x) by {
        let j = choose|j: int| 0 <= j < p.free.len() && p.free[j] == x;
    }
    p.free.unique_seq_to_set();
    vstd::set_lib::lemma_len_subset(p.free.to_set(), issued);
}

/// There are `n` identifiers from one to `n`.
proof fn lemma_issued_len(n: nat)
    ensures
        Set::new(|id: usize| 1 <= id <= n).finite(),
        n <= usize::MAX ==> Set::new(|id: usize| 1 <= id <= n).len() == n,
        Set::new(|id: usize| 1 <= id <= n).len() <= n,
    decreases n,
{
    let s = Set::new(|id: usize| 1 <= id <= n);
    if n == 0 {
        assert(s =~= Set::empty());
    } else {
        let t = Set::new(|id: usize| 1 <= id <= n - 1);
        lemma_issued_len((n - 1) as nat);
        if n <= usize::MAX {
            assert(s =~= t.insert(n as usize));
        } else {
            assert(s =~= t);
        }
    }
}

/// The count of an allocator is the number of identifiers in use.
pub proof fn lemma_count_is_live_len(p: IdPool)
    requires
        p.wf(),
        p.last <= usize::MAX,
    ensures
        p.live().finite(),
        p.live().len() == p.count(),
{
    let issued = Set::new(|id: usize| 1 <= id <= p.last);
    lemma_issued_len(p.last);
    let pending = p.free.to_set();
    p.free.unique_seq_to_set();
    assert forall|x: usize| pending.contains(x) implies issued.contains(x) by {
        let j = choose|j: int| 0 <= j < p.free.len() && p.free[j] == x;
    }
    assert(p.live() =~= issued.difference(pending));
    lemma_difference_len(issued, pending);
}

/// Taking a subset away from a finite set lowers its size by the size of
/// the subset.
proof fn lemma_difference_len(a: Set<usize>, b: Set<usize>)
    requires
        a.finite(),
        b.finite(),
        b.subset_of(a),
    ensures
        a.difference(b).len() == a.len() - b.len(),
    decreases b.len(),
{
    if b.len() == 0 {
        assert(b =~= Set::empty());
        assert(a.difference(b) =~= a);
    } else {
        let x = b.choose();
        lemma_difference_len(a.remove(x), b.remove(x));
        assert(a.remove(x).difference(b.remove(x)) =~= a.difference(b));
    }
}

} // verus!
