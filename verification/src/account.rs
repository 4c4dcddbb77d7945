use vstd::prelude::*;

verus! {

/// Width of the sliding window of nonces that a pool tracks exactly.
pub const BUF_LEN: usize = 32;

/// Error raised when an account operation would overdraw a balance;
/// carries the missing amount in cents.
#[derive(Debug)]
pub enum AccountError {
    InsufficientFunds(u32),
}

/// Logical contents of a nonce pool: the next nonce to issue, and exact
/// marks for the window of `BUF_LEN` nonces just below it.  `marks[j]`
/// speaks of nonce `next - 32 + j`.
pub struct PoolView {
    pub next: int,
    pub marks: Seq<bool>,
}

impl PoolView {
    pub open spec fn wf(self) -> bool {
        &&& self.marks.len() == 32
        &&& 0 <= self.next
        &&& self.next <= u64::MAX + 1
    }

    /// Every nonce below the window counts as used by default, every nonce
    /// at or past `next` as unused; inside the window the recorded mark
    /// decides.
    pub open spec fn is_used(self, m: int) -> bool {
        if m < self.next - 32 {
            true
        } else if m < self.next {
            self.marks[m - (self.next - 32)]
        } else {
            false
        }
    }
}

/// The pool after nonce `n` is marked used: `next` jumps past `n` when `n`
/// is at or ahead of it, and a nonce of the new window is marked iff it is
/// `n` itself or was already reported used before.
pub open spec fn spec_mark(v: PoolView, n: int) -> PoolView {
    let next2 = if n + 1 > v.next {
        n + 1
    } else {
        v.next
    };
    PoolView {
        next: next2,
        marks: Seq::new(32, |j: int| {
            let m = next2 - 32 + j;
            m == n || (m < v.next && v.is_used(m))
        }),
    }
}

/// A fresh pool's contents: nothing issued, nothing marked.
pub open spec fn spec_zero_pool() -> PoolView {
    PoolView { next: 0, marks: Seq::new(32, |j: int| false) }
}

/// Steps walked forward around the ring from slot `from` to reach slot
/// `to`, in 1..=32.
pub open spec fn slot_dist(from: int, to: int) -> int {
    if to <= from {
        to - from + 32
    } else {
        to - from
    }
}

/// Marking a nonce makes the pool report it used, and pushes the next
/// nonce to issue strictly past it.
pub proof fn lemma_mark_used_effect(v: PoolView, n: int)
    requires
        v.wf(),
        0 <= n,
    ensures
        spec_mark(v, n).is_used(n),
        spec_mark(v, n).next > n,
{
}

/// A nonce marked at or ahead of `next` resets the window: every nonce
/// below the new window is then reported used by default.
pub proof fn lemma_mark_used_reset(v: PoolView, n: int, m: int)
    requires
        v.wf(),
        n >= v.next,
        0 <= m < n - 31,
    ensures
        spec_mark(v, n).is_used(m),
{
}

/// How marking relates the new pool to the old one, for every nonce: a
/// nonce is used afterwards iff it is the marked one, has fallen below the
/// new window, or was already used and is still below the old `next`.
pub proof fn lemma_mark_used_frame(v: PoolView, n: int, m: int)
    requires
        v.wf(),
        0 <= n,
        0 <= m,
    ensures
        spec_mark(v, n).is_used(m) == (m == n || m < spec_mark(v, n).next - 32 || (m < v.next
            && v.is_used(m))),
{
}

/// A circular buffer tracking which of an account's recent nonces were
/// used.  Only the last `BUF_LEN` nonces below `next()` are tracked
/// exactly; everything older counts as used, everything newer as unused.
#[derive(Clone, Copy, Debug)]
pub struct NoncePool {
    iter: u64,
    buf_end: u64,
    buf: [bool; BUF_LEN],
}

impl NoncePool {
    /// The logical window the buffer represents: position `iter * 32 +
    /// buf_end` is the exclusive end, and the mark for a window nonce `m`
    /// sits in the physical slot `m % 32`.
    pub closed spec fn view(&self) -> PoolView {
        PoolView {
            next: self.iter * 32 + self.buf_end,
            marks: Seq::new(32, |j: int| self.buf[(self.buf_end + j) % 32]),
        }
    }

    pub closed spec fn inv(&self) -> bool {
        &&& self.buf_end < 32
        &&& self.iter * 32 + self.buf_end <= u64::MAX + 1
    }

    pub proof fn lemma_inv_view(&self)
        requires
            self.inv(),
        ensures
            self@.wf(),
    {
    }

    pub fn new() -> (r: Self)
        ensures
            r.inv(),
            r@ == spec_zero_pool(),
            r@.next == 0,
            forall|m: int| 0 <= m ==> !r@.is_used(m),
    {
        let r = NoncePool { iter: 0, buf_end: 0, buf: [false; BUF_LEN] };
        proof {
            assert(r@.marks =~= spec_zero_pool().marks);
            assert(r@ =~= spec_zero_pool());
            assert forall|m: int| 0 <= m implies !r@.is_used(m) by {
                if 0 <= m - (r@.next - 32) < 32 {
                    assert(!r@.marks[m - (r@.next - 32)]);
                }
            }
        }
        r
    }

    /// The smallest nonce not yet issued.
    pub fn next(&self) -> (r: u64)
        requires
            self.inv(),
            self@.next <= u64::MAX,
        ensures
            r == self@.next,
    {
        self.iter * 32 + self.buf_end
    }

    /// Records `nonce` as used, sliding the window forward if `nonce` is at
    /// or ahead of the next position.
    pub fn mark_used(&mut self, nonce: u64)
        requires
            old(self).inv(),
        ensures
            final(self).inv(),
            final(self)@ == spec_mark(old(self)@, nonce as int),
    {
        let nonce_iter: u64 = nonce / 32;
        let nonce_index: u64 = nonce % 32;
        let ghost n = nonce as int;
        assert(n == nonce_iter * 32 + nonce_index && nonce_index < 32);

        // The window has slid past the nonce; it already counts as used by
        // default.
        if self.iter >= 1 && nonce_iter < self.iter - 1 {
            proof {
                assert(n < (self.iter - 1) * 32);
                self.lemma_unchanged_is_mark(n);
            }
            return;
        }

        // The nonce belongs to the previous pass over the buffer.
        if self.iter >= 1 && nonce_iter == self.iter - 1 {
            if nonce_index < self.buf_end {
                // Its slot was already overwritten by the current pass, so
                // it counts as used by default.
                proof {
                    self.lemma_unchanged_is_mark(n);
                }
                return;
            } else {
                let ghost pre = *self;
                self.buf[nonce_index as usize] = true;
                proof {
                    pre.lemma_set_in_window_is_mark(*self, n);
                }
                return;
            }
        }

        if nonce_iter == self.iter {
            if nonce_index < self.buf_end {
                // In the current pass with its slot still valid: mark it.
                let ghost pre = *self;
                self.buf[nonce_index as usize] = true;
                proof {
                    pre.lemma_set_in_window_is_mark(*self, n);
                }
                return;
            } else {
                // Extend the current pass up to the nonce, clearing the
                // slots in between.
                let ghost pre = *self;
                let mut i: u64 = self.buf_end;
                while i < nonce_index
                    invariant
                        pre.buf_end <= i <= nonce_index,
                        nonce_index < 32,
                        self.iter == pre.iter,
                        self.buf_end == pre.buf_end,
                        forall|k: int|
                            0 <= k < 32 && !(pre.buf_end <= k < i) ==> self.buf[k] == pre.buf[k],
                        forall|k: int| pre.buf_end <= k < i ==> !self.buf[k],
                    decreases nonce_index - i,
                {
                    self.buf[i as usize] = false;
                    i = i + 1;
                }
                self.buf[nonce_index as usize] = true;
                self.buf_end = nonce_index + 1;
                if self.buf_end == 32 {
                    self.buf_end = 0;
                    self.iter = self.iter + 1;
                }
                proof {
                    assert forall|k: int|
                        0 <= k < 32 && k != n % 32 && n - slot_dist(k, n % 32)
                            >= pre@.next implies !self.buf[k] by {
                        assert(pre.buf_end <= k < nonce_index);
                    }
                    assert forall|k: int|
                        0 <= k < 32 && k != n % 32 && n - slot_dist(k, n % 32)
                            < pre@.next implies self.buf[k] == pre.buf[k] by {
                        assert(k < pre.buf_end || k > nonce_index);
                    }
                    pre.lemma_advance_is_mark(*self, n);
                }
                return;
            }
        }

        if nonce_iter == self.iter + 1 {
            // The nonce starts the next pass: clear the tail of the current
            // pass and the head of the new one.
            let ghost pre = *self;
            let mut i: u64 = self.buf_end;
            while i < 32
                invariant
                    pre.buf_end <= i <= 32,
                    self.iter == pre.iter,
                    self.buf_end == pre.buf_end,
                    forall|k: int|
                        0 <= k < 32 && !(pre.buf_end <= k < i) ==> self.buf[k] == pre.buf[k],
                    forall|k: int| pre.buf_end <= k < i ==> !self.buf[k],
                decreases 32 - i,
            {
                self.buf[i as usize] = false;
                i = i + 1;
            }
            let mut i: u64 = 0;
            while i < nonce_index
                invariant
                    0 <= i <= nonce_index,
                    nonce_index < 32,
                    self.iter == pre.iter,
                    self.buf_end == pre.buf_end,
                    forall|k: int|
                        0 <= k < 32 && !(pre.buf_end <= k < 32) && !(0 <= k < i) ==> self.buf[k]
                            == pre.buf[k],
                    forall|k: int| pre.buf_end <= k < 32 ==> !self.buf[k],
                    forall|k: int| 0 <= k < i ==> !self.buf[k],
                decreases nonce_index - i,
            {
                self.buf[i as usize] = false;
                i = i + 1;
            }
            self.iter = nonce_iter;
            self.buf[nonce_index as usize] = true;
            self.buf_end = nonce_index + 1;
            if self.buf_end == 32 {
                self.buf_end = 0;
                self.iter = self.iter + 1;
            }
            proof {
                assert forall|k: int|
                    0 <= k < 32 && k != n % 32 && n - slot_dist(k, n % 32)
                        >= pre@.next implies !self.buf[k] by {
                    assert(k < nonce_index || k >= pre.buf_end);
                }
                assert forall|k: int|
                    0 <= k < 32 && k != n % 32 && n - slot_dist(k, n % 32)
                        < pre@.next implies self.buf[k] == pre.buf[k] by {
                    assert(nonce_index < k < pre.buf_end);
                }
                pre.lemma_advance_is_mark(*self, n);
            }
            return;
        }

        // The nonce is more than one pass ahead: reset the whole buffer.
        let ghost pre = *self;
        assert(nonce_iter >= self.iter + 2);
        self.iter = nonce_iter;
        self.buf = [false; BUF_LEN];
        self.buf[nonce_index as usize] = true;
        self.buf_end = nonce_index + 1;
        if self.buf_end == 32 {
            self.buf_end = 0;
            self.iter = self.iter + 1;
        }
        proof {
            assert forall|k: int|
                0 <= k < 32 && k != n % 32 && n - slot_dist(k, n % 32)
                    >= pre@.next implies !self.buf[k] by {}
            assert forall|k: int|
                0 <= k < 32 && k != n % 32 && n - slot_dist(k, n % 32)
                    < pre@.next implies self.buf[k] == pre.buf[k] by {
                assert(n - slot_dist(k, n % 32) >= n - 32);
                assert(n >= (pre.iter + 2) * 32);
                assert(false);
            }
            pre.lemma_advance_is_mark(*self, n);
        }
    }

    /// Whether the pool reports `nonce` as used.
    pub fn is_marked_used(&self, nonce: u64) -> (r: bool)
        requires
            self.inv(),
        ensures
            r == self@.is_used(nonce as int),
    {
        let nonce_iter: u64 = nonce / 32;
        let nonce_index: u64 = nonce % 32;
        proof {
            self.lemma_index_map(nonce as int);
        }

        if self.iter >= 1 && nonce_iter < self.iter - 1 {
            return true;
        }

        if self.iter >= 1 && nonce_iter == self.iter - 1 {
            return nonce_index < self.buf_end || self.buf[nonce_index as usize];
        }

        if nonce_iter == self.iter {
            return nonce_index < self.buf_end && self.buf[nonce_index as usize];
        }

        false
    }

    /// Relates a nonce's decomposition into pass and slot to its place in
    /// the logical window.
    proof fn lemma_index_map(&self, m: int)
        requires
            self.inv(),
            0 <= m,
        ensures
            self@.is_used(m) == {
                let mi = m / 32;
                let idx = m % 32;
                if self.iter >= 1 && mi < self.iter - 1 {
                    true
                } else if self.iter >= 1 && mi == self.iter - 1 {
                    idx < self.buf_end || self.buf[idx]
                } else if mi == self.iter {
                    idx < self.buf_end && self.buf[idx]
                } else {
                    false
                }
            },
    {
        let mi = m / 32;
        let idx = m % 32;
        let l = self@.next;
        assert(m == mi * 32 + idx && 0 <= idx < 32);
        if l - 32 <= m < l {
            let j = m - (l - 32);
            assert(self@.marks[j] == self.buf[(self.buf_end + j) % 32]);
            assert((self.buf_end + j) % 32 == idx) by (nonlinear_arith)
                requires
                    j == m - (self.iter * 32 + self.buf_end) + 32,
                    m == mi * 32 + idx,
                    0 <= idx < 32,
                    0 <= j < 32,
                    0 <= self.buf_end < 32,
            ;
        }
    }

    /// When the buffer is untouched and the nonce already counted as used,
    /// the unchanged pool is exactly the marked pool.
    proof fn lemma_unchanged_is_mark(&self, n: int)
        requires
            self.inv(),
            0 <= n,
            n < self@.next - 32 || self@.is_used(n),
        ensures
            self@ == spec_mark(self@, n),
    {
        let v = self@;
        let w = spec_mark(v, n);
        assert(n < v.next);
        assert(w.next == v.next);
        assert forall|j: int| 0 <= j < 32 implies w.marks[j] == v.marks[j] by {
            let m = v.next - 32 + j;
            assert(v.is_used(m) == v.marks[j]);
            if m == n {
                assert(v.is_used(n));
            }
        }
        assert(w.marks =~= v.marks);
        assert(w =~= v);
    }

    /// When exactly one in-window slot was set to true for nonce `n`, the
    /// new pool is the marked pool.
    proof fn lemma_set_in_window_is_mark(&self, post: Self, n: int)
        requires
            self.inv(),
            0 <= n <= u64::MAX,
            self@.next - 32 <= n < self@.next,
            post.iter == self.iter,
            post.buf_end == self.buf_end,
            post.buf@ == self.buf@.update(n % 32, true),
        ensures
            post.inv(),
            post@ == spec_mark(self@, n),
    {
        let v = self@;
        let w = spec_mark(v, n);
        let l = v.next;
        let jn = n - (l - 32);
        assert(post@.next == v.next);
        assert(w.next == v.next);
        assert((self.buf_end + jn) % 32 == n % 32) by (nonlinear_arith)
            requires
                jn == n - (self.iter * 32 + self.buf_end) + 32,
                0 <= jn < 32,
                0 <= self.buf_end < 32,
                0 <= n,
                n % 32 == n - 32 * (n / 32),
        ;
        assert forall|j: int| 0 <= j < 32 implies post@.marks[j] == w.marks[j] by {
            let m = l - 32 + j;
            let s = (self.buf_end + j) % 32;
            assert(0 <= s < 32);
            assert(post@.marks[j] == post.buf@[s]);
            if j == jn {
                assert(post.buf@[s]);
                assert(w.marks[j]);
            } else {
                assert(s != n % 32) by (nonlinear_arith)
                    requires
                        s == (self.buf_end + j) % 32,
                        (self.buf_end + jn) % 32 == n % 32,
                        0 <= j < 32,
                        0 <= jn < 32,
                        j != jn,
                        0 <= self.buf_end < 32,
                ;
                assert(post.buf@[s] == self.buf@[s]);
                assert(v.marks[j] == self.buf[s]);
                assert(v.is_used(m) == v.marks[j]);
                assert(m != n);
            }
        }
        assert(post@.marks =~= w.marks);
        assert(post@ =~= w);
    }

    /// When the window advanced so that `n` became its newest element, with
    /// every new slot between the old end and `n` cleared and the rest of
    /// the buffer kept, the new pool is the marked pool.
    proof fn lemma_advance_is_mark(&self, post: Self, n: int)
        requires
            self.inv(),
            0 <= n <= u64::MAX,
            n >= self@.next,
            post.iter * 32 + post.buf_end == n + 1,
            post.buf_end < 32,
            post.buf[n % 32],
            forall|k: int|
                0 <= k < 32 && k != n % 32 && n - slot_dist(k, n % 32) >= self@.next
                    ==> !(#[trigger] post.buf[k]),
            forall|k: int|
                0 <= k < 32 && k != n % 32 && n - slot_dist(k, n % 32) < self@.next
                    ==> #[trigger] post.buf[k] == self.buf[k],
        ensures
            post.inv(),
            post@ == spec_mark(self@, n),
    {
        let v = self@;
        let w = spec_mark(v, n);
        assert(post@.next == n + 1);
        assert(w.next == n + 1);
        assert forall|j: int| 0 <= j < 32 implies post@.marks[j] == w.marks[j] by {
            let m = n + 1 - 32 + j;
            let s = (post.buf_end + j) % 32;
            assert(post@.marks[j] == post.buf@[s]);
            assert(0 <= s < 32 && s == m % 32) by (nonlinear_arith)
                requires
                    s == (post.buf_end + j) % 32,
                    post.iter * 32 + post.buf_end == n + 1,
                    m == n + 1 - 32 + j,
                    0 <= j < 32,
                    0 <= post.buf_end < 32,
                    0 <= n,
            ;
            if j == 31 {
                assert(m == n);
                assert(s == n % 32) by (nonlinear_arith)
                    requires
                        s == m % 32,
                        m == n,
                ;
                assert(post.buf[s]);
                assert(w.marks[j]);
            } else {
                assert(m < n);
                assert(s != n % 32 && slot_dist(s, n % 32) == n - m) by (nonlinear_arith)
                    requires
                        s == m % 32,
                        m == n + 1 - 32 + j,
                        0 <= j < 31,
                        -32 <= m,
                        slot_dist(s, n % 32) == if n % 32 <= s {
                            n % 32 - s + 32
                        } else {
                            n % 32 - s
                        },
                        n % 32 == n - 32 * (n / 32),
                        m % 32 == m - 32 * (m / 32),
                        0 <= n % 32 < 32,
                        0 <= m % 32 < 32,
                ;
                if v.next <= m {
                    assert(!post.buf[s]);
                    assert(!w.marks[j]);
                } else {
                    assert(post.buf[s] == self.buf[s]);
                    if v.next - 32 <= m {
                        let jo = m - (v.next - 32);
                        assert(v.marks[jo] == self.buf[(self.buf_end + jo) % 32]);
                        assert((self.buf_end + jo) % 32 == s) by (nonlinear_arith)
                            requires
                                s == m % 32,
                                jo == m - (self.iter * 32 + self.buf_end) + 32,
                                0 <= jo < 32,
                                0 <= self.buf_end < 32,
                                -32 <= m,
                                m % 32 == m - 32 * (m / 32),
                        ;
                        assert(v.is_used(m) == self.buf[s]);
                        assert(w.marks[j] == self.buf[s]);
                    } else {
                        // m is below the old window yet inside the new one:
                        // impossible, since the new window never starts
                        // before the old one.
                        assert(m >= n + 1 - 32 && n >= v.next);
                        assert(false);
                    }
                }
            }
        }
        assert(post@.marks =~= w.marks);
        assert(post@ =~= w);
    }
}

impl Default for NoncePool {
    fn default() -> (r: Self)
        ensures
            r.inv(),
            r@ == spec_zero_pool(),
            r@.next == 0,
            forall|m: int| 0 <= m ==> !r@.is_used(m),
    {
        Self::new()
    }
}

/// A user account: identifier, replay-prevention pool and the two
/// balances, all in cents.
#[derive(Clone, Copy, Debug)]
pub struct Account {
    pub id: u32,
    pub nonce_pool: NoncePool,
    pub held_cents: u32,
    pub staked_cents: u32,
}

/// The logical contents of an account: the balances as unbounded integers
/// and the nonce pool's window.
pub struct AccountView {
    pub id: int,
    pub held: int,
    pub staked: int,
    pub pool: PoolView,
}

impl View for Account {
    type V = AccountView;

    open spec fn view(&self) -> AccountView {
        AccountView {
            id: self.id as int,
            held: self.held_cents as int,
            staked: self.staked_cents as int,
            pool: self.nonce_pool@,
        }
    }
}

impl Account {
    pub open spec fn inv(&self) -> bool {
        self.nonce_pool.inv()
    }

    pub fn add_held(&mut self, amnt: u32)
        requires
            old(self).held_cents + amnt <= u32::MAX,
        ensures
            *final(self) == (Account {
                held_cents: (old(self).held_cents + amnt) as u32,
                ..*old(self)
            }),
    {
        self.held_cents += amnt;
    }

    pub fn sub_held(&mut self, amnt: u32) -> (r: Result<(), AccountError>)
        ensures
            amnt > old(self).held_cents ==> *final(self) == *old(self) && r == Err::<
                (),
                AccountError,
            >(AccountError::InsufficientFunds((amnt - old(self).held_cents) as u32)),
            amnt <= old(self).held_cents ==> r == Ok::<(), AccountError>(()) && *final(self)
                == (Account { held_cents: (old(self).held_cents - amnt) as u32, ..*old(self) }),
    {
        if amnt > self.held_cents {
            return Err(AccountError::InsufficientFunds(amnt - self.held_cents));
        }
        self.held_cents -= amnt;
        Ok(())
    }

    pub fn add_staked(&mut self, amnt: u32)
        requires
            old(self).staked_cents + amnt <= u32::MAX,
        ensures
            *final(self) == (Account {
                staked_cents: (old(self).staked_cents + amnt) as u32,
                ..*old(self)
            }),
    {
        self.staked_cents += amnt;
    }

    pub fn sub_staked(&mut self, amnt: u32) -> (r: Result<(), AccountError>)
        ensures
            amnt > old(self).staked_cents ==> *final(self) == *old(self) && r == Err::<
                (),
                AccountError,
            >(AccountError::InsufficientFunds((amnt - old(self).staked_cents) as u32)),
            amnt <= old(self).staked_cents ==> r == Ok::<(), AccountError>(()) && *final(self)
                == (Account { staked_cents: (old(self).staked_cents - amnt) as u32, ..*old(self) }),
    {
        if amnt > self.staked_cents {
            return Err(AccountError::InsufficientFunds(amnt - self.staked_cents));
        }
        self.staked_cents -= amnt;
        Ok(())
    }

    pub fn id(&self) -> (r: u32)
        ensures
            r == self.id,
    {
        self.id
    }

    pub fn nonce_pool(&self) -> (r: &NoncePool)
        ensures
            *r == self.nonce_pool,
    {
        &self.nonce_pool
    }

    pub fn nonce_pool_mut(&mut self) -> (r: &mut NoncePool)
        ensures
            *r == old(self).nonce_pool,
            *final(self) == (Account { nonce_pool: *final(r), ..*old(self) }),
    {
        &mut self.nonce_pool
    }

    pub fn held_cents(&self) -> (r: u32)
        ensures
            r == self.held_cents,
    {
        self.held_cents
    }

    pub fn staked_cents(&self) -> (r: u32)
        ensures
            r == self.staked_cents,
    {
        self.staked_cents
    }
}

} // verus!
