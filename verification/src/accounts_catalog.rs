use vstd::prelude::*;

use crate::account::{spec_mark, spec_zero_pool, Account, AccountError, AccountView, NoncePool};
use crate::block::Block;
use crate::peer::{spec_has_key, spec_key_id, Peer, PeersCatalog};
use crate::transaction::{spec_fees, spec_total_cost, Transaction, TransactionPayload};

verus! {

/// An account-level error, tagged with the account it struck.
#[derive(Debug)]
pub struct AccountsCatalogError {
    pub account_id: u32,
    pub error: AccountError,
}

/// Total held cents over a ledger snapshot.
pub open spec fn sum_held(s: Seq<AccountView>) -> int
    decreases s.len(),
{
    if s.len() == 0 {
        0
    } else {
        sum_held(s.drop_last()) + s.last().held
    }
}

/// Total staked cents over a ledger snapshot.
pub open spec fn sum_staked(s: Seq<AccountView>) -> int
    decreases s.len(),
{
    if s.len() == 0 {
        0
    } else {
        sum_staked(s.drop_last()) + s.last().staked
    }
}

/// Accounts hold non-negative balances.
pub open spec fn balances_nonneg(s: Seq<AccountView>) -> bool {
    forall|j: int| 0 <= j < s.len() ==> (#[trigger] s[j]).held >= 0 && s[j].staked >= 0
}

pub proof fn lemma_sum_update(s: Seq<AccountView>, i: int, v: AccountView)
    requires
        0 <= i < s.len(),
    ensures
        sum_held(s.update(i, v)) == sum_held(s) - s[i].held + v.held,
        sum_staked(s.update(i, v)) == sum_staked(s) - s[i].staked + v.staked,
    decreases s.len(),
{
    if i == s.len() - 1 {
        assert(s.update(i, v).drop_last() =~= s.drop_last());
    } else {
        assert(s.update(i, v).drop_last() =~= s.drop_last().update(i, v));
        lemma_sum_update(s.drop_last(), i, v);
    }
}

pub proof fn lemma_sum_nonneg(s: Seq<AccountView>)
    requires
        balances_nonneg(s),
    ensures
        sum_held(s) >= 0,
        sum_staked(s) >= 0,
    decreases s.len(),
{
    if s.len() > 0 {
        assert(balances_nonneg(s.drop_last()));
        lemma_sum_nonneg(s.drop_last());
    }
}

/// Any one account's balances are bounded by the ledger totals.
pub proof fn lemma_sum_bound(s: Seq<AccountView>, i: int)
    requires
        balances_nonneg(s),
        0 <= i < s.len(),
    ensures
        s[i].held + s[i].staked <= sum_held(s) + sum_staked(s),
        s[i].held <= sum_held(s),
        s[i].staked <= sum_staked(s),
    decreases s.len(),
{
    if i == s.len() - 1 {
        assert(balances_nonneg(s.drop_last()));
        lemma_sum_nonneg(s.drop_last());
    } else {
        assert(balances_nonneg(s.drop_last()));
        lemma_sum_bound(s.drop_last(), i);
        assert(s.drop_last()[i] == s[i]);
    }
}

/// The ledger after one transaction: the sender (when present) is debited
/// the total cost, has the nonce marked used and, for a stake, the amount
/// credited to the staked balance; the recipient (when present) is
/// credited the total cost less the fee.  A sender unable to pay fails
/// the transaction.
pub open spec fn spec_apply_tsx(
    accs: Seq<AccountView>,
    peers: Seq<Peer>,
    tsx: Transaction,
) -> Result<Seq<AccountView>, AccountsCatalogError> {
    let cost = spec_total_cost(tsx.payload);
    let fee = spec_fees(tsx.payload);
    let step1 = if tsx.sndr_addr is Some {
        let i = spec_key_id(peers, tsx.sndr_addr.unwrap()@);
        let a = accs[i];
        if cost > a.held {
            Err(
                AccountsCatalogError {
                    account_id: i as u32,
                    error: AccountError::InsufficientFunds((cost - a.held) as u32),
                },
            )
        } else {
            Ok(
                accs.update(
                    i,
                    AccountView {
                        held: a.held - cost,
                        staked: a.staked + if tsx.payload matches TransactionPayload::Stake(_) {
                            cost - fee
                        } else {
                            0
                        },
                        pool: spec_mark(a.pool, tsx.nonce as int),
                        ..a
                    },
                ),
            )
        }
    } else {
        Ok(accs)
    };
    match step1 {
        Err(e) => Err(e),
        Ok(a1) => if tsx.recp_addr is Some {
            let j = spec_key_id(peers, tsx.recp_addr.unwrap()@);
            let b = a1[j];
            Ok(a1.update(j, AccountView { held: b.held + (cost - fee), ..b }))
        } else {
            Ok(a1)
        },
    }
}

/// Credit a fee to the block's validator, when the block names one.
pub open spec fn spec_credit_validator(
    accs: Seq<AccountView>,
    peers: Seq<Peer>,
    val: Option<crate::crypto::PublicKey>,
    fee: int,
) -> Seq<AccountView> {
    match val {
        None => accs,
        Some(k) => {
            let j = spec_key_id(peers, k@);
            accs.update(j, AccountView { held: accs[j].held + fee, ..accs[j] })
        },
    }
}

/// The ledger after the first `k` transactions of a block, each followed
/// by its fee credited to the block's validator; the first failing
/// transaction's error wins.
pub open spec fn spec_apply_block_prefix(
    accs: Seq<AccountView>,
    peers: Seq<Peer>,
    blk: Block,
    k: int,
) -> Result<Seq<AccountView>, AccountsCatalogError>
    decreases k,
{
    if k <= 0 {
        Ok(accs)
    } else {
        match spec_apply_block_prefix(accs, peers, blk, k - 1) {
            Err(e) => Err(e),
            Ok(a) => match spec_apply_tsx(a, peers, blk.tsxs@[k - 1]) {
                Err(e) => Err(e),
                Ok(b) => Ok(
                    spec_credit_validator(b, peers, blk.val, spec_fees(blk.tsxs@[k - 1].payload)),
                ),
            },
        }
    }
}

/// The ledger after a whole block.
pub open spec fn spec_apply_block(
    accs: Seq<AccountView>,
    peers: Seq<Peer>,
    blk: Block,
) -> Result<Seq<AccountView>, AccountsCatalogError> {
    spec_apply_block_prefix(accs, peers, blk, blk.tsxs@.len() as int)
}

/// Credit a fee to the account of the peer carrying `val_key`.
pub open spec fn spec_credit_validator_key(
    accs: Seq<AccountView>,
    peers: Seq<Peer>,
    val_key: Seq<u8>,
    fee: int,
) -> Seq<AccountView> {
    let j = spec_key_id(peers, val_key);
    accs.update(j, AccountView { held: accs[j].held + fee, ..accs[j] })
}

/// The ledger after minting the first `k` of the given transactions with
/// the validator keyed by `val_key`: exactly a block's application,
/// phrased over the transaction list and the key alone.
pub open spec fn spec_apply_mint_prefix(
    accs: Seq<AccountView>,
    peers: Seq<Peer>,
    tsxs: Seq<Transaction>,
    val_key: Seq<u8>,
    k: int,
) -> Result<Seq<AccountView>, AccountsCatalogError>
    decreases k,
{
    if k <= 0 {
        Ok(accs)
    } else {
        match spec_apply_mint_prefix(accs, peers, tsxs, val_key, k - 1) {
            Err(e) => Err(e),
            Ok(a) => match spec_apply_tsx(a, peers, tsxs[k - 1]) {
                Err(e) => Err(e),
                Ok(b) => Ok(
                    spec_credit_validator_key(b, peers, val_key, spec_fees(tsxs[k - 1].payload)),
                ),
            },
        }
    }
}

/// The ledger after minting all the given transactions.
pub open spec fn spec_apply_mint(
    accs: Seq<AccountView>,
    peers: Seq<Peer>,
    tsxs: Seq<Transaction>,
    val_key: Seq<u8>,
) -> Result<Seq<AccountView>, AccountsCatalogError> {
    spec_apply_mint_prefix(accs, peers, tsxs, val_key, tsxs.len() as int)
}

/// A block that names a validator applies exactly as minting its
/// transactions with that validator's key.
pub proof fn lemma_apply_block_is_mint(
    accs: Seq<AccountView>,
    peers: Seq<Peer>,
    blk: Block,
    k: int,
)
    requires
        blk.val is Some,
    ensures
        spec_apply_block_prefix(accs, peers, blk, k) == spec_apply_mint_prefix(
            accs,
            peers,
            blk.tsxs@,
            blk.val.unwrap()@,
            k,
        ),
    decreases k,
{
    if k > 0 {
        lemma_apply_block_is_mint(accs, peers, blk, k - 1);
    }
}

/// A fresh ledger's contents for `n` peers: account ids equal positions,
/// balances zero, no nonce used.
pub open spec fn spec_zero_accounts(n: nat) -> Seq<AccountView> {
    Seq::new(n, |i: int| AccountView { id: i, held: 0, staked: 0, pool: spec_zero_pool() })
}

/// The ledger of the network: one account per peer, in peer-id order.
#[derive(Debug)]
pub struct AccountsCatalog {
    pub accounts: Vec<Account>,
}

impl View for AccountsCatalog {
    type V = Seq<AccountView>;

    open spec fn view(&self) -> Seq<AccountView> {
        Seq::new(self.accounts@.len(), |i: int| self.accounts@[i]@)
    }
}

impl AccountsCatalog {
    /// Account ids equal their positions, every nonce pool is internally
    /// consistent, and all the money in the ledger fits a `u32`.
    pub open spec fn wf(&self) -> bool {
        &&& forall|i: int| 0 <= i < self.accounts@.len() ==> (#[trigger] self.accounts@[i]).id == i
        &&& forall|i: int| 0 <= i < self.accounts@.len() ==> (#[trigger] self.accounts@[i]).inv()
        &&& sum_held(self@) + sum_staked(self@) <= u32::MAX
    }

    /// One account per peer of the roster.
    pub open spec fn matches_peers(&self, peers: PeersCatalog) -> bool {
        self@.len() == peers.peers@.len()
    }

    /// A fresh ledger for the given roster: one empty account per peer.
    pub fn new(peers: &PeersCatalog) -> (r: Self)
        requires
            peers.peers@.len() <= u32::MAX,
        ensures
            r.wf(),
            r.matches_peers(*peers),
            r@ == spec_zero_accounts(peers.peers@.len()),
            forall|i: int|
                0 <= i < r@.len() ==> {
                    &&& (#[trigger] r@[i]).held == 0
                    &&& r@[i].staked == 0
                    &&& r@[i].pool.next == 0
                    &&& forall|m: int| 0 <= m ==> !r@[i].pool.is_used(m)
                },
    {
        let n = peers.len();
        let mut accounts: Vec<Account> = Vec::new();
        let mut i: usize = 0;
        while i < n
            invariant
                i <= n <= u32::MAX,
                accounts@.len() == i,
                forall|k: int|
                    0 <= k < i ==> {
                        &&& (#[trigger] accounts@[k]).id == k
                        &&& accounts@[k].inv()
                        &&& accounts@[k].held_cents == 0
                        &&& accounts@[k].staked_cents == 0
                        &&& accounts@[k].nonce_pool@ == spec_zero_pool()
                        &&& forall|m: int| 0 <= m ==> !accounts@[k].nonce_pool@.is_used(m)
                    },
            decreases n - i,
        {
            accounts.push(
                Account { id: i as u32, nonce_pool: NoncePool::new(), held_cents: 0, staked_cents: 0 },
            );
            i += 1;
        }
        let r = AccountsCatalog { accounts };
        proof {
            assert(balances_nonneg(r@));
            lemma_sum_all_zero(r@);
            assert(r@ =~= spec_zero_accounts(peers.peers@.len()));
        }
        r
    }

    pub fn get_by_id(&self, id: u32) -> (r: Option<&Account>)
        ensures
            id < self.accounts@.len() ==> (r matches Some(a) && *a == self.accounts@[id as int]),
            id >= self.accounts@.len() ==> r is None,
    {
        if (id as usize) < self.accounts.len() {
            Some(&self.accounts[id as usize])
        } else {
            None
        }
    }

    /// The account with id `id`, writable; the ledger's other accounts
    /// are untouched by whatever the caller writes through it.
    pub fn get_by_id_mut(&mut self, id: u32) -> (r: Option<&mut Account>)
        requires
            id < old(self).accounts@.len(),
        ensures
            (r matches Some(a) && *a == old(self).accounts@[id as int]
                && final(self).accounts@ == old(self).accounts@.update(id as int, *final(a))),
    {
        if (id as usize) < self.accounts.len() {
            Some(&mut self.accounts[id as usize])
        } else {
            None
        }
    }

    /// The account of the peer carrying `publ_key`, writable.
    pub fn get_by_publ_key_mut<'a>(
        &'a mut self,
        peers: &PeersCatalog,
        publ_key: &crate::crypto::PublicKey,
    ) -> (r: Option<&'a mut Account>)
        requires
            peers.wf(),
            old(self).matches_peers(*peers),
        ensures
            spec_has_key(peers.peers@, publ_key@) ==> (r matches Some(a) && *a == old(
                self,
            ).accounts@[spec_key_id(peers.peers@, publ_key@)] && final(self).accounts@ == old(
                self,
            ).accounts@.update(spec_key_id(peers.peers@, publ_key@), *final(a))),
            !spec_has_key(peers.peers@, publ_key@) ==> r is None && *final(self) == *old(self),
    {
        match peers.get_by_publ_key(publ_key) {
            Some(p) => {
                let id = p.id();
                self.get_by_id_mut(id)
            },
            None => None,
        }
    }

    /// The account of the peer carrying `publ_key`, if the roster knows
    /// the key.
    pub fn get_by_publ_key<'a>(&'a self, peers: &PeersCatalog, publ_key: &crate::crypto::PublicKey) -> (r:
        Option<&'a Account>)
        requires
            peers.wf(),
            self.matches_peers(*peers),
        ensures
            spec_has_key(peers.peers@, publ_key@) ==> (r matches Some(a) && *a == self.accounts@[
                spec_key_id(peers.peers@, publ_key@)
            ]),
            !spec_has_key(peers.peers@, publ_key@) ==> r is None,
    {
        match peers.get_by_publ_key(publ_key) {
            Some(p) => self.get_by_id(p.id()),
            None => None,
        }
    }

    pub fn len(&self) -> (r: usize)
        ensures
            r == self@.len(),
    {
        self.accounts.len()
    }

    /// An independent copy of the ledger.
    pub fn duplicate(&self) -> (r: Self)
        ensures
            r.accounts@ == self.accounts@,
            r@ == self@,
    {
        let r = AccountsCatalog { accounts: copy_accounts(&self.accounts) };
        proof {
            assert(r@ =~= self@);
        }
        r
    }

    /// Applies one transaction, all-or-nothing: on an insufficient-funds
    /// error the ledger is unchanged.
    pub fn process_transaction(&mut self, peers: &PeersCatalog, tsx: &Transaction) -> (r: Result<
        (),
        AccountsCatalogError,
    >)
        requires
            old(self).wf(),
            peers.wf(),
            old(self).matches_peers(*peers),
            tsx.wf(),
            tsx_keys_ok(peers.peers@, *tsx),
            tsx.payload matches TransactionPayload::Stake(_) ==> tsx.recp_addr is None,
            tsx.sndr_addr is None ==> sum_held(old(self)@) + sum_staked(old(self)@)
                + spec_total_cost(tsx.payload) <= u32::MAX,
        ensures
            final(self).wf(),
            final(self).matches_peers(*peers),
            match spec_apply_tsx(old(self)@, peers.peers@, *tsx) {
                Ok(a) => r is Ok && final(self)@ == a,
                Err(e) => r == Err::<(), AccountsCatalogError>(e) && *final(self) == *old(self),
            },
    {
        let ghost pre = self@;
        let ghost gpeers = peers.peers@;
        let ghost cost = spec_total_cost(tsx.payload);
        let ghost fee = spec_fees(tsx.payload);
        proof {
            assert(balances_nonneg(pre));
            assert(cost >= fee >= 0);
        }
        let total = tsx.total_cost();
        let fees = tsx.fees();

        let ghost mut mid = pre;
        if let Some(addr) = &tsx.sndr_addr {
            let p = match peers.get_by_publ_key(addr) {
                Some(p) => p,
                None => {
                    proof {
                        assert(false);
                    }
                    vstd::pervasive::unreached()
                },
            };
            let ghost i = spec_key_id(gpeers, tsx.sndr_addr.unwrap()@);
            proof {
                assert(spec_has_key(gpeers, tsx.sndr_addr.unwrap()@));
                assert(0 <= i < gpeers.len());
                lemma_sum_bound(pre, i);
            }
            let idx = p.id() as usize;
            let mut acc = self.accounts[idx];
            if let Err(e) = acc.sub_held(total) {
                return Err(AccountsCatalogError { account_id: acc.id, error: e });
            }
            if let TransactionPayload::Stake(_) = &tsx.payload {
                acc.add_staked(total - fees);
            }
            acc.nonce_pool.mark_used(tsx.nonce);
            self.accounts.set(idx, acc);
            let ghost a0 = pre[i];
            let ghost a2 = AccountView {
                held: a0.held - cost,
                staked: a0.staked + if tsx.payload matches TransactionPayload::Stake(_) {
                    cost - fee
                } else {
                    0
                },
                pool: spec_mark(a0.pool, tsx.nonce as int),
                ..a0
            };
            proof {
                assert(acc@ == a2);
                mid = pre.update(i, a2);
                assert(self@ =~= mid);
                lemma_sum_update(pre, i, a2);
                assert(balances_nonneg(mid));
            }
        }

        if let Some(addr) = &tsx.recp_addr {
            let p = match peers.get_by_publ_key(addr) {
                Some(p) => p,
                None => {
                    proof {
                        assert(false);
                    }
                    vstd::pervasive::unreached()
                },
            };
            let ghost j = spec_key_id(gpeers, tsx.recp_addr.unwrap()@);
            proof {
                assert(spec_has_key(gpeers, tsx.recp_addr.unwrap()@));
                assert(0 <= j < gpeers.len());
                lemma_sum_bound(mid, j);
                lemma_sum_nonneg(mid);
            }
            let idx = p.id() as usize;
            let mut acc = self.accounts[idx];
            acc.add_held(total - fees);
            self.accounts.set(idx, acc);
            let ghost b0 = mid[j];
            let ghost b2 = AccountView { held: b0.held + (cost - fee), ..b0 };
            proof {
                assert(acc@ == b2);
                assert(self@ =~= mid.update(j, b2));
                mid = mid.update(j, b2);
            }
        }

        proof {
            assert(spec_apply_tsx(pre, gpeers, *tsx) matches Ok(a) && a =~= self@);
            lemma_apply_tsx_sums(pre, gpeers, *tsx);
        }
        Ok(())
    }

    /// Applies a whole block transactionally: the work happens on a copy,
    /// and on any transaction's failure the ledger is unchanged.  Each
    /// applied transaction's fee is credited to the block's validator.
    pub fn process_block(&mut self, peers: &PeersCatalog, blk: &Block) -> (r: Result<
        (),
        AccountsCatalogError,
    >)
        requires
            old(self).wf(),
            peers.wf(),
            old(self).matches_peers(*peers),
            block_keys_ok(peers.peers@, *blk),
        ensures
            final(self).wf(),
            final(self).matches_peers(*peers),
            match spec_apply_block(old(self)@, peers.peers@, *blk) {
                Ok(a) => r is Ok && final(self)@ == a,
                Err(e) => r == Err::<(), AccountsCatalogError>(e) && *final(self) == *old(self),
            },
    {
        let ghost pre = self@;
        let ghost gpeers = peers.peers@;
        let mut work = AccountsCatalog { accounts: copy_accounts(&self.accounts) };
        proof {
            assert(work@ =~= pre);
        }
        let n = blk.tsxs.len();
        let mut k: usize = 0;
        while k < n
            invariant
                k <= n,
                n == blk.tsxs@.len(),
                *self == *old(self),
                self@ == pre,
                gpeers == peers.peers@,
                self.wf(),
                peers.wf(),
                self.matches_peers(*peers),
                block_keys_ok(gpeers, *blk),
                work.wf(),
                work.matches_peers(*peers),
                spec_apply_block_prefix(pre, gpeers, *blk, k as int) == Ok::<
                    Seq<AccountView>,
                    AccountsCatalogError,
                >(work@),
            decreases n - k,
        {
            let ghost before = work@;
            match work.process_transaction(peers, &blk.tsxs[k]) {
                Err(e) => {
                    proof {
                        assert(spec_apply_block_prefix(pre, gpeers, *blk, k + 1) == Err::<
                            Seq<AccountView>,
                            AccountsCatalogError,
                        >(e));
                        lemma_prefix_err_mono(pre, gpeers, *blk, k + 1, n as int);
                    }
                    return Err(e);
                },
                Ok(()) => (),
            }
            let ghost after_tsx = work@;
            let ghost fee = spec_fees(blk.tsxs@[k as int].payload);

            if let Some(v) = &blk.val {
                let p = match peers.get_by_publ_key(v) {
                    Some(p) => p,
                    None => {
                        proof {
                            assert(false);
                        }
                        vstd::pervasive::unreached()
                    },
                };
                let ghost j = spec_key_id(gpeers, blk.val.unwrap()@);
                proof {
                    assert(spec_has_key(gpeers, blk.val.unwrap()@));
                    assert(0 <= j < gpeers.len());
                    assert(balances_nonneg(before));
                    lemma_apply_tsx_sums(before, gpeers, blk.tsxs@[k as int]);
                    lemma_sum_bound(after_tsx, j);
                }
                let idx = p.id() as usize;
                let mut acc = work.accounts[idx];
                acc.add_held(blk.tsxs[k].fees());
                work.accounts.set(idx, acc);
                let ghost c2 = AccountView { held: after_tsx[j].held + fee, ..after_tsx[j] };
                proof {
                    assert(acc@ == c2);
                    assert(work@ =~= after_tsx.update(j, c2));
                    assert(work@ =~= spec_credit_validator(after_tsx, gpeers, blk.val, fee));
                    lemma_sum_update(after_tsx, j, c2);
                }
            } else {
                proof {
                    assert(work@ == spec_credit_validator(after_tsx, gpeers, blk.val, fee));
                }
            }

            proof {
                assert(spec_apply_block_prefix(pre, gpeers, *blk, k + 1) matches Ok(a) && a
                    =~= work@);
            }
            k += 1;
        }

        self.accounts = work.accounts;
        proof {
            assert(self@ =~= work@);
        }
        Ok(())
    }
}

/// What `process_block` needs of a block: every transaction is priced and
/// signed by a roster sender, stakes name no recipient, and the validator
/// (when named) is on the roster.
pub open spec fn block_keys_ok(peers: Seq<Peer>, blk: Block) -> bool {
    &&& forall|k: int| 0 <= k < blk.tsxs@.len() ==> (#[trigger] blk.tsxs@[k]).wf()
    &&& forall|k: int|
        0 <= k < blk.tsxs@.len() ==> tsx_keys_ok(peers, #[trigger] blk.tsxs@[k])
    &&& forall|k: int| 0 <= k < blk.tsxs@.len() ==> (#[trigger] blk.tsxs@[k]).sndr_addr is Some
    &&& forall|k: int|
        0 <= k < blk.tsxs@.len() ==> ((#[trigger] blk.tsxs@[k]).recp_addr is Some <==> !(
        blk.tsxs@[k].payload matches TransactionPayload::Stake(_)))
    &&& (blk.val matches Some(k) ==> spec_has_key(peers, k@))
}

/// Once a prefix of the block fails, every longer prefix fails the same
/// way.
pub proof fn lemma_prefix_err_mono(
    accs: Seq<AccountView>,
    peers: Seq<Peer>,
    blk: Block,
    k: int,
    n: int,
)
    requires
        0 <= k <= n,
        spec_apply_block_prefix(accs, peers, blk, k) is Err,
    ensures
        spec_apply_block_prefix(accs, peers, blk, n) == spec_apply_block_prefix(
            accs,
            peers,
            blk,
            k,
        ),
    decreases n - k,
{
    if k < n {
        lemma_prefix_err_mono(accs, peers, blk, k, n - 1);
    }
}

/// The sums after a successful block prefix: fees leave the held total at
/// each transaction and come right back to the validator, so the overall
/// total is unchanged.
pub proof fn lemma_prefix_sums(accs: Seq<AccountView>, peers: Seq<Peer>, blk: Block, k: int)
    requires
        accs.len() == peers.len(),
        balances_nonneg(accs),
        block_keys_ok(peers, blk),
        blk.val is Some,
        0 <= k <= blk.tsxs@.len(),
        spec_apply_block_prefix(accs, peers, blk, k) is Ok,
    ensures
        ({
            let a = spec_apply_block_prefix(accs, peers, blk, k).unwrap();
            &&& a.len() == accs.len()
            &&& balances_nonneg(a)
            &&& sum_held(a) + sum_staked(a) == sum_held(accs) + sum_staked(accs)
        }),
    decreases k,
{
    if k > 0 {
        lemma_prefix_sums(accs, peers, blk, k - 1);
        let a = spec_apply_block_prefix(accs, peers, blk, k - 1).unwrap();
        let tsx = blk.tsxs@[k - 1];
        let fee = spec_fees(tsx.payload);
        lemma_apply_tsx_sums(a, peers, tsx);
        let b = spec_apply_tsx(a, peers, tsx).unwrap();
        assert(fee >= 0);
        let vk = blk.val.unwrap();
        assert(spec_has_key(peers, vk@));
        let j = spec_key_id(peers, vk@);
        assert(0 <= j < peers.len());
        lemma_sum_update(b, j, AccountView { held: b[j].held + fee, ..b[j] });
        assert(balances_nonneg(spec_credit_validator(b, peers, blk.val, fee)));
    }
}

/// Ledger conservation, modulo fees: a processed block never changes the
/// total money in the system, so what the held total loses is exactly
/// what the staked total gains.
pub proof fn lemma_block_conservation(accs: Seq<AccountView>, peers: Seq<Peer>, blk: Block)
    requires
        accs.len() == peers.len(),
        balances_nonneg(accs),
        block_keys_ok(peers, blk),
        blk.val is Some,
        spec_apply_block(accs, peers, blk) is Ok,
    ensures
        ({
            let a = spec_apply_block(accs, peers, blk).unwrap();
            &&& sum_held(a) + sum_staked(a) == sum_held(accs) + sum_staked(accs)
            &&& sum_held(a) == sum_held(accs) - (sum_staked(a) - sum_staked(accs))
        }),
{
    lemma_prefix_sums(accs, peers, blk, blk.tsxs@.len() as int);
}

/// Copies a ledger's accounts.
fn copy_accounts(v: &Vec<Account>) -> (r: Vec<Account>)
    ensures
        r@ == v@,
{
    let mut r: Vec<Account> = Vec::new();
    let mut i: usize = 0;
    while i < v.len()
        invariant
            i <= v@.len(),
            r@ == v@.subrange(0, i as int),
        decreases v@.len() - i,
    {
        r.push(v[i]);
        proof {
            assert(r@ =~= v@.subrange(0, i + 1));
        }
        i += 1;
    }
    proof {
        assert(r@ =~= v@);
    }
    r
}

/// Both parties of a transaction that names them are on the roster.
pub open spec fn tsx_keys_ok(peers: Seq<Peer>, tsx: Transaction) -> bool {
    &&& (tsx.sndr_addr matches Some(k) ==> spec_has_key(peers, k@))
    &&& (tsx.recp_addr matches Some(k) ==> spec_has_key(peers, k@))
}

/// How one applied transaction moves the ledger totals: the fee leaves
/// the held total (nothing else does), and only a stake moves cents into
/// the staked total.
pub proof fn lemma_apply_tsx_sums(accs: Seq<AccountView>, peers: Seq<Peer>, tsx: Transaction)
    requires
        accs.len() == peers.len(),
        balances_nonneg(accs),
        tsx_keys_ok(peers, tsx),
        tsx.wf(),
        spec_apply_tsx(accs, peers, tsx) is Ok,
    ensures
        ({
            let a = spec_apply_tsx(accs, peers, tsx).unwrap();
            let cost = spec_total_cost(tsx.payload);
            let fee = spec_fees(tsx.payload);
            &&& a.len() == accs.len()
            &&& balances_nonneg(a)
            &&& sum_held(a) == sum_held(accs) - (if tsx.sndr_addr is Some {
                cost
            } else {
                0
            }) + (if tsx.recp_addr is Some {
                cost - fee
            } else {
                0
            })
            &&& sum_staked(a) == sum_staked(accs) + (if tsx.sndr_addr is Some
                && tsx.payload matches TransactionPayload::Stake(_) {
                cost - fee
            } else {
                0
            })
        }),
{
    let cost = spec_total_cost(tsx.payload);
    let fee = spec_fees(tsx.payload);
    assert(cost >= fee >= 0);
    if tsx.sndr_addr is Some {
        assert(spec_has_key(peers, tsx.sndr_addr.unwrap()@));
        let i = spec_key_id(peers, tsx.sndr_addr.unwrap()@);
        assert(0 <= i < peers.len() && peers[i].publ_key@ == tsx.sndr_addr.unwrap()@);
        let a0 = accs[i];
        let a2 = AccountView {
            held: a0.held - cost,
            staked: a0.staked + if tsx.payload matches TransactionPayload::Stake(_) {
                cost - fee
            } else {
                0
            },
            pool: spec_mark(a0.pool, tsx.nonce as int),
            ..a0
        };
        let mid = accs.update(i, a2);
        lemma_sum_update(accs, i, a2);
        assert(balances_nonneg(mid));
        if tsx.recp_addr is Some {
            assert(spec_has_key(peers, tsx.recp_addr.unwrap()@));
            let j = spec_key_id(peers, tsx.recp_addr.unwrap()@);
            assert(0 <= j < peers.len() && peers[j].publ_key@ == tsx.recp_addr.unwrap()@);
            let b = mid[j];
            let b2 = AccountView { held: b.held + (cost - fee), ..b };
            lemma_sum_update(mid, j, b2);
            assert(balances_nonneg(mid.update(j, b2)));
        }
    } else {
        if tsx.recp_addr is Some {
            assert(spec_has_key(peers, tsx.recp_addr.unwrap()@));
            let j = spec_key_id(peers, tsx.recp_addr.unwrap()@);
            assert(0 <= j < peers.len() && peers[j].publ_key@ == tsx.recp_addr.unwrap()@);
            let b = accs[j];
            let b2 = AccountView { held: b.held + (cost - fee), ..b };
            lemma_sum_update(accs, j, b2);
            assert(balances_nonneg(accs.update(j, b2)));
        }
    }
}

proof fn lemma_sum_all_zero(s: Seq<AccountView>)
    requires
        forall|j: int| 0 <= j < s.len() ==> (#[trigger] s[j]).held == 0 && s[j].staked == 0,
    ensures
        sum_held(s) == 0,
        sum_staked(s) == 0,
    decreases s.len(),
{
    if s.len() > 0 {
        lemma_sum_all_zero(s.drop_last());
    }
}

} // verus!
