use vstd::prelude::*;

use crate::account::AccountView;
use crate::accounts_catalog::{
    balances_nonneg, block_keys_ok, spec_apply_block, spec_apply_tsx, sum_staked, tsx_keys_ok,
    AccountsCatalog, AccountsCatalogError,
};
use crate::block_validator::{
    spec_block_semantics_result, spec_block_structure_result, BlockValidator,
};
use crate::block::{spec_block_hash_input, Block, BLOCK_CAPACITY};
use crate::blockchain::Blockchain;
use crate::cli::Command;
use crate::crypto::{public_der_of, PrivateKey, PublicKey};
use crate::peer::{Peer, PeersCatalog};
use crate::transaction::{Transaction, TransactionPayload};
use crate::transaction_validator::{
    spec_semantics_result, spec_structure_result, TransactionValidator,
};

verus! {

// The user sees coins; the ledger holds integer cents so that no rounding
// ever occurs.
pub const CENTS_PER_COIN: u32 = 100;

pub const TRANSFER_FEE_PERCENTAGE: u32 = 3;

pub const MESSAGE_FEE_PER_CHARACTER_CENTS: u32 = 100;

pub const MINIMUM_TRANSFER_FEE_CENTS: u32 = 1;

/// The first 32 random bits ChaCha12 yields from a 32-byte seed: fixed by
/// the seed alone.
pub uninterp spec fn chacha12_first_u32(seed: Seq<u8>) -> u32;

/// Relies on `rand_chacha::ChaCha12Rng::from_seed` and
/// `rand::RngCore::next_u32`: the stream is a pure function of the seed,
/// so the first draw is too.
#[verifier::external_body]
fn chacha12_draw(seed: &[u8; 32]) -> (r: u32)
    ensures
        r == chacha12_first_u32(seed@),
{
    let mut rng = <rand_chacha::ChaCha12Rng as rand::SeedableRng>::from_seed(*seed);
    rand::RngCore::next_u32(&mut rng)
}

/// The first account index whose running stake total, started at `acc`
/// from index `i`, strictly exceeds the winning ticket `w`.
pub open spec fn spec_winner_index(accs: Seq<AccountView>, w: int, i: int, acc: int) -> int
    decreases accs.len() - i,
{
    if i >= accs.len() {
        i
    } else if acc + accs[i].staked > w {
        i
    } else {
        spec_winner_index(accs, w, i + 1, acc + accs[i].staked)
    }
}

/// The elected validator's id for a ledger snapshot and a 32-bit draw:
/// with no stake anywhere, the draw picks an account uniformly; otherwise
/// every staked cent is a ticket and the first account whose running
/// total exceeds the drawn ticket wins.
pub open spec fn spec_elected(accs: Seq<AccountView>, draw: u32) -> int {
    let total = sum_staked(accs);
    if total == 0 {
        accs[draw as int % (accs.len() as int)].id
    } else {
        accs[spec_winner_index(accs, draw as int % total, 0, 0)].id
    }
}

/// Validator election is deterministic: two nodes holding the same
/// committed accounts and the same last block hash predict the same
/// validator.
pub proof fn lemma_validator_deterministic(
    a1: Seq<AccountView>,
    a2: Seq<AccountView>,
    s1: Seq<u8>,
    s2: Seq<u8>,
)
    requires
        a1 == a2,
        s1 == s2,
    ensures
        spec_elected(a1, chacha12_first_u32(s1)) == spec_elected(a2, chacha12_first_u32(s2)),
{
}

proof fn lemma_sum_staked_zero(s: Seq<AccountView>)
    requires
        forall|i: int| 0 <= i < s.len() ==> (#[trigger] s[i]).staked == 0,
    ensures
        sum_staked(s) == 0,
    decreases s.len(),
{
    if s.len() > 0 {
        lemma_sum_staked_zero(s.drop_last());
    }
}

/// When nobody has staked, the lottery is uniform: the winner is exactly
/// the account whose id is the draw reduced modulo the number of peers.
pub proof fn lemma_uniform_when_unstaked(accs: Seq<AccountView>, draw: u32)
    requires
        accs.len() >= 1,
        forall|i: int| 0 <= i < accs.len() ==> (#[trigger] accs[i]).staked == 0,
        forall|i: int| 0 <= i < accs.len() ==> (#[trigger] accs[i]).id == i,
    ensures
        spec_elected(accs, draw) == draw as int % (accs.len() as int),
{
    lemma_sum_staked_zero(accs);
}

proof fn lemma_sum_staked_prefix_step(s: Seq<AccountView>, k: int)
    requires
        0 <= k < s.len(),
    ensures
        sum_staked(s.subrange(0, k + 1)) == sum_staked(s.subrange(0, k)) + s[k].staked,
{
    assert(s.subrange(0, k + 1).drop_last() =~= s.subrange(0, k));
    assert(s.subrange(0, k + 1).last() == s[k]);
}

proof fn lemma_sum_staked_prefix_le(s: Seq<AccountView>, k: int)
    requires
        balances_nonneg(s),
        0 <= k <= s.len(),
    ensures
        sum_staked(s.subrange(0, k)) <= sum_staked(s),
    decreases s.len() - k,
{
    if k == s.len() {
        assert(s.subrange(0, k) =~= s);
    } else {
        lemma_sum_staked_prefix_step(s, k);
        lemma_sum_staked_prefix_le(s, k + 1);
    }
}

/// Chooses the next validator from the committed ledger and the last
/// block's hash, deterministically: one ChaCha12 draw, then a walk over
/// the accounts in id order.
pub fn elect_validator(accounts: &AccountsCatalog, seed: &[u8; 32]) -> (r: u32)
    requires
        accounts.wf(),
        accounts@.len() >= 1,
    ensures
        r == spec_elected(accounts@, chacha12_first_u32(seed@)),
{
    let ghost accs = accounts@;
    proof {
        assert(balances_nonneg(accs));
    }
    let n = accounts.len();

    // Total tickets: one per staked cent.
    let mut stake_sum: u32 = 0;
    let mut i: usize = 0;
    proof {
        assert(accs.subrange(0, 0) =~= Seq::<AccountView>::empty());
    }
    while i < n
        invariant
            0 <= i <= n,
            n == accs.len(),
            accs == accounts@,
            accounts.wf(),
            balances_nonneg(accs),
            stake_sum == sum_staked(accs.subrange(0, i as int)),
        decreases n - i,
    {
        proof {
            lemma_sum_staked_prefix_step(accs, i as int);
            lemma_sum_staked_prefix_le(accs, i + 1);
            crate::accounts_catalog::lemma_sum_nonneg(accs);
        }
        stake_sum = stake_sum + accounts.accounts[i].staked_cents;
        i += 1;
    }
    proof {
        assert(accs.subrange(0, n as int) =~= accs);
    }

    let draw = chacha12_draw(seed);

    if stake_sum == 0 {
        let w = (draw as usize) % n;
        return accounts.accounts[w].id;
    }

    let w = draw % stake_sum;
    let ghost wi = w as int;
    let mut acc: u32 = 0;
    let mut i: usize = 0;
    proof {
        assert(accs.subrange(0, 0) =~= Seq::<AccountView>::empty());
    }
    while i < n
        invariant
            0 <= i <= n,
            n == accs.len(),
            accs == accounts@,
            accounts.wf(),
            balances_nonneg(accs),
            acc == sum_staked(accs.subrange(0, i as int)),
            acc <= wi,
            wi < sum_staked(accs),
            sum_staked(accs) != 0,
            wi == w as int,
            wi == chacha12_first_u32(seed@) as int % sum_staked(accs),
            spec_winner_index(accs, wi, 0, 0) == spec_winner_index(accs, wi, i as int, acc as int),
        decreases n - i,
    {
        proof {
            lemma_sum_staked_prefix_step(accs, i as int);
            lemma_sum_staked_prefix_le(accs, i + 1);
            crate::accounts_catalog::lemma_sum_nonneg(accs);
        }
        let next_acc = acc + accounts.accounts[i].staked_cents;
        if next_acc > w {
            proof {
                assert(spec_winner_index(accs, wi, i as int, acc as int) == i);
            }
            return accounts.accounts[i].id;
        }
        acc = next_acc;
        i += 1;
    }
    proof {
        assert(accs.subrange(0, n as int) =~= accs);
        assert(false);
    }
    vstd::pervasive::unreached()
}

/// One genesis transaction admitted into a fresh ledger: it must be
/// priced, name roster parties correctly, and keep the ledger total
/// within a `u32`; anything else makes the genesis block unacceptable.
pub open spec fn spec_genesis_step(
    accs: Seq<AccountView>,
    peers: Seq<Peer>,
    tsx: Transaction,
) -> Option<Seq<AccountView>> {
    if !({
        &&& tsx.wf()
        &&& tsx_keys_ok(peers, tsx)
        &&& (tsx.recp_addr is Some <==> !(tsx.payload matches TransactionPayload::Stake(_)))
        &&& (tsx.sndr_addr is None ==> crate::accounts_catalog::sum_held(accs)
            + crate::accounts_catalog::sum_staked(accs) + crate::transaction::spec_total_cost(
            tsx.payload,
        ) <= u32::MAX)
    }) {
        None
    } else {
        match spec_apply_tsx(accs, peers, tsx) {
            Ok(a) => Some(a),
            Err(_) => None,
        }
    }
}

/// A fresh ledger seeded by the first `k` genesis transactions.
pub open spec fn spec_genesis_fold(
    accs: Seq<AccountView>,
    peers: Seq<Peer>,
    tsxs: Seq<Transaction>,
    k: int,
) -> Option<Seq<AccountView>>
    decreases k,
{
    if k <= 0 {
        Some(accs)
    } else {
        match spec_genesis_fold(accs, peers, tsxs, k - 1) {
            None => None,
            Some(a) => spec_genesis_step(a, peers, tsxs[k - 1]),
        }
    }
}

proof fn lemma_sum_all_zero_accounts(n: nat)
    ensures
        crate::accounts_catalog::sum_held(crate::accounts_catalog::spec_zero_accounts(n)) == 0,
        crate::accounts_catalog::sum_staked(crate::accounts_catalog::spec_zero_accounts(n)) == 0,
    decreases n,
{
    if n > 0 {
        lemma_sum_all_zero_accounts((n - 1) as nat);
        assert(crate::accounts_catalog::spec_zero_accounts(n).drop_last()
            =~= crate::accounts_catalog::spec_zero_accounts((n - 1) as nat));
    }
}

/// Once a prefix of the genesis grants is refused, the whole block is.
proof fn lemma_genesis_none_mono(
    accs: Seq<AccountView>,
    peers: Seq<Peer>,
    tsxs: Seq<Transaction>,
    k: int,
    n: int,
)
    requires
        0 <= k <= n,
        spec_genesis_fold(accs, peers, tsxs, k) is None,
    ensures
        spec_genesis_fold(accs, peers, tsxs, n) is None,
    decreases n - k,
{
    if k < n {
        lemma_genesis_none_mono(accs, peers, tsxs, k + 1, n);
    }
}

/// Why a node could not start.
#[derive(Debug)]
pub enum StartError {
    UnknownSelfKey,
    InvalidGenesis,
}

/// Why a client command was refused; the I/O layer renders these as the
/// replies the client sees.
#[derive(Debug)]
pub enum CommandError {
    SelfSend,
    UnknownRecipient,
    EmptyMessage,
    InsufficientCoins,
}

/// The frames peers multiplex on one socket.
#[derive(Debug)]
pub enum Broadcast {
    Transaction(Transaction),
    Block(Block),
    Command(Command),
}

/// Why the engine refused a transaction: a structural fault, a semantic
/// fault against the soft ledger, or — for a locally built transaction,
/// which skips validation — a failure while applying it.
#[derive(Debug)]
pub enum HandleTransactionError {
    Structure(crate::transaction_validator::ValidateStructureError),
    Semantics(crate::transaction_validator::ValidateSemanticsError),
    Apply(AccountsCatalogError),
}

/// What pending transactions are guaranteed to satisfy: priced, signed by
/// a roster sender, recipient present exactly when the payload wants one.
pub open spec fn pending_tsx_ok(peers: Seq<Peer>, tsx: Transaction) -> bool {
    &&& tsx.wf()
    &&& tsx.sndr_addr is Some
    &&& (tsx.recp_addr is Some <==> !(tsx.payload matches TransactionPayload::Stake(_)))
    &&& tsx_keys_ok(peers, tsx)
}

/// Whether the block carries a transaction with the same hash.
pub open spec fn spec_hash_in_block(blk: Block, tsx: Transaction) -> bool {
    exists|i: int| 0 <= i < blk.tsxs@.len() && blk.tsxs@[i].hash@ == tsx.hash@
}

/// The soft state rebuilt after a block: starting from the new committed
/// ledger, every pending transaction mined in the block is dropped, the
/// rest are re-applied in order, and those that now fail are dropped.
/// Yields the rebuilt ledger and the retained transactions.
pub open spec fn spec_rebuild(
    accs: Seq<AccountView>,
    peers: Seq<Peer>,
    blk: Block,
    pending: Seq<Transaction>,
    k: int,
) -> (Seq<AccountView>, Seq<Transaction>)
    decreases k,
{
    if k <= 0 {
        (accs, Seq::empty())
    } else {
        let (a, kept) = spec_rebuild(accs, peers, blk, pending, k - 1);
        let tsx = pending[k - 1];
        if spec_hash_in_block(blk, tsx) {
            (a, kept)
        } else {
            match spec_apply_tsx(a, peers, tsx) {
                Ok(a2) => (a2, kept.push(tsx)),
                Err(_) => (a, kept),
            }
        }
    }
}

/// Why the engine refused a block: a structural fault, a semantic fault
/// against the committed ledger and chain, or a failure while applying a
/// block that validated (possible, since transactions are validated
/// against the pre-block ledger, not against one another).
#[derive(Debug)]
pub enum HandleBlockError {
    Structure(crate::block_validator::ValidateStructureError),
    Semantics(crate::block_validator::ValidateSemanticsError),
    Apply(AccountsCatalogError),
}

/// The engine's running state: the node's id, the fixed roster, the two
/// ledgers (committed and projected), the pending transactions, the
/// chain, and the memoized next-validator prediction.
pub struct ProtocolState {
    pub id: u32,
    pub peers: PeersCatalog,
    pub soft_accounts: AccountsCatalog,
    pub hard_accounts: AccountsCatalog,
    pub pending_transactions: Vec<Transaction>,
    pub blockchain: Blockchain,
    pub next_validator_id: Option<u32>,
}

impl ProtocolState {
    pub open spec fn wf(&self) -> bool {
        &&& self.peers.wf()
        &&& self.hard_accounts.wf()
        &&& self.hard_accounts.matches_peers(self.peers)
        &&& self.soft_accounts.wf()
        &&& self.soft_accounts.matches_peers(self.peers)
        &&& self.blockchain.wf()
        &&& (self.id as int) < self.peers.peers@.len()
        &&& forall|i: int|
            0 <= i < self.pending_transactions@.len() ==> pending_tsx_ok(
                self.peers.peers@,
                #[trigger] self.pending_transactions@[i],
            )
        &&& (self.next_validator_id matches Some(v) ==> v as int == spec_elected(
            self.hard_accounts@,
            chacha12_first_u32(self.blockchain.blocks@.last().hash@),
        ))
    }

    /// Rebuilds the projection from the committed ledger: pending
    /// transactions mined in `blk` are dropped, the rest re-applied in
    /// order, and those that now fail dropped.
    fn rebuild_soft(&mut self, blk: &Block)
        requires
            old(self).peers.wf(),
            old(self).hard_accounts.wf(),
            old(self).hard_accounts.matches_peers(old(self).peers),
            forall|i: int|
                0 <= i < old(self).pending_transactions@.len() ==> pending_tsx_ok(
                    old(self).peers.peers@,
                    #[trigger] old(self).pending_transactions@[i],
                ),
        ensures
            final(self).id == old(self).id,
            final(self).peers == old(self).peers,
            final(self).hard_accounts == old(self).hard_accounts,
            final(self).blockchain == old(self).blockchain,
            final(self).next_validator_id == old(self).next_validator_id,
            final(self).soft_accounts.wf(),
            final(self).soft_accounts.matches_peers(old(self).peers),
            forall|i: int|
                0 <= i < final(self).pending_transactions@.len() ==> pending_tsx_ok(
                    old(self).peers.peers@,
                    #[trigger] final(self).pending_transactions@[i],
                ),
            ({
                let (a, kept) = spec_rebuild(
                    old(self).hard_accounts@,
                    old(self).peers.peers@,
                    *blk,
                    old(self).pending_transactions@,
                    old(self).pending_transactions@.len() as int,
                );
                final(self).soft_accounts@ == a && final(self).pending_transactions@ == kept
            }),
    {
        let ghost pend0 = self.pending_transactions@;
        let ghost gpeers = self.peers.peers@;
        let n0: usize = self.pending_transactions.len();
        let ghost n = pend0.len() as int;
        let mut new_soft = self.hard_accounts.duplicate();
        let mut kept: Vec<Transaction> = Vec::new();
        let mut k: usize = 0;
        proof {
            assert(pend0.subrange(0, n) =~= pend0);
        }
        while self.pending_transactions.len() > 0
            invariant
                0 <= k <= n,
                n == pend0.len(),
                n == n0,
                self.id == old(self).id,
                self.peers == old(self).peers,
                self.hard_accounts == old(self).hard_accounts,
                self.blockchain == old(self).blockchain,
                self.next_validator_id == old(self).next_validator_id,
                self.soft_accounts == old(self).soft_accounts,
                gpeers == self.peers.peers@,
                self.peers.wf(),
                self.hard_accounts.wf(),
                self.hard_accounts.matches_peers(self.peers),
                new_soft.wf(),
                new_soft.matches_peers(self.peers),
                self.pending_transactions@ == pend0.subrange(k as int, n),
                forall|i: int|
                    0 <= i < pend0.len() ==> pending_tsx_ok(gpeers, #[trigger] pend0[i]),
                forall|i: int|
                    0 <= i < kept@.len() ==> pending_tsx_ok(gpeers, #[trigger] kept@[i]),
                ({
                    let (a, kp) = spec_rebuild(self.hard_accounts@, gpeers, *blk, pend0, k as int);
                    new_soft@ == a && kept@ == kp
                }),
            decreases n - k,
        {
            proof {
                assert(self.pending_transactions@.len() == n - k);
            }
            let tsx = self.pending_transactions.remove(0);
            proof {
                assert(tsx == pend0[k as int]);
                assert(self.pending_transactions@ =~= pend0.subrange(k + 1, n));
            }

            // Was this transaction mined in the block?
            let mut in_block = false;
            let mut j: usize = 0;
            let bn = blk.tsxs.len();
            while j < bn
                invariant
                    j <= bn,
                    bn == blk.tsxs@.len(),
                    in_block == exists|t: int|
                        0 <= t < j && blk.tsxs@[t].hash@ == tsx.hash@,
                decreases bn - j,
            {
                if crate::bytes::bytes32_eq(&blk.tsxs[j].hash, &tsx.hash) {
                    in_block = true;
                }
                j += 1;
            }
            proof {
                assert(in_block == spec_hash_in_block(*blk, tsx));
            }

            if !in_block {
                match new_soft.process_transaction(&self.peers, &tsx) {
                    Ok(_) => {
                        kept.push(tsx);
                    },
                    Err(_) => (),
                }
            }
            k += 1;
        }
        proof {
            assert(k as int == n);
        }
        self.soft_accounts = new_soft;
        self.pending_transactions = kept;
    }
}

/// A node of the network: its key pair and, once started, its state.
pub struct Protocol {
    pub priv_key: PrivateKey,
    pub publ_key: PublicKey,
    pub state: Option<ProtocolState>,
}

impl Protocol {
    pub open spec fn wf(&self) -> bool {
        &&& self.publ_key@ == public_der_of(self.priv_key@)
        &&& (self.state matches Some(st) ==> st.wf() && st.peers.peers@[st.id as int].publ_key@
            == self.publ_key@)
    }

    pub fn new(priv_key: PrivateKey) -> (r: Self)
        ensures
            r.wf(),
            r.state is None,
            r.priv_key == priv_key,
            r.publ_key@ == public_der_of(priv_key@),
    {
        let publ_key = priv_key.to_publ_key();
        Protocol { priv_key, publ_key, state: None }
    }

    /// The predicted validator of the next block: deterministic in the
    /// committed ledger and the last block's hash, and memoized until the
    /// next block arrives.
    pub fn proof_of_stake(&mut self) -> (r: u32)
        requires
            old(self).wf(),
            old(self).state is Some,
        ensures
            final(self).wf(),
            ({
                let st0 = old(self).state.unwrap();
                &&& r as int == spec_elected(
                    st0.hard_accounts@,
                    chacha12_first_u32(st0.blockchain.blocks@.last().hash@),
                )
                &&& *final(self) == (Protocol {
                    state: Some(ProtocolState { next_validator_id: Some(r), ..st0 }),
                    ..*old(self)
                })
            }),
    {
        match &mut self.state {
            Some(st) => {
                if let Some(id) = st.next_validator_id {
                    return id;
                }
                let seed = *st.blockchain.last_block().hash();
                let v = elect_validator(&st.hard_accounts, &seed);
                st.next_validator_id = Some(v);
                v
            },
            None => {
                proof {
                    assert(false);
                }
                vstd::pervasive::unreached()
            },
        }
    }

    /// Admits a transaction: a network transaction is validated against
    /// the soft ledger and dropped with the fault on failure; a locally
    /// built one skips validation.  An admitted transaction is applied to
    /// the soft ledger and queued for the next block.
    pub fn handle_transaction(&mut self, tsx: Transaction, is_local: bool) -> (r: Result<
        (),
        HandleTransactionError,
    >)
        requires
            old(self).wf(),
            old(self).state is Some,
            tsx.wf(),
            is_local ==> pending_tsx_ok(old(self).state.unwrap().peers.peers@, tsx),
        ensures
            final(self).wf(),
            final(self).state is Some,
            ({
                let st0 = old(self).state.unwrap();
                let st1 = final(self).state.unwrap();
                &&& final(self).priv_key == old(self).priv_key
                &&& final(self).publ_key == old(self).publ_key
                &&& st1.id == st0.id
                &&& st1.peers == st0.peers
                &&& st1.hard_accounts == st0.hard_accounts
                &&& st1.blockchain == st0.blockchain
                &&& st1.next_validator_id == st0.next_validator_id
                &&& match r {
                    Ok(_) => {
                        &&& (!is_local ==> spec_structure_result(tsx) is Ok
                            && spec_semantics_result(tsx, st0.peers.peers@, st0.soft_accounts@)
                            is Ok)
                        &&& (spec_apply_tsx(st0.soft_accounts@, st0.peers.peers@, tsx) matches Ok(a)
                            && st1.soft_accounts@ == a)
                        &&& st1.pending_transactions@ == st0.pending_transactions@.push(tsx)
                    },
                    Err(HandleTransactionError::Structure(e)) => !is_local
                        && spec_structure_result(tsx) == Err::<(), _>(e) && st1 == st0,
                    Err(HandleTransactionError::Semantics(e)) => !is_local && spec_structure_result(
                        tsx,
                    ) is Ok && spec_semantics_result(tsx, st0.peers.peers@, st0.soft_accounts@)
                        == Err::<(), _>(e) && st1 == st0,
                    Err(HandleTransactionError::Apply(e)) => is_local && spec_apply_tsx(
                        st0.soft_accounts@,
                        st0.peers.peers@,
                        tsx,
                    ) == Err::<Seq<AccountView>, _>(e) && st1 == st0,
                }
            }),
    {
        match &mut self.state {
            Some(st) => {
                if !is_local {
                    if let Err(e) = TransactionValidator::validate_structure(&tsx) {
                        return Err(HandleTransactionError::Structure(e));
                    }
                    if let Err(e) = TransactionValidator::validate_semantics(
                        &tsx,
                        &st.peers,
                        &st.soft_accounts,
                    ) {
                        return Err(HandleTransactionError::Semantics(e));
                    }
                }
                match st.soft_accounts.process_transaction(&st.peers, &tsx) {
                    Err(e) => {
                        proof {
                            if !is_local {
                                assert(false);
                            }
                        }
                        return Err(HandleTransactionError::Apply(e));
                    },
                    Ok(_) => (),
                }
                st.pending_transactions.push(tsx);
                Ok(())
            },
            None => {
                proof {
                    assert(false);
                }
                vstd::pervasive::unreached()
            },
        }
    }

    /// Admits a block from the network: structural validation, then
    /// semantic validation against the committed ledger, the chain and
    /// the predicted validator; a valid block is applied to the committed
    /// ledger, appended to the chain, and the soft state is rebuilt
    /// around it.  The memoized prediction is recomputed on the way and
    /// dropped once a block is appended.
    pub fn handle_block(&mut self, blk: Block) -> (r: Result<(), HandleBlockError>)
        requires
            old(self).wf(),
            old(self).state is Some,
            old(self).state.unwrap().blockchain.blocks@.len() < u32::MAX,
            forall|k: int| 0 <= k < blk.tsxs@.len() ==> (#[trigger] blk.tsxs@[k]).wf(),
        ensures
            final(self).wf(),
            final(self).state is Some,
            final(self).priv_key == old(self).priv_key,
            final(self).publ_key == old(self).publ_key,
            ({
                let st0 = old(self).state.unwrap();
                let st1 = final(self).state.unwrap();
                let last_hash = st0.blockchain.blocks@.last().hash@;
                let elected = spec_elected(st0.hard_accounts@, chacha12_first_u32(last_hash));
                let stc = ProtocolState { next_validator_id: Some(elected as u32), ..st0 };
                match r {
                    Err(HandleBlockError::Structure(e)) => spec_block_structure_result(blk)
                        == Err::<(), _>(e) && st1 == st0,
                    Err(HandleBlockError::Semantics(e)) => spec_block_structure_result(blk) is Ok
                        && spec_block_semantics_result(
                        blk,
                        elected as u32,
                        st0.peers.peers@,
                        st0.hard_accounts@,
                        last_hash,
                    ) == Err::<(), _>(e) && st1 == stc,
                    Err(HandleBlockError::Apply(e)) => spec_block_structure_result(blk) is Ok
                        && spec_block_semantics_result(
                        blk,
                        elected as u32,
                        st0.peers.peers@,
                        st0.hard_accounts@,
                        last_hash,
                    ) is Ok && spec_apply_block(st0.hard_accounts@, st0.peers.peers@, blk) == Err::<
                        Seq<AccountView>,
                        _,
                    >(e) && st1 == stc,
                    Ok(_) => {
                        &&& spec_block_structure_result(blk) is Ok
                        &&& spec_block_semantics_result(
                            blk,
                            elected as u32,
                            st0.peers.peers@,
                            st0.hard_accounts@,
                            last_hash,
                        ) is Ok
                        &&& (spec_apply_block(st0.hard_accounts@, st0.peers.peers@, blk) matches Ok(
                            h,
                        ) && {
                            let (a, kept) = spec_rebuild(
                                h,
                                st0.peers.peers@,
                                blk,
                                st0.pending_transactions@,
                                st0.pending_transactions@.len() as int,
                            );
                            &&& st1.id == st0.id
                            &&& st1.peers == st0.peers
                            &&& st1.hard_accounts@ == h
                            &&& st1.blockchain.blocks@ == st0.blockchain.blocks@.push(
                                (Block { index: st0.blockchain.blocks@.len() as u32, ..blk }),
                            )
                            &&& st1.next_validator_id is None
                            &&& st1.soft_accounts@ == a
                            &&& st1.pending_transactions@ == kept
                        })
                    },
                }
            }),
    {
        if let Err(e) = BlockValidator::validate_structure(&blk) {
            return Err(HandleBlockError::Structure(e));
        }
        let pred = self.proof_of_stake();
        match &mut self.state {
            Some(st) => {
                proof {
                    crate::block_validator::lemma_tsx_structures_all_ok(
                        blk,
                        blk.tsxs@.len() as int,
                    );
                }
                if let Err(e) = BlockValidator::validate_semantics(
                    &blk,
                    pred,
                    &st.peers,
                    &st.hard_accounts,
                    &st.blockchain,
                ) {
                    return Err(HandleBlockError::Semantics(e));
                }
                proof {
                    crate::block_validator::lemma_tsx_semantics_all_ok(
                        blk,
                        st.peers.peers@,
                        st.hard_accounts@,
                        blk.tsxs@.len() as int,
                    );
                    assert forall|k: int| 0 <= k < blk.tsxs@.len() implies {
                        &&& (#[trigger] blk.tsxs@[k]).sndr_addr is Some
                        &&& (blk.tsxs@[k].recp_addr is Some <==> !(blk.tsxs@[k].payload matches
                        TransactionPayload::Stake(_)))
                        &&& tsx_keys_ok(st.peers.peers@, blk.tsxs@[k])
                    } by {
                        assert(spec_structure_result(blk.tsxs@[k]) is Ok);
                        assert(spec_semantics_result(blk.tsxs@[k], st.peers.peers@,
                            st.hard_accounts@) is Ok);
                    }
                    assert(crate::accounts_catalog::block_keys_ok(st.peers.peers@, blk));
                }
                match st.hard_accounts.process_block(&st.peers, &blk) {
                    Err(e) => {
                        return Err(HandleBlockError::Apply(e));
                    },
                    Ok(_) => (),
                }
                st.next_validator_id = None;
                st.rebuild_soft(&blk);
                st.blockchain.add_block(blk);
                Ok(())
            },
            None => {
                proof {
                    assert(false);
                }
                vstd::pervasive::unreached()
            },
        }
    }

    /// Boots the node from the bootstrap hand-off: seeds a fresh ledger
    /// with the genesis block's grants, projects it, and finds the node's
    /// own id on the roster.  A genesis block the ledger cannot absorb,
    /// or a roster that does not carry this node's key, is refused.
    pub fn start(&mut self, peers: PeersCatalog, blockchain: Blockchain) -> (r: Result<
        (),
        StartError,
    >)
        requires
            old(self).wf(),
            old(self).state is None,
            peers.wf(),
            peers.peers@.len() <= u32::MAX,
            blockchain.wf(),
            blockchain.blocks@.len() == 1,
        ensures
            final(self).wf(),
            final(self).priv_key == old(self).priv_key,
            final(self).publ_key == old(self).publ_key,
            ({
                let gts = blockchain.blocks@[0].tsxs@;
                let fold = spec_genesis_fold(
                    crate::accounts_catalog::spec_zero_accounts(peers.peers@.len()),
                    peers.peers@,
                    gts,
                    gts.len() as int,
                );
                match r {
                    Err(StartError::InvalidGenesis) => fold is None && *final(self) == *old(self),
                    Err(StartError::UnknownSelfKey) => fold is Some && !crate::peer::spec_has_key(
                        peers.peers@,
                        old(self).publ_key@,
                    ) && *final(self) == *old(self),
                    Ok(_) => fold matches Some(h) && crate::peer::spec_has_key(
                        peers.peers@,
                        old(self).publ_key@,
                    ) && (final(self).state matches Some(st) && {
                        &&& st.id as int == crate::peer::spec_key_id(
                            peers.peers@,
                            old(self).publ_key@,
                        )
                        &&& st.peers == peers
                        &&& st.hard_accounts@ == h
                        &&& st.soft_accounts@ == h
                        &&& st.pending_transactions@ == Seq::<Transaction>::empty()
                        &&& st.blockchain == blockchain
                        &&& st.next_validator_id is None
                    }),
                }
            }),
    {
        let ghost gpeers = peers.peers@;
        let ghost gts = blockchain.blocks@[0].tsxs@;
        let mut work = AccountsCatalog::new(&peers);
        proof {
            lemma_sum_all_zero_accounts(gpeers.len());
        }
        let mut money: u64 = 0;
        let gen_n = blockchain.blocks[0].tsxs.len();
        let mut k: usize = 0;
        while k < gen_n
            invariant
                0 <= k <= gen_n,
                gen_n == gts.len(),
                blockchain.blocks@.len() == 1,
                gts == blockchain.blocks@[0].tsxs@,
                gpeers == peers.peers@,
                peers.wf(),
                *self == *old(self),
                self.wf(),
                work.wf(),
                work.matches_peers(peers),
                money == crate::accounts_catalog::sum_held(work@)
                    + crate::accounts_catalog::sum_staked(work@),
                spec_genesis_fold(
                    crate::accounts_catalog::spec_zero_accounts(gpeers.len()),
                    gpeers,
                    gts,
                    k as int,
                ) == Some(work@),
            decreases gen_n - k,
        {
            let ghost before = work@;
            let tsx = &blockchain.blocks[0].tsxs[k];
            proof {
                crate::accounts_catalog::lemma_sum_nonneg(before);
                assert(balances_nonneg(before));
            }

            if !tsx.payload.check_wf() {
                proof {
                    lemma_genesis_none_mono(
                        crate::accounts_catalog::spec_zero_accounts(gpeers.len()),
                        gpeers,
                        gts,
                        k + 1,
                        gen_n as int,
                    );
                }
                return Err(StartError::InvalidGenesis);
            }
            let sndr_known = match &tsx.sndr_addr {
                Some(key) => peers.get_by_publ_key(key).is_some(),
                None => true,
            };
            let recp_known = match &tsx.recp_addr {
                Some(key) => peers.get_by_publ_key(key).is_some(),
                None => true,
            };
            if !sndr_known || !recp_known {
                proof {
                    lemma_genesis_none_mono(
                        crate::accounts_catalog::spec_zero_accounts(gpeers.len()),
                        gpeers,
                        gts,
                        k + 1,
                        gen_n as int,
                    );
                }
                return Err(StartError::InvalidGenesis);
            }
            let is_stake = match &tsx.payload {
                TransactionPayload::Stake(_) => true,
                _ => false,
            };
            if tsx.recp_addr.is_some() == is_stake {
                proof {
                    lemma_genesis_none_mono(
                        crate::accounts_catalog::spec_zero_accounts(gpeers.len()),
                        gpeers,
                        gts,
                        k + 1,
                        gen_n as int,
                    );
                }
                return Err(StartError::InvalidGenesis);
            }
            let cost = tsx.total_cost();
            let fee = tsx.fees();
            if tsx.sndr_addr.is_none() && money + (cost as u64) > (u32::MAX as u64) {
                proof {
                    lemma_genesis_none_mono(
                        crate::accounts_catalog::spec_zero_accounts(gpeers.len()),
                        gpeers,
                        gts,
                        k + 1,
                        gen_n as int,
                    );
                }
                return Err(StartError::InvalidGenesis);
            }

            match work.process_transaction(&peers, tsx) {
                Err(_) => {
                    proof {
                        lemma_genesis_none_mono(
                            crate::accounts_catalog::spec_zero_accounts(gpeers.len()),
                            gpeers,
                            gts,
                            k + 1,
                            gen_n as int,
                        );
                    }
                    return Err(StartError::InvalidGenesis);
                },
                Ok(_) => (),
            }
            proof {
                crate::accounts_catalog::lemma_apply_tsx_sums(before, gpeers, *tsx);
                if tsx.sndr_addr is Some {
                    let i = crate::peer::spec_key_id(gpeers, tsx.sndr_addr.unwrap()@);
                    assert(crate::peer::spec_has_key(gpeers, tsx.sndr_addr.unwrap()@));
                    assert(0 <= i < gpeers.len());
                    crate::accounts_catalog::lemma_sum_bound(before, i);
                }
            }
            if tsx.sndr_addr.is_some() {
                money = money - (fee as u64);
            } else if tsx.recp_addr.is_some() {
                money = money + (cost as u64) - (fee as u64);
            }
            k += 1;
        }
        proof {
            assert(gts.subrange(0, gen_n as int) =~= gts);
        }

        let id = match peers.get_by_publ_key(&self.publ_key) {
            Some(p) => p.id(),
            None => {
                return Err(StartError::UnknownSelfKey);
            },
        };

        let soft = work.duplicate();
        self.state = Some(
            ProtocolState {
                id,
                peers,
                soft_accounts: soft,
                hard_accounts: work,
                pending_transactions: Vec::new(),
                blockchain,
                next_validator_id: None,
            },
        );
        Ok(())
    }

    /// Mints when it is this node's turn: with a full block's worth of
    /// pending transactions and this node predicted as validator, the
    /// first `BLOCK_CAPACITY` of them are drained into a new signed-off
    /// block, which is committed exactly as an inbound one would be.
    /// Returns whether a block was minted (the chain's new last block is
    /// the one to broadcast); an unappliable minted block is an error and
    /// leaves everything as it was.
    pub fn try_mint_block(&mut self) -> (r: Result<bool, AccountsCatalogError>)
        requires
            old(self).wf(),
            old(self).state is Some,
            old(self).state.unwrap().blockchain.blocks@.len() < u32::MAX,
        ensures
            final(self).wf(),
            final(self).state is Some,
            final(self).priv_key == old(self).priv_key,
            final(self).publ_key == old(self).publ_key,
            ({
                let st0 = old(self).state.unwrap();
                let st1 = final(self).state.unwrap();
                let last_hash = st0.blockchain.blocks@.last().hash@;
                let elected = spec_elected(st0.hard_accounts@, chacha12_first_u32(last_hash));
                let stc = ProtocolState { next_validator_id: Some(elected as u32), ..st0 };
                match r {
                    Ok(false) => (st0.pending_transactions@.len() < BLOCK_CAPACITY && st1 == st0)
                        || (st0.pending_transactions@.len() >= BLOCK_CAPACITY && st0.id as int
                        != elected && st1 == stc),
                    Ok(true) => {
                        &&& st0.pending_transactions@.len() >= BLOCK_CAPACITY
                        &&& st0.id as int == elected
                        &&& st1.id == st0.id
                        &&& st1.peers == st0.peers
                        &&& st1.next_validator_id is None
                        &&& st1.blockchain.blocks@.len() == st0.blockchain.blocks@.len() + 1
                        &&& st1.blockchain.blocks@.drop_last() == st0.blockchain.blocks@
                        &&& ({
                            let b = st1.blockchain.blocks@.last();
                            &&& b.tsxs@ == st0.pending_transactions@.subrange(
                                0,
                                BLOCK_CAPACITY as int,
                            )
                            &&& (b.val matches Some(k) && k@ == old(self).publ_key@)
                            &&& b.prev_hash@ == last_hash
                            &&& b.index == st0.blockchain.blocks@.len()
                            &&& b.hash_ok()
                            &&& (spec_apply_block(st0.hard_accounts@, st0.peers.peers@, b)
                                matches Ok(h) && st1.hard_accounts@ == h && {
                                let (a, kept) = spec_rebuild(
                                    h,
                                    st0.peers.peers@,
                                    b,
                                    st0.pending_transactions@.skip(BLOCK_CAPACITY as int),
                                    st0.pending_transactions@.len() - BLOCK_CAPACITY,
                                );
                                st1.soft_accounts@ == a && st1.pending_transactions@ == kept
                            })
                        })
                        &&& (crate::accounts_catalog::spec_apply_mint(
                            st0.hard_accounts@,
                            st0.peers.peers@,
                            st0.pending_transactions@.subrange(0, BLOCK_CAPACITY as int),
                            old(self).publ_key@,
                        ) matches Ok(h) && st1.hard_accounts@ == h)
                    },
                    Err(e) => {
                        &&& st0.pending_transactions@.len() >= BLOCK_CAPACITY
                        &&& st0.id as int == elected
                        &&& crate::accounts_catalog::spec_apply_mint(
                            st0.hard_accounts@,
                            st0.peers.peers@,
                            st0.pending_transactions@.subrange(0, BLOCK_CAPACITY as int),
                            old(self).publ_key@,
                        ) == Err::<Seq<AccountView>, AccountsCatalogError>(e)
                        &&& st1.id == st0.id
                        &&& st1.peers == st0.peers
                        &&& st1.hard_accounts == st0.hard_accounts
                        &&& st1.soft_accounts == st0.soft_accounts
                        &&& st1.blockchain == st0.blockchain
                        &&& st1.next_validator_id == Some(elected as u32)
                        &&& st1.pending_transactions@ == st0.pending_transactions@
                    },
                }
            }),
    {
        let can_fill = match &self.state {
            Some(st) => st.pending_transactions.len() >= BLOCK_CAPACITY,
            None => {
                proof {
                    assert(false);
                }
                vstd::pervasive::unreached()
            },
        };
        if !can_fill {
            return Ok(false);
        }
        let pred = self.proof_of_stake();
        let own_key = PublicKey::from_der(self.publ_key.to_der());
        match &mut self.state {
            Some(st) => {
                if st.id != pred {
                    return Ok(false);
                }

                // Drain the first BLOCK_CAPACITY pending transactions.
                let ghost pend0 = st.pending_transactions@;
                let mut txs: Vec<Transaction> = Vec::new();
                let mut i: usize = 0;
                proof {
                    assert(pend0.subrange(0, 0) =~= Seq::<Transaction>::empty());
                }
                while i < BLOCK_CAPACITY
                    invariant
                        0 <= i <= BLOCK_CAPACITY,
                        pend0.len() >= BLOCK_CAPACITY,
                        txs@ == pend0.subrange(0, i as int),
                        st.pending_transactions@ == pend0.skip(i as int),
                        st.id == old(self).state.unwrap().id,
                        st.peers == old(self).state.unwrap().peers,
                        st.hard_accounts == old(self).state.unwrap().hard_accounts,
                        st.soft_accounts == old(self).state.unwrap().soft_accounts,
                        st.blockchain == old(self).state.unwrap().blockchain,
                        st.next_validator_id == Some(pred),
                        pred as int == spec_elected(
                            st.hard_accounts@,
                            chacha12_first_u32(st.blockchain.blocks@.last().hash@),
                        ),
                        st.peers.wf(),
                        st.hard_accounts.wf(),
                        st.hard_accounts.matches_peers(st.peers),
                        st.blockchain.wf(),
                        st.blockchain.blocks@.len() < u32::MAX,
                        forall|t: int|
                            0 <= t < pend0.len() ==> pending_tsx_ok(
                                st.peers.peers@,
                                #[trigger] pend0[t],
                            ),
                    decreases BLOCK_CAPACITY - i,
                {
                    let tsx = st.pending_transactions.remove(0);
                    txs.push(tsx);
                    proof {
                        assert(txs@ =~= pend0.subrange(0, i + 1));
                        assert(st.pending_transactions@ =~= pend0.skip(i + 1));
                    }
                    i += 1;
                }

                let prev_hash = *st.blockchain.last_block().hash();
                let mut blk = Block::new(txs, own_key, prev_hash);
                blk.index = st.blockchain.len() as u32;
                let ghost gpeers = st.peers.peers@;
                proof {
                    assert(spec_block_hash_input(blk) =~= spec_block_hash_input(
                        Block { index: 0, ..blk },
                    ));
                    assert forall|k: int| 0 <= k < blk.tsxs@.len() implies {
                        &&& (#[trigger] blk.tsxs@[k]).wf()
                        &&& tsx_keys_ok(gpeers, blk.tsxs@[k])
                        &&& blk.tsxs@[k].sndr_addr is Some
                        &&& (blk.tsxs@[k].recp_addr is Some <==> !(blk.tsxs@[k].payload matches
                        TransactionPayload::Stake(_)))
                    } by {
                        assert(blk.tsxs@[k] == pend0[k]);
                        assert(pending_tsx_ok(gpeers, pend0[k]));
                    }
                    assert(crate::peer::spec_has_key(gpeers, blk.val.unwrap()@));
                    assert(block_keys_ok(gpeers, blk));
                }
                match st.hard_accounts.process_block(&st.peers, &blk) {
                    Err(e) => {
                        proof {
                            crate::accounts_catalog::lemma_apply_block_is_mint(
                                old(self).state.unwrap().hard_accounts@,
                                gpeers,
                                blk,
                                blk.tsxs@.len() as int,
                            );
                            assert(blk.tsxs@ == pend0.subrange(0, BLOCK_CAPACITY as int));
                            assert(blk.val.unwrap()@ == old(self).publ_key@);
                        }
                        // Put the drained transactions back where they were.
                        let mut drained = blk.tsxs;
                        let mut i: usize = 0;
                        while i < BLOCK_CAPACITY
                            invariant
                                0 <= i <= BLOCK_CAPACITY,
                                pend0.len() >= BLOCK_CAPACITY,
                                drained@ == pend0.subrange(i as int, BLOCK_CAPACITY as int),
                                st.pending_transactions@ == pend0.subrange(0, i as int)
                                    + pend0.skip(BLOCK_CAPACITY as int),
                                st.id == old(self).state.unwrap().id,
                                st.peers == old(self).state.unwrap().peers,
                                st.hard_accounts == old(self).state.unwrap().hard_accounts,
                                st.soft_accounts == old(self).state.unwrap().soft_accounts,
                                st.blockchain == old(self).state.unwrap().blockchain,
                                st.next_validator_id == Some(pred),
                                pred as int == spec_elected(
                                    st.hard_accounts@,
                                    chacha12_first_u32(st.blockchain.blocks@.last().hash@),
                                ),
                                st.peers.wf(),
                                st.hard_accounts.wf(),
                                st.hard_accounts.matches_peers(st.peers),
                                st.soft_accounts.wf(),
                                st.soft_accounts.matches_peers(st.peers),
                                st.blockchain.wf(),
                                (st.id as int) < st.peers.peers@.len(),
                                forall|t: int|
                                    0 <= t < pend0.len() ==> pending_tsx_ok(
                                        st.peers.peers@,
                                        #[trigger] pend0[t],
                                    ),
                                crate::accounts_catalog::spec_apply_mint(
                                    old(self).state.unwrap().hard_accounts@,
                                    old(self).state.unwrap().peers.peers@,
                                    pend0.subrange(0, BLOCK_CAPACITY as int),
                                    old(self).publ_key@,
                                ) == Err::<Seq<AccountView>, AccountsCatalogError>(e),
                            decreases BLOCK_CAPACITY - i,
                        {
                            let tsx = drained.remove(0);
                            st.pending_transactions.insert(i, tsx);
                            proof {
                                assert(drained@ =~= pend0.subrange(i + 1, BLOCK_CAPACITY as int));
                                assert(st.pending_transactions@ =~= pend0.subrange(0, i + 1)
                                    + pend0.skip(BLOCK_CAPACITY as int));
                            }
                            i += 1;
                        }
                        proof {
                            assert(st.pending_transactions@ =~= pend0);
                        }
                        return Err(e);
                    },
                    Ok(_) => (),
                }
                proof {
                    crate::accounts_catalog::lemma_apply_block_is_mint(
                        old(self).state.unwrap().hard_accounts@,
                        gpeers,
                        blk,
                        blk.tsxs@.len() as int,
                    );
                    assert(blk.tsxs@ == pend0.subrange(0, BLOCK_CAPACITY as int));
                    assert(blk.val.unwrap()@ == old(self).publ_key@);
                }
                st.next_validator_id = None;
                st.rebuild_soft(&blk);
                let ghost chain0 = st.blockchain.blocks@;
                st.blockchain.add_block(blk);
                proof {
                    assert(st.blockchain.blocks@.drop_last() =~= chain0);
                }
                Ok(true)
            },
            None => {
                proof {
                    assert(false);
                }
                vstd::pervasive::unreached()
            },
        }
    }

    /// Builds, signs and admits a transfer of `amt` whole coins to the
    /// peer `rcp_id`, exactly as the client's transfer command does: the
    /// recipient must be another, known peer, and the soft balance must
    /// cover the amount plus its fee.  The admitted transaction is the
    /// new last pending one; the caller broadcasts it.
    pub fn command_transfer(&mut self, rcp_id: u32, amt: u32) -> (r: Result<(), CommandError>)
        requires
            old(self).wf(),
            old(self).state is Some,
            1 <= amt,
            amt * 300 <= u32::MAX,
            old(self).state.unwrap().soft_accounts@[old(self).state.unwrap().id as int].pool.next
                <= u64::MAX,
        ensures
            final(self).wf(),
            final(self).state is Some,
            final(self).priv_key == old(self).priv_key,
            final(self).publ_key == old(self).publ_key,
            ({
                let st0 = old(self).state.unwrap();
                let st1 = final(self).state.unwrap();
                let cents = (amt * 100) as u32;
                let cost = crate::transaction::spec_total_cost(
                    TransactionPayload::Transfer(cents),
                );
                &&& st1.id == st0.id
                &&& st1.peers == st0.peers
                &&& st1.hard_accounts == st0.hard_accounts
                &&& st1.blockchain == st0.blockchain
                &&& st1.next_validator_id == st0.next_validator_id
                &&& match r {
                    Err(CommandError::SelfSend) => rcp_id == st0.id && st1 == st0,
                    Err(CommandError::UnknownRecipient) => rcp_id != st0.id && rcp_id
                        >= st0.peers.peers@.len() && st1 == st0,
                    Err(CommandError::InsufficientCoins) => rcp_id != st0.id && rcp_id
                        < st0.peers.peers@.len() && st0.soft_accounts@[st0.id as int].held < cost
                        && st1 == st0,
                    Err(CommandError::EmptyMessage) => false,
                    Ok(_) => {
                        &&& rcp_id != st0.id
                        &&& rcp_id < st0.peers.peers@.len()
                        &&& st0.soft_accounts@[st0.id as int].held >= cost
                        &&& st1.pending_transactions@.len() == st0.pending_transactions@.len() + 1
                        &&& st1.pending_transactions@.drop_last() == st0.pending_transactions@
                        &&& ({
                            let t = st1.pending_transactions@.last();
                            &&& t.payload == TransactionPayload::Transfer(cents)
                            &&& (t.sndr_addr matches Some(k) && k@ == old(self).publ_key@)
                            &&& (t.recp_addr matches Some(k) && k@ == st0.peers.peers@[
                                rcp_id as int
                            ].publ_key@)
                            &&& t.nonce == st0.soft_accounts@[st0.id as int].pool.next
                            &&& t.hash_ok()
                            &&& t.signed_by(old(self).priv_key@)
                            &&& (spec_apply_tsx(st0.soft_accounts@, st0.peers.peers@, t)
                                matches Ok(a) && st1.soft_accounts@ == a)
                        })
                    },
                }
            }),
    {
        let tsx = match &self.state {
            Some(st) => {
                if rcp_id == st.id {
                    return Err(CommandError::SelfSend);
                }
                let recp = match st.peers.get_by_id(rcp_id) {
                    Some(p) => p,
                    None => {
                        return Err(CommandError::UnknownRecipient);
                    },
                };
                let amnt_cents = amt * CENTS_PER_COIN;
                let sndr_acc = match st.soft_accounts.get_by_id(st.id) {
                    Some(a) => a,
                    None => {
                        proof {
                            assert(false);
                        }
                        vstd::pervasive::unreached()
                    },
                };
                if sndr_acc.held_cents() < Transaction::calculate_transfer_total_cost(amnt_cents) {
                    return Err(CommandError::InsufficientCoins);
                }
                let nonce = sndr_acc.nonce_pool().next();
                let recp_key = PublicKey::from_der(recp.publ_key.to_der());
                let sndr_key = PublicKey::from_der(self.publ_key.to_der());
                Transaction::new_transfer(sndr_key, recp_key, amnt_cents, nonce, &self.priv_key)
            },
            None => {
                proof {
                    assert(false);
                }
                vstd::pervasive::unreached()
            },
        };
        proof {
            self.lemma_own_key_id();
        }
        match self.handle_transaction(tsx, true) {
            Ok(_) => Ok(()),
            Err(_) => {
                proof {
                    assert(false);
                }
                vstd::pervasive::unreached()
            },
        }
    }

    /// Builds, signs and admits a message to the peer `rcp_id`, as the
    /// client's message command does: the recipient must be another,
    /// known peer, the message must be non-empty, and the soft balance
    /// must cover the byte count plus the per-byte fee.
    pub fn command_message(&mut self, rcp_id: u32, msg: Vec<u8>) -> (r: Result<(), CommandError>)
        requires
            old(self).wf(),
            old(self).state is Some,
            msg@.len() * 101 <= u32::MAX,
            old(self).state.unwrap().soft_accounts@[old(self).state.unwrap().id as int].pool.next
                <= u64::MAX,
        ensures
            final(self).wf(),
            final(self).state is Some,
            final(self).priv_key == old(self).priv_key,
            final(self).publ_key == old(self).publ_key,
            ({
                let st0 = old(self).state.unwrap();
                let st1 = final(self).state.unwrap();
                let cost = crate::transaction::spec_total_cost(
                    TransactionPayload::Message(msg),
                );
                &&& st1.id == st0.id
                &&& st1.peers == st0.peers
                &&& st1.hard_accounts == st0.hard_accounts
                &&& st1.blockchain == st0.blockchain
                &&& st1.next_validator_id == st0.next_validator_id
                &&& match r {
                    Err(CommandError::SelfSend) => rcp_id == st0.id && st1 == st0,
                    Err(CommandError::UnknownRecipient) => rcp_id != st0.id && rcp_id
                        >= st0.peers.peers@.len() && st1 == st0,
                    Err(CommandError::EmptyMessage) => rcp_id != st0.id && rcp_id
                        < st0.peers.peers@.len() && msg@.len() == 0 && st1 == st0,
                    Err(CommandError::InsufficientCoins) => rcp_id != st0.id && rcp_id
                        < st0.peers.peers@.len() && msg@.len() >= 1 && st0.soft_accounts@[
                        st0.id as int
                    ].held < cost && st1 == st0,
                    Ok(_) => {
                        &&& rcp_id != st0.id
                        &&& rcp_id < st0.peers.peers@.len()
                        &&& msg@.len() >= 1
                        &&& st0.soft_accounts@[st0.id as int].held >= cost
                        &&& st1.pending_transactions@.len() == st0.pending_transactions@.len() + 1
                        &&& st1.pending_transactions@.drop_last() == st0.pending_transactions@
                        &&& ({
                            let t = st1.pending_transactions@.last();
                            &&& (t.payload matches TransactionPayload::Message(m) && m@ == msg@)
                            &&& (t.sndr_addr matches Some(k) && k@ == old(self).publ_key@)
                            &&& (t.recp_addr matches Some(k) && k@ == st0.peers.peers@[
                                rcp_id as int
                            ].publ_key@)
                            &&& t.nonce == st0.soft_accounts@[st0.id as int].pool.next
                            &&& t.hash_ok()
                            &&& t.signed_by(old(self).priv_key@)
                            &&& (spec_apply_tsx(st0.soft_accounts@, st0.peers.peers@, t)
                                matches Ok(a) && st1.soft_accounts@ == a)
                        })
                    },
                }
            }),
    {
        let tsx = match &self.state {
            Some(st) => {
                if rcp_id == st.id {
                    return Err(CommandError::SelfSend);
                }
                let recp = match st.peers.get_by_id(rcp_id) {
                    Some(p) => p,
                    None => {
                        return Err(CommandError::UnknownRecipient);
                    },
                };
                if msg.len() == 0 {
                    return Err(CommandError::EmptyMessage);
                }
                let sndr_acc = match st.soft_accounts.get_by_id(st.id) {
                    Some(a) => a,
                    None => {
                        proof {
                            assert(false);
                        }
                        vstd::pervasive::unreached()
                    },
                };
                if sndr_acc.held_cents() < Transaction::calculate_message_total_cost(&msg) {
                    return Err(CommandError::InsufficientCoins);
                }
                let nonce = sndr_acc.nonce_pool().next();
                let recp_key = PublicKey::from_der(recp.publ_key.to_der());
                let sndr_key = PublicKey::from_der(self.publ_key.to_der());
                Transaction::new_message(sndr_key, recp_key, msg, nonce, &self.priv_key)
            },
            None => {
                proof {
                    assert(false);
                }
                vstd::pervasive::unreached()
            },
        };
        proof {
            self.lemma_own_key_id();
        }
        match self.handle_transaction(tsx, true) {
            Ok(_) => Ok(()),
            Err(_) => {
                proof {
                    assert(false);
                }
                vstd::pervasive::unreached()
            },
        }
    }

    /// Builds, signs and admits a stake of `amt` whole coins, as the
    /// client's stake command does: the soft balance must cover the
    /// amount (stakes carry no fee).
    pub fn command_stake(&mut self, amt: u32) -> (r: Result<(), CommandError>)
        requires
            old(self).wf(),
            old(self).state is Some,
            1 <= amt,
            amt * 100 <= u32::MAX,
            old(self).state.unwrap().soft_accounts@[old(self).state.unwrap().id as int].pool.next
                <= u64::MAX,
        ensures
            final(self).wf(),
            final(self).state is Some,
            final(self).priv_key == old(self).priv_key,
            final(self).publ_key == old(self).publ_key,
            ({
                let st0 = old(self).state.unwrap();
                let st1 = final(self).state.unwrap();
                let cents = (amt * 100) as u32;
                let cost = crate::transaction::spec_total_cost(TransactionPayload::Stake(cents));
                &&& st1.id == st0.id
                &&& st1.peers == st0.peers
                &&& st1.hard_accounts == st0.hard_accounts
                &&& st1.blockchain == st0.blockchain
                &&& st1.next_validator_id == st0.next_validator_id
                &&& match r {
                    Err(CommandError::InsufficientCoins) => st0.soft_accounts@[st0.id as int].held
                        < cost && st1 == st0,
                    Err(_) => false,
                    Ok(_) => {
                        &&& st0.soft_accounts@[st0.id as int].held >= cost
                        &&& st1.pending_transactions@.len() == st0.pending_transactions@.len() + 1
                        &&& st1.pending_transactions@.drop_last() == st0.pending_transactions@
                        &&& ({
                            let t = st1.pending_transactions@.last();
                            &&& t.payload == TransactionPayload::Stake(cents)
                            &&& (t.sndr_addr matches Some(k) && k@ == old(self).publ_key@)
                            &&& t.recp_addr is None
                            &&& t.nonce == st0.soft_accounts@[st0.id as int].pool.next
                            &&& t.hash_ok()
                            &&& t.signed_by(old(self).priv_key@)
                            &&& (spec_apply_tsx(st0.soft_accounts@, st0.peers.peers@, t)
                                matches Ok(a) && st1.soft_accounts@ == a)
                        })
                    },
                }
            }),
    {
        let tsx = match &self.state {
            Some(st) => {
                let amnt_cents = amt * CENTS_PER_COIN;
                let sndr_acc = match st.soft_accounts.get_by_id(st.id) {
                    Some(a) => a,
                    None => {
                        proof {
                            assert(false);
                        }
                        vstd::pervasive::unreached()
                    },
                };
                if sndr_acc.held_cents() < Transaction::calculate_stake_total_cost(amnt_cents) {
                    return Err(CommandError::InsufficientCoins);
                }
                let nonce = sndr_acc.nonce_pool().next();
                let sndr_key = PublicKey::from_der(self.publ_key.to_der());
                Transaction::new_stake(sndr_key, amnt_cents, nonce, &self.priv_key)
            },
            None => {
                proof {
                    assert(false);
                }
                vstd::pervasive::unreached()
            },
        };
        proof {
            self.lemma_own_key_id();
        }
        match self.handle_transaction(tsx, true) {
            Ok(_) => Ok(()),
            Err(_) => {
                proof {
                    assert(false);
                }
                vstd::pervasive::unreached()
            },
        }
    }

    /// On a well-formed node, the roster maps this node's key back to its
    /// own id.
    proof fn lemma_own_key_id(&self)
        requires
            self.wf(),
            self.state is Some,
        ensures
            crate::peer::spec_has_key(self.state.unwrap().peers.peers@, self.publ_key@),
            crate::peer::spec_key_id(self.state.unwrap().peers.peers@, self.publ_key@)
                == self.state.unwrap().id as int,
    {
        let st = self.state.unwrap();
        let peers = st.peers.peers@;
        assert(peers[st.id as int].publ_key@ == self.publ_key@);
        assert(crate::peer::spec_has_key(peers, self.publ_key@));
        let w = crate::peer::spec_key_id(peers, self.publ_key@);
        assert(0 <= w < peers.len() && peers[w].publ_key@ == self.publ_key@);
        if w != st.id as int {
            assert(peers[w].publ_key@ == peers[st.id as int].publ_key@);
            assert(false);
        }
    }
}

} // verus!
