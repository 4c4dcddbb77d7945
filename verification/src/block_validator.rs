use vstd::prelude::*;

use crate::account::AccountView;
use crate::accounts_catalog::AccountsCatalog;
use crate::block::{spec_block_hash_input, Block, BLOCK_CAPACITY};
use crate::blockchain::Blockchain;
use crate::bytes::bytes32_eq;
use crate::crypto::sha256_of;
use crate::peer::{spec_has_key, spec_key_id, Peer, PeersCatalog};
use crate::transaction;
use crate::transaction_validator::{
    spec_semantics_result, spec_structure_result, TransactionValidator,
};

verus! {

/// Context-free faults of a block, in the order they are checked.
#[derive(Debug)]
pub enum ValidateStructureError {
    PartiallyFilledBlock(usize),
    OverfilledBlock(usize),
    MissingValidator,
    InvalidTimestamp,
    InvalidTransaction {
        index: usize,
        source: crate::transaction_validator::ValidateStructureError,
    },
    InvalidHash,
}

/// Faults of a block against the committed ledger and the chain.
#[derive(Debug)]
pub enum ValidateSemanticsError {
    NonExistentValidator,
    MismatchedValidator { expected: u32, actual: u32 },
    InvalidTransaction {
        index: usize,
        source: crate::transaction_validator::ValidateSemanticsError,
    },
    InvalidPreviousHash,
}

/// The structural verdict over the first `k` transactions: the lowest
/// failing index wins.
pub open spec fn spec_tsx_structures(blk: Block, k: int) -> Result<(), ValidateStructureError>
    decreases k,
{
    if k <= 0 {
        Ok(())
    } else {
        match spec_tsx_structures(blk, k - 1) {
            Err(e) => Err(e),
            Ok(_) => match spec_structure_result(blk.tsxs@[k - 1]) {
                Err(e) => Err(
                    ValidateStructureError::InvalidTransaction { index: (k - 1) as usize, source: e },
                ),
                Ok(_) => Ok(()),
            },
        }
    }
}

/// The structural verdict of a block: capacity, validator presence, each
/// transaction in order, then the stored hash.  (A timestamp bound is not
/// enforced; `InvalidTimestamp` is reserved.)
pub open spec fn spec_block_structure_result(blk: Block) -> Result<(), ValidateStructureError> {
    if blk.tsxs@.len() < BLOCK_CAPACITY {
        Err(ValidateStructureError::PartiallyFilledBlock((BLOCK_CAPACITY - blk.tsxs@.len()) as usize))
    } else if blk.tsxs@.len() > BLOCK_CAPACITY {
        Err(ValidateStructureError::OverfilledBlock((blk.tsxs@.len() - BLOCK_CAPACITY) as usize))
    } else if blk.val is None {
        Err(ValidateStructureError::MissingValidator)
    } else {
        match spec_tsx_structures(blk, blk.tsxs@.len() as int) {
            Err(e) => Err(e),
            Ok(_) => if blk.hash@ != sha256_of(spec_block_hash_input(blk)) {
                Err(ValidateStructureError::InvalidHash)
            } else {
                Ok(())
            },
        }
    }
}

/// The semantic verdict over the first `k` transactions, all against the
/// same committed ledger: the lowest failing index wins.
pub open spec fn spec_tsx_semantics(
    blk: Block,
    peers: Seq<Peer>,
    accs: Seq<AccountView>,
    k: int,
) -> Result<(), ValidateSemanticsError>
    decreases k,
{
    if k <= 0 {
        Ok(())
    } else {
        match spec_tsx_semantics(blk, peers, accs, k - 1) {
            Err(e) => Err(e),
            Ok(_) => match spec_semantics_result(blk.tsxs@[k - 1], peers, accs) {
                Err(e) => Err(
                    ValidateSemanticsError::InvalidTransaction { index: (k - 1) as usize, source: e },
                ),
                Ok(_) => Ok(()),
            },
        }
    }
}

/// The semantic verdict of a block: the named validator is the predicted
/// account, each transaction passes against the committed ledger, and the
/// block extends the chain's last block.
pub open spec fn spec_block_semantics_result(
    blk: Block,
    pred_val_id: u32,
    peers: Seq<Peer>,
    accs: Seq<AccountView>,
    last_hash: Seq<u8>,
) -> Result<(), ValidateSemanticsError> {
    if !spec_has_key(peers, blk.val.unwrap()@) {
        Err(ValidateSemanticsError::NonExistentValidator)
    } else if accs[spec_key_id(peers, blk.val.unwrap()@)].id != pred_val_id {
        Err(
            ValidateSemanticsError::MismatchedValidator {
                expected: pred_val_id,
                actual: accs[spec_key_id(peers, blk.val.unwrap()@)].id as u32,
            },
        )
    } else {
        match spec_tsx_semantics(blk, peers, accs, blk.tsxs@.len() as int) {
            Err(e) => Err(e),
            Ok(_) => if blk.prev_hash@ != last_hash {
                Err(ValidateSemanticsError::InvalidPreviousHash)
            } else {
                Ok(())
            },
        }
    }
}

proof fn lemma_tsx_structures_err_mono(blk: Block, k: int, n: int)
    requires
        0 <= k <= n,
        spec_tsx_structures(blk, k) is Err,
    ensures
        spec_tsx_structures(blk, n) == spec_tsx_structures(blk, k),
    decreases n - k,
{
    if k < n {
        lemma_tsx_structures_err_mono(blk, k, n - 1);
    }
}

proof fn lemma_tsx_semantics_err_mono(
    blk: Block,
    peers: Seq<Peer>,
    accs: Seq<AccountView>,
    k: int,
    n: int,
)
    requires
        0 <= k <= n,
        spec_tsx_semantics(blk, peers, accs, k) is Err,
    ensures
        spec_tsx_semantics(blk, peers, accs, n) == spec_tsx_semantics(blk, peers, accs, k),
    decreases n - k,
{
    if k < n {
        lemma_tsx_semantics_err_mono(blk, peers, accs, k, n - 1);
    }
}

/// A structurally accepted block has every transaction structurally
/// accepted.
pub proof fn lemma_tsx_structures_all_ok(blk: Block, k: int)
    requires
        spec_tsx_structures(blk, k) is Ok,
    ensures
        forall|j: int| 0 <= j < k ==> spec_structure_result(#[trigger] blk.tsxs@[j]) is Ok,
    decreases k,
{
    if k > 0 {
        lemma_tsx_structures_all_ok(blk, k - 1);
    }
}

/// A semantically accepted block has every transaction semantically
/// accepted against the same ledger.
pub proof fn lemma_tsx_semantics_all_ok(
    blk: Block,
    peers: Seq<Peer>,
    accs: Seq<AccountView>,
    k: int,
)
    requires
        spec_tsx_semantics(blk, peers, accs, k) is Ok,
    ensures
        forall|j: int|
            0 <= j < k ==> spec_semantics_result(#[trigger] blk.tsxs@[j], peers, accs) is Ok,
    decreases k,
{
    if k > 0 {
        lemma_tsx_semantics_all_ok(blk, peers, accs, k - 1);
    }
}

pub struct BlockValidator;

impl BlockValidator {
    /// Checks a block without context: exactly `BLOCK_CAPACITY`
    /// transactions, a named validator, every transaction structurally
    /// sound, and the stored hash matching the content.
    pub fn validate_structure(blk: &Block) -> (r: Result<(), ValidateStructureError>)
        ensures
            r == spec_block_structure_result(*blk),
    {
        let n = blk.tsxs.len();
        if n < BLOCK_CAPACITY {
            return Err(ValidateStructureError::PartiallyFilledBlock(BLOCK_CAPACITY - n));
        }
        if n > BLOCK_CAPACITY {
            return Err(ValidateStructureError::OverfilledBlock(n - BLOCK_CAPACITY));
        }
        if blk.val.is_none() {
            return Err(ValidateStructureError::MissingValidator);
        }

        let mut k: usize = 0;
        while k < n
            invariant
                k <= n,
                n == blk.tsxs@.len(),
                n == BLOCK_CAPACITY,
                blk.val is Some,
                spec_tsx_structures(*blk, k as int) == Ok::<(), ValidateStructureError>(()),
            decreases n - k,
        {
            if let Err(e) = TransactionValidator::validate_structure(&blk.tsxs[k]) {
                proof {
                    lemma_tsx_structures_err_mono(*blk, k + 1, n as int);
                }
                return Err(ValidateStructureError::InvalidTransaction { index: k, source: e });
            }
            k += 1;
        }

        let computed = blk.calculate_hash();
        if !bytes32_eq(&blk.hash, &computed) {
            return Err(ValidateStructureError::InvalidHash);
        }

        Ok(())
    }

    /// Checks a structurally sound block against the committed ledger,
    /// the chain, and the predicted validator id.
    pub fn validate_semantics(
        blk: &Block,
        pred_val_id: u32,
        peers: &PeersCatalog,
        ctx: &AccountsCatalog,
        chain: &Blockchain,
    ) -> (r: Result<(), ValidateSemanticsError>)
        requires
            blk.val is Some,
            forall|k: int| 0 <= k < blk.tsxs@.len() ==> (#[trigger] blk.tsxs@[k]).wf(),
            forall|k: int|
                0 <= k < blk.tsxs@.len() ==> spec_structure_result(#[trigger] blk.tsxs@[k])
                    is Ok,
            peers.wf(),
            ctx.wf(),
            ctx.matches_peers(*peers),
            chain.wf(),
        ensures
            r == spec_block_semantics_result(
                *blk,
                pred_val_id,
                peers.peers@,
                ctx@,
                chain.blocks@.last().hash@,
            ),
    {
        let val_key = match &blk.val {
            Some(k) => k,
            None => {
                proof {
                    assert(false);
                }
                vstd::pervasive::unreached()
            },
        };
        match ctx.get_by_publ_key(peers, val_key) {
            Some(account) => {
                if account.id() != pred_val_id {
                    return Err(
                        ValidateSemanticsError::MismatchedValidator {
                            expected: pred_val_id,
                            actual: account.id(),
                        },
                    );
                }
            },
            None => {
                return Err(ValidateSemanticsError::NonExistentValidator);
            },
        }

        let n = blk.tsxs.len();
        let mut k: usize = 0;
        while k < n
            invariant
                k <= n,
                n == blk.tsxs@.len(),
                peers.wf(),
                ctx.wf(),
                ctx.matches_peers(*peers),
                forall|m: int| 0 <= m < blk.tsxs@.len() ==> (#[trigger] blk.tsxs@[m]).wf(),
                forall|m: int|
                    0 <= m < blk.tsxs@.len() ==> spec_structure_result(#[trigger] blk.tsxs@[m])
                        is Ok,
                blk.val is Some,
                spec_has_key(peers.peers@, blk.val.unwrap()@),
                ctx@[spec_key_id(peers.peers@, blk.val.unwrap()@)].id == pred_val_id,
                spec_tsx_semantics(*blk, peers.peers@, ctx@, k as int) == Ok::<
                    (),
                    ValidateSemanticsError,
                >(()),
            decreases n - k,
        {
            let tsx = &blk.tsxs[k];
            if let Err(e) = TransactionValidator::validate_semantics(tsx, peers, ctx) {
                proof {
                    assert(spec_tsx_semantics(*blk, peers.peers@, ctx@, k + 1) == Err::<
                        (),
                        ValidateSemanticsError,
                    >(ValidateSemanticsError::InvalidTransaction { index: k, source: e }));
                    lemma_tsx_semantics_err_mono(*blk, peers.peers@, ctx@, k + 1, n as int);
                }
                return Err(ValidateSemanticsError::InvalidTransaction { index: k, source: e });
            }
            k += 1;
        }

        let last = chain.last_block();
        if !bytes32_eq(&blk.prev_hash, &last.hash) {
            return Err(ValidateSemanticsError::InvalidPreviousHash);
        }

        Ok(())
    }
}

} // verus!
