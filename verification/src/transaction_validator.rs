use vstd::prelude::*;

use crate::account::AccountView;
use crate::accounts_catalog::AccountsCatalog;
use crate::bytes::bytes32_eq;
use crate::crypto::{rsa_verify_of, sha256_of};
use crate::peer::{spec_has_key, spec_key_id, Peer, PeersCatalog};
use crate::transaction::{spec_hash_input, spec_total_cost, Transaction, TransactionPayload};

verus! {

/// Context-free faults of a transaction, in the order they are checked.
#[derive(Debug)]
pub enum ValidateStructureError {
    MissingSenderAddr,
    MissingRecipientAddr,
    MissingSignature,
    IdenticalSenderRecipientAddrs,
    UnexpectedRecipientAddr,
    InvalidHash,
    InvalidSignature,
}

/// Faults of a transaction against a ledger snapshot.
#[derive(Debug)]
pub enum ValidateSemanticsError {
    NonExistentSender,
    NonExistentRecipient,
    RepeatedNonce { value: u64 },
    InsufficientFunds { required: u32, actual: u32 },
}

/// What the context-free checks report, applied in order: the earliest
/// failure is the one returned.
pub open spec fn spec_structure_result(tsx: Transaction) -> Result<(), ValidateStructureError> {
    if tsx.sndr_addr is None {
        Err(ValidateStructureError::MissingSenderAddr)
    } else if !(tsx.payload matches TransactionPayload::Stake(_)) && tsx.recp_addr is None {
        Err(ValidateStructureError::MissingRecipientAddr)
    } else if tsx.sig is None {
        Err(ValidateStructureError::MissingSignature)
    } else if tsx.payload matches TransactionPayload::Stake(_) && tsx.recp_addr is Some {
        Err(ValidateStructureError::UnexpectedRecipientAddr)
    } else if tsx.recp_addr matches Some(rk) && tsx.sndr_addr.unwrap()@ == rk@ {
        Err(ValidateStructureError::IdenticalSenderRecipientAddrs)
    } else if tsx.hash@ != sha256_of(spec_hash_input(tsx)) {
        Err(ValidateStructureError::InvalidHash)
    } else if !rsa_verify_of(tsx.sndr_addr.unwrap()@, tsx.hash@, tsx.sig.unwrap()@) {
        Err(ValidateStructureError::InvalidSignature)
    } else {
        Ok(())
    }
}

/// The semantic verdict against a ledger snapshot: the first failing
/// check wins.
pub open spec fn spec_semantics_result(
    tsx: Transaction,
    peers: Seq<Peer>,
    accs: Seq<AccountView>,
) -> Result<(), ValidateSemanticsError> {
    if !spec_has_key(peers, tsx.sndr_addr.unwrap()@) {
        Err(ValidateSemanticsError::NonExistentSender)
    } else if !(tsx.payload matches TransactionPayload::Stake(_)) && !spec_has_key(
        peers,
        tsx.recp_addr.unwrap()@,
    ) {
        Err(ValidateSemanticsError::NonExistentRecipient)
    } else if spec_total_cost(tsx.payload) > accs[spec_key_id(peers, tsx.sndr_addr.unwrap()@)].held {
        Err(
            ValidateSemanticsError::InsufficientFunds {
                required: spec_total_cost(tsx.payload) as u32,
                actual: accs[spec_key_id(peers, tsx.sndr_addr.unwrap()@)].held as u32,
            },
        )
    } else if accs[spec_key_id(peers, tsx.sndr_addr.unwrap()@)].pool.is_used(tsx.nonce as int) {
        Err(ValidateSemanticsError::RepeatedNonce { value: tsx.nonce })
    } else {
        Ok(())
    }
}

/// A transaction built by the signing constructors is structurally valid:
/// it names its sender, carries a recipient exactly when the payload
/// wants one, differs from its recipient, stores the hash of its own
/// content and — whenever the signer produced a signature at all — a
/// signature that verifies under the sender's key.  Together with the
/// constructors' postconditions this says that a locally built
/// transaction, signed by the key matching its sender, passes
/// `validate_structure`.
pub proof fn lemma_built_transaction_is_structural(t: Transaction)
    requires
        t.sndr_addr is Some,
        (t.recp_addr is Some <==> !(t.payload matches TransactionPayload::Stake(_))),
        (t.recp_addr matches Some(rk) ==> rk@ != t.sndr_addr.unwrap()@),
        t.hash_ok(),
        t.sig_nonempty(),
        t.verifies_under(t.sndr_addr.unwrap()@),
    ensures
        spec_structure_result(t) is Ok,
{
}

pub struct TransactionValidator;

impl TransactionValidator {
    /// Checks a transaction without context: parties and signature are
    /// present where the payload demands them, the parties differ, the
    /// stored hash matches the content, and the signature verifies under
    /// the sender's key.
    pub fn validate_structure(tsx: &Transaction) -> (r: Result<(), ValidateStructureError>)
        ensures
            r == spec_structure_result(*tsx),
    {
        let sndr = match &tsx.sndr_addr {
            Some(k) => k,
            None => {
                return Err(ValidateStructureError::MissingSenderAddr);
            },
        };

        let is_stake = match &tsx.payload {
            TransactionPayload::Stake(_) => true,
            _ => false,
        };

        if !is_stake && tsx.recp_addr.is_none() {
            return Err(ValidateStructureError::MissingRecipientAddr);
        }

        let sig = match &tsx.sig {
            Some(s) => s,
            None => {
                return Err(ValidateStructureError::MissingSignature);
            },
        };

        if is_stake && tsx.recp_addr.is_some() {
            return Err(ValidateStructureError::UnexpectedRecipientAddr);
        }

        if let Some(rk) = &tsx.recp_addr {
            if sndr.key_eq(rk) {
                return Err(ValidateStructureError::IdenticalSenderRecipientAddrs);
            }
        }

        let computed = tsx.calculate_hash();
        if !bytes32_eq(&tsx.hash, &computed) {
            return Err(ValidateStructureError::InvalidHash);
        }

        if !sndr.verify(tsx.hash.as_slice(), sig.as_slice()) {
            return Err(ValidateStructureError::InvalidSignature);
        }

        Ok(())
    }

    /// Checks a structurally sound transaction against a ledger snapshot:
    /// both parties resolve to accounts, the sender can pay, and the
    /// nonce is fresh.
    pub fn validate_semantics(
        tsx: &Transaction,
        peers: &PeersCatalog,
        ctx: &AccountsCatalog,
    ) -> (r: Result<(), ValidateSemanticsError>)
        requires
            tsx.wf(),
            tsx.sndr_addr is Some,
            !(tsx.payload matches TransactionPayload::Stake(_)) ==> tsx.recp_addr is Some,
            peers.wf(),
            ctx.wf(),
            ctx.matches_peers(*peers),
        ensures
            r == spec_semantics_result(*tsx, peers.peers@, ctx@),
    {
        let sndr_key = match &tsx.sndr_addr {
            Some(k) => k,
            None => {
                proof {
                    assert(false);
                }
                vstd::pervasive::unreached()
            },
        };
        let sndr = match ctx.get_by_publ_key(peers, sndr_key) {
            Some(a) => a,
            None => {
                return Err(ValidateSemanticsError::NonExistentSender);
            },
        };

        let is_stake = match &tsx.payload {
            TransactionPayload::Stake(_) => true,
            _ => false,
        };

        if !is_stake {
            let recp_key = match &tsx.recp_addr {
                Some(k) => k,
                None => {
                    proof {
                        assert(false);
                    }
                    vstd::pervasive::unreached()
                },
            };
            if ctx.get_by_publ_key(peers, recp_key).is_none() {
                return Err(ValidateSemanticsError::NonExistentRecipient);
            }
        }

        let required = tsx.total_cost();
        if required > sndr.held_cents() {
            return Err(
                ValidateSemanticsError::InsufficientFunds {
                    required,
                    actual: sndr.held_cents(),
                },
            );
        }

        if sndr.nonce_pool().is_marked_used(tsx.nonce()) {
            return Err(ValidateSemanticsError::RepeatedNonce { value: tsx.nonce });
        }

        Ok(())
    }
}

} // verus!
