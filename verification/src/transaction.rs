use vstd::prelude::*;

use crate::bytes::{append_bytes, be_bytes, be_bytes_exec};
use crate::crypto::{public_der_of, rsa_sign_of, rsa_verify_of, sha256, sha256_of, PrivateKey, PublicKey};
use crate::protocol::{
    MESSAGE_FEE_PER_CHARACTER_CENTS, MINIMUM_TRANSFER_FEE_CENTS, TRANSFER_FEE_PERCENTAGE,
};

verus! {

/// What a transaction carries: a transfer of cents, a message (kept as its
/// UTF-8 bytes), or a stake of cents.
#[derive(Clone, Debug)]
pub enum TransactionPayload {
    Transfer(u32),
    Message(Vec<u8>),
    Stake(u32),
}

/// A payload the ledger can price: amounts are positive, and small enough
/// that the fee and total-cost arithmetic stays within `u32`.
pub open spec fn payload_wf(p: TransactionPayload) -> bool {
    match p {
        TransactionPayload::Transfer(a) => 1 <= a && a * 3 <= u32::MAX,
        TransactionPayload::Message(m) => 1 <= m@.len() && m@.len() * 101 <= u32::MAX,
        TransactionPayload::Stake(a) => 1 <= a,
    }
}

/// The fee in cents: 3% of a transfer (at least one cent), one coin per
/// message byte, nothing for a stake.
pub open spec fn spec_fees(p: TransactionPayload) -> int {
    match p {
        TransactionPayload::Transfer(a) => {
            let f = a * 3 / 100;
            if f < 1 {
                1
            } else {
                f
            }
        },
        TransactionPayload::Message(m) => m@.len() * 100 as int,
        TransactionPayload::Stake(_) => 0,
    }
}

/// What the sender is debited in cents: amount plus fee for a transfer,
/// byte count plus fee for a message, the amount alone for a stake.
pub open spec fn spec_total_cost(p: TransactionPayload) -> int {
    match p {
        TransactionPayload::Transfer(a) => a + spec_fees(p),
        TransactionPayload::Message(m) => m@.len() + spec_fees(p),
        TransactionPayload::Stake(a) => a as int,
    }
}

/// The bytes a payload contributes to the hash: the amount big-endian for
/// a transfer or stake, the raw bytes for a message.
pub open spec fn spec_payload_bytes(p: TransactionPayload) -> Seq<u8> {
    match p {
        TransactionPayload::Transfer(a) => be_bytes(a as int, 4),
        TransactionPayload::Message(m) => m@,
        TransactionPayload::Stake(a) => be_bytes(a as int, 4),
    }
}

/// The DER bytes an optional key contributes to the hash.
pub open spec fn opt_key_bytes(k: Option<PublicKey>) -> Seq<u8> {
    match k {
        Some(k) => k@,
        None => Seq::empty(),
    }
}

impl TransactionPayload {
    /// Whether the ledger can price this payload.
    pub fn check_wf(&self) -> (r: bool)
        ensures
            r == payload_wf(*self),
    {
        match self {
            TransactionPayload::Transfer(a) => 1 <= *a && *a <= u32::MAX / 3,
            TransactionPayload::Message(m) => 1 <= m.len() && m.len() <= (u32::MAX / 101) as usize,
            TransactionPayload::Stake(a) => 1 <= *a,
        }
    }

    /// The amount in cents, for the payloads that carry one.
    pub fn coins(&self) -> (r: Option<u32>)
        ensures
            r == match *self {
                TransactionPayload::Transfer(a) => Some(a),
                TransactionPayload::Stake(a) => Some(a),
                TransactionPayload::Message(_) => None::<u32>,
            },
    {
        match self {
            TransactionPayload::Stake(coins) => Some(*coins),
            TransactionPayload::Transfer(coins) => Some(*coins),
            TransactionPayload::Message(_) => None,
        }
    }

    /// The message bytes, for message payloads.
    pub fn message(&self) -> (r: Option<&Vec<u8>>)
        ensures
            match *self {
                TransactionPayload::Message(m) => r matches Some(s) && s@ == m@,
                _ => r is None,
            },
    {
        if let TransactionPayload::Message(msg) = self {
            return Some(msg);
        }
        None
    }
}

/// A signed, self-hashing record: the payload, the two parties, the
/// sender's nonce, the SHA-256 hash over the content, and the sender's
/// signature over the hash.  Genesis transactions have no sender and no
/// signature; stakes have no recipient.
#[derive(Clone, Debug)]
pub struct Transaction {
    pub payload: TransactionPayload,
    pub sndr_addr: Option<PublicKey>,
    pub recp_addr: Option<PublicKey>,
    pub nonce: u64,
    pub hash: [u8; 32],
    pub sig: Option<Vec<u8>>,
}

/// The bytes a transaction's hash is computed over, in order: payload
/// bytes, recipient key DER, sender key DER, nonce big-endian.
pub open spec fn spec_hash_input(t: Transaction) -> Seq<u8> {
    spec_payload_bytes(t.payload) + opt_key_bytes(t.recp_addr) + opt_key_bytes(t.sndr_addr)
        + be_bytes(t.nonce as int, 8)
}

impl Transaction {
    pub open spec fn wf(&self) -> bool {
        payload_wf(self.payload)
    }

    /// The stored hash is the hash of the content.
    pub open spec fn hash_ok(&self) -> bool {
        self.hash@ == sha256_of(spec_hash_input(*self))
    }

    /// The stored signature is the one `priv_der` produces over the hash.
    pub open spec fn signed_by(&self, priv_der: Seq<u8>) -> bool {
        self.sig matches Some(s) && s@ == rsa_sign_of(priv_der, self.hash@)
    }

    /// The stored signature verifies under the key `publ_der` encodes.
    pub open spec fn verifies_under(&self, publ_der: Seq<u8>) -> bool {
        self.sig matches Some(s) && rsa_verify_of(publ_der, self.hash@, s@)
    }

    /// The signer produced a signature at all: signing fails (yielding
    /// empty bytes) only on a key the RSA implementation cannot use.
    pub open spec fn sig_nonempty(&self) -> bool {
        self.sig matches Some(s) && s@.len() != 0
    }

    /// A genesis grant: an unsigned, senderless transfer crediting
    /// `sndr_addr` (the future owner) with `amnt` cents.
    pub fn new_genesis(sndr_addr: PublicKey, amnt: u32) -> (r: Self)
        requires
            1 <= amnt,
            amnt * 3 <= u32::MAX,
        ensures
            r.wf(),
            r.hash_ok(),
            r.payload == TransactionPayload::Transfer(amnt),
            r.sndr_addr is None,
            r.recp_addr == Some(sndr_addr),
            r.nonce == 0,
            r.sig is None,
    {
        Self::new(TransactionPayload::Transfer(amnt), None, Some(sndr_addr), 0, None)
    }

    pub fn new_transfer(
        sndr_addr: PublicKey,
        recp_addr: PublicKey,
        amnt: u32,
        nonce: u64,
        priv_key: &PrivateKey,
    ) -> (r: Self)
        requires
            1 <= amnt,
            amnt * 3 <= u32::MAX,
        ensures
            r.wf(),
            r.hash_ok(),
            r.signed_by(priv_key@),
            r.sig_nonempty() ==> r.verifies_under(public_der_of(priv_key@)),
            r.sig_nonempty() ==> r.verifies_under(public_der_of(priv_key@)),
            r.sig_nonempty() ==> r.verifies_under(public_der_of(priv_key@)),
            r.payload == TransactionPayload::Transfer(amnt),
            r.sndr_addr == Some(sndr_addr),
            r.recp_addr == Some(recp_addr),
            r.nonce == nonce,
    {
        Self::new(
            TransactionPayload::Transfer(amnt),
            Some(sndr_addr),
            Some(recp_addr),
            nonce,
            Some(priv_key),
        )
    }

    pub fn new_message(
        sndr_addr: PublicKey,
        recp_addr: PublicKey,
        msg: Vec<u8>,
        nonce: u64,
        priv_key: &PrivateKey,
    ) -> (r: Self)
        requires
            1 <= msg@.len(),
            msg@.len() * 101 <= u32::MAX,
        ensures
            r.wf(),
            r.hash_ok(),
            r.signed_by(priv_key@),
            r.payload == TransactionPayload::Message(msg),
            r.sndr_addr == Some(sndr_addr),
            r.recp_addr == Some(recp_addr),
            r.nonce == nonce,
    {
        Self::new(
            TransactionPayload::Message(msg),
            Some(sndr_addr),
            Some(recp_addr),
            nonce,
            Some(priv_key),
        )
    }

    pub fn new_stake(sndr_addr: PublicKey, amnt: u32, nonce: u64, priv_key: &PrivateKey) -> (r:
        Self)
        requires
            1 <= amnt,
        ensures
            r.wf(),
            r.hash_ok(),
            r.signed_by(priv_key@),
            r.payload == TransactionPayload::Stake(amnt),
            r.sndr_addr == Some(sndr_addr),
            r.recp_addr is None,
            r.nonce == nonce,
    {
        Self::new(TransactionPayload::Stake(amnt), Some(sndr_addr), None, nonce, Some(priv_key))
    }

    /// The transaction's fee in cents.
    pub fn fees(&self) -> (r: u32)
        requires
            self.wf(),
        ensures
            r == spec_fees(self.payload),
    {
        match &self.payload {
            TransactionPayload::Transfer(amnt) => Self::calculate_transfer_fees(*amnt),
            TransactionPayload::Message(msg) => Self::calculate_message_fees(msg),
            TransactionPayload::Stake(amnt) => Self::calculcate_stake_fees(*amnt),
        }
    }

    /// The fee plus the moved amount, where one applies.
    pub fn total_cost(&self) -> (r: u32)
        requires
            self.wf(),
        ensures
            r == spec_total_cost(self.payload),
    {
        match &self.payload {
            TransactionPayload::Transfer(amnt) => Self::calculate_transfer_total_cost(*amnt),
            TransactionPayload::Message(msg) => Self::calculate_message_total_cost(msg),
            TransactionPayload::Stake(amnt) => Self::calculate_stake_total_cost(*amnt),
        }
    }

    /// The SHA-256 hash over the content bytes.
    pub fn calculate_hash(&self) -> (r: [u8; 32])
        ensures
            r@ == sha256_of(spec_hash_input(*self)),
    {
        let mut input: Vec<u8> = Vec::new();

        match &self.payload {
            TransactionPayload::Transfer(a) => {
                let b = be_bytes_exec(*a as u128, 4);
                append_bytes(&mut input, b.as_slice());
            },
            TransactionPayload::Stake(a) => {
                let b = be_bytes_exec(*a as u128, 4);
                append_bytes(&mut input, b.as_slice());
            },
            TransactionPayload::Message(m) => {
                append_bytes(&mut input, m.as_slice());
            },
        }

        match &self.recp_addr {
            Some(k) => append_bytes(&mut input, k.der.as_slice()),
            None => (),
        }

        match &self.sndr_addr {
            Some(k) => append_bytes(&mut input, k.der.as_slice()),
            None => (),
        }

        let nb = be_bytes_exec(self.nonce as u128, 8);
        append_bytes(&mut input, nb.as_slice());

        proof {
            assert(input@ =~= spec_hash_input(*self));
        }
        sha256(input.as_slice())
    }

    pub fn calculate_transfer_fees(amnt: u32) -> (r: u32)
        requires
            amnt * 3 <= u32::MAX,
        ensures
            r == spec_fees(TransactionPayload::Transfer(amnt)),
    {
        let fee = amnt * TRANSFER_FEE_PERCENTAGE / 100;
        if fee < MINIMUM_TRANSFER_FEE_CENTS {
            MINIMUM_TRANSFER_FEE_CENTS
        } else {
            fee
        }
    }

    pub fn calculate_message_fees(msg: &Vec<u8>) -> (r: u32)
        requires
            msg@.len() * 101 <= u32::MAX,
        ensures
            r == spec_fees(TransactionPayload::Message(*msg)),
    {
        (msg.len() as u32) * MESSAGE_FEE_PER_CHARACTER_CENTS
    }

    pub fn calculcate_stake_fees(_amnt: u32) -> (r: u32)
        ensures
            r == 0,
    {
        0
    }

    pub fn calculate_transfer_total_cost(amnt: u32) -> (r: u32)
        requires
            amnt * 3 <= u32::MAX,
        ensures
            r == spec_total_cost(TransactionPayload::Transfer(amnt)),
    {
        amnt + Self::calculate_transfer_fees(amnt)
    }

    pub fn calculate_message_total_cost(msg: &Vec<u8>) -> (r: u32)
        requires
            msg@.len() * 101 <= u32::MAX,
        ensures
            r == spec_total_cost(TransactionPayload::Message(*msg)),
    {
        (msg.len() as u32) + Self::calculate_message_fees(msg)
    }

    pub fn calculate_stake_total_cost(amnt: u32) -> (r: u32)
        ensures
            r == spec_total_cost(TransactionPayload::Stake(amnt)),
    {
        amnt
    }

    fn new(
        payload: TransactionPayload,
        sndr_addr: Option<PublicKey>,
        recp_addr: Option<PublicKey>,
        nonce: u64,
        priv_key: Option<&PrivateKey>,
    ) -> (r: Self)
        requires
            payload_wf(payload),
        ensures
            r.wf(),
            r.hash_ok(),
            r.payload == payload,
            r.sndr_addr == sndr_addr,
            r.recp_addr == recp_addr,
            r.nonce == nonce,
            match priv_key {
                Some(k) => r.signed_by(k@) && (r.sig_nonempty() ==> r.verifies_under(
                    public_der_of(k@),
                )),
                None => r.sig is None,
            },
    {
        let mut tsx = Self { payload, sndr_addr, recp_addr, nonce, hash: [0; 32], sig: None };

        let ghost pre = tsx;
        tsx.hash = tsx.calculate_hash();
        proof {
            // The hash input covers everything but the hash and signature
            // fields, so filling those in keeps the stored hash correct.
            assert(spec_hash_input(tsx) =~= spec_hash_input(pre));
        }
        if let Some(key) = priv_key {
            tsx.sig = Some(key.sign(tsx.hash.as_slice()));
        }

        tsx
    }

    // getters

    pub fn payload(&self) -> (r: &TransactionPayload)
        ensures
            *r == self.payload,
    {
        &self.payload
    }

    pub fn sndr_addr(&self) -> (r: Option<&PublicKey>)
        ensures
            r is Some <==> self.sndr_addr is Some,
            r matches Some(k) ==> *k == self.sndr_addr.unwrap(),
    {
        self.sndr_addr.as_ref()
    }

    pub fn recp_addr(&self) -> (r: Option<&PublicKey>)
        ensures
            r is Some <==> self.recp_addr is Some,
            r matches Some(k) ==> *k == self.recp_addr.unwrap(),
    {
        self.recp_addr.as_ref()
    }

    pub fn nonce(&self) -> (r: u64)
        ensures
            r == self.nonce,
    {
        self.nonce
    }

    pub fn hash(&self) -> (r: &[u8; 32])
        ensures
            *r == self.hash,
    {
        &self.hash
    }

    pub fn sig(&self) -> (r: Option<&Vec<u8>>)
        ensures
            r is Some <==> self.sig is Some,
            r matches Some(s) ==> *s == self.sig.unwrap(),
    {
        self.sig.as_ref()
    }
}

/// Two transactions with the same content — payload, parties and nonce —
/// hash to the same value, however they were built.
pub proof fn lemma_hash_deterministic(t1: Transaction, t2: Transaction)
    requires
        spec_payload_bytes(t1.payload) == spec_payload_bytes(t2.payload),
        opt_key_bytes(t1.sndr_addr) == opt_key_bytes(t2.sndr_addr),
        opt_key_bytes(t1.recp_addr) == opt_key_bytes(t2.recp_addr),
        t1.nonce == t2.nonce,
    ensures
        sha256_of(spec_hash_input(t1)) == sha256_of(spec_hash_input(t2)),
{
    assert(spec_hash_input(t1) =~= spec_hash_input(t2));
}

} // verus!
