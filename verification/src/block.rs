use vstd::prelude::*;

use crate::bytes::{append_bytes, be_bytes, be_bytes_exec};
use crate::crypto::{sha256, sha256_of, PublicKey};
use crate::transaction::{opt_key_bytes, Transaction};

verus! {

/// How many transactions a minted block carries, exactly.
pub const BLOCK_CAPACITY: usize = 5;

/// A block of the chain: position, mint time, the carried transactions,
/// the minting validator's key (absent only for genesis), the previous
/// block's hash and this block's own hash.
#[derive(Clone, Debug)]
pub struct Block {
    pub index: u32,
    pub timestamp: u128,
    pub tsxs: Vec<Transaction>,
    pub val: Option<PublicKey>,
    pub prev_hash: [u8; 32],
    pub hash: [u8; 32],
}

/// The stored hashes of a list of transactions, concatenated in order.
pub open spec fn tsx_hashes(ts: Seq<Transaction>) -> Seq<u8>
    decreases ts.len(),
{
    if ts.len() == 0 {
        Seq::empty()
    } else {
        tsx_hashes(ts.drop_last()) + ts.last().hash@
    }
}

/// The bytes a block's hash is computed over, in order: timestamp
/// big-endian, each transaction's hash, validator key DER if present, the
/// previous block's hash.
pub open spec fn spec_block_hash_input(b: Block) -> Seq<u8> {
    be_bytes(b.timestamp as int, 16) + tsx_hashes(b.tsxs@) + opt_key_bytes(b.val) + b.prev_hash@
}

/// Relies on `std::time::SystemTime`: milliseconds since the Unix epoch.
/// Nothing is assumed of the value.
#[verifier::external_body]
fn now_millis() -> u128 {
    match std::time::SystemTime::now().duration_since(std::time::SystemTime::UNIX_EPOCH) {
        Ok(d) => d.as_millis(),
        Err(_) => 0,
    }
}

impl Block {
    /// The stored hash is the hash of the content.
    pub open spec fn hash_ok(&self) -> bool {
        self.hash@ == sha256_of(spec_block_hash_input(*self))
    }

    /// A freshly minted block over exactly `BLOCK_CAPACITY` transactions,
    /// stamped with the current time.  Its index is set when it is
    /// appended to the chain.
    pub fn new(tsxs: Vec<Transaction>, val: PublicKey, prev_hash: [u8; 32]) -> (r: Self)
        requires
            tsxs@.len() == BLOCK_CAPACITY,
        ensures
            r.hash_ok(),
            r.index == 0,
            r.tsxs@ == tsxs@,
            r.val == Some(val),
            r.prev_hash == prev_hash,
    {
        let mut blk = Self {
            index: 0,
            timestamp: now_millis(),
            tsxs,
            val: Some(val),
            prev_hash,
            hash: [0; 32],
        };
        let ghost pre = blk;
        blk.hash = blk.calculate_hash();
        proof {
            assert(spec_block_hash_input(blk) =~= spec_block_hash_input(pre));
        }
        blk
    }

    /// The genesis block: no validator, an all-zero previous hash, and one
    /// grant per peer.
    pub fn new_genesis(gen_tsxs: Vec<Transaction>) -> (r: Self)
        ensures
            r.hash_ok(),
            r.index == 0,
            r.tsxs@ == gen_tsxs@,
            r.val is None,
            r.prev_hash@ == Seq::new(32, |i: int| 0u8),
    {
        let mut blk = Self {
            index: 0,
            timestamp: now_millis(),
            tsxs: gen_tsxs,
            val: None,
            prev_hash: [0; 32],
            hash: [0; 32],
        };
        let ghost pre = blk;
        blk.hash = blk.calculate_hash();
        proof {
            assert(spec_block_hash_input(blk) =~= spec_block_hash_input(pre));
            assert(blk.prev_hash@ =~= Seq::new(32, |i: int| 0u8));
        }
        blk
    }

    /// The SHA-256 hash over the block's content bytes.
    pub fn calculate_hash(&self) -> (r: [u8; 32])
        ensures
            r@ == sha256_of(spec_block_hash_input(*self)),
    {
        let mut input: Vec<u8> = Vec::new();

        let tb = be_bytes_exec(self.timestamp, 16);
        append_bytes(&mut input, tb.as_slice());

        let ghost ts_part = input@;
        let mut i: usize = 0;
        proof {
            assert(tsx_hashes(self.tsxs@.subrange(0, 0)) =~= Seq::<u8>::empty());
            assert(input@ =~= ts_part + tsx_hashes(self.tsxs@.subrange(0, 0)));
        }
        while i < self.tsxs.len()
            invariant
                i <= self.tsxs@.len(),
                input@ == ts_part + tsx_hashes(self.tsxs@.subrange(0, i as int)),
            decreases self.tsxs@.len() - i,
        {
            append_bytes(&mut input, self.tsxs[i].hash.as_slice());
            proof {
                assert(self.tsxs@.subrange(0, i + 1).drop_last() =~= self.tsxs@.subrange(
                    0,
                    i as int,
                ));
                assert(input@ =~= ts_part + tsx_hashes(self.tsxs@.subrange(0, i + 1)));
            }
            i += 1;
        }
        proof {
            assert(self.tsxs@.subrange(0, self.tsxs@.len() as int) =~= self.tsxs@);
        }

        match &self.val {
            Some(k) => append_bytes(&mut input, k.der.as_slice()),
            None => (),
        }

        append_bytes(&mut input, self.prev_hash.as_slice());

        proof {
            assert(input@ =~= spec_block_hash_input(*self));
        }
        sha256(input.as_slice())
    }

    // getters

    pub fn index(&self) -> (r: u32)
        ensures
            r == self.index,
    {
        self.index
    }

    pub fn timestamp(&self) -> (r: u128)
        ensures
            r == self.timestamp,
    {
        self.timestamp
    }

    pub fn tsxs(&self) -> (r: &Vec<Transaction>)
        ensures
            *r == self.tsxs,
    {
        &self.tsxs
    }

    pub fn val(&self) -> (r: Option<&PublicKey>)
        ensures
            r is Some <==> self.val is Some,
            r matches Some(k) ==> *k == self.val.unwrap(),
    {
        self.val.as_ref()
    }

    pub fn prev_hash(&self) -> (r: &[u8; 32])
        ensures
            *r == self.prev_hash,
    {
        &self.prev_hash
    }

    pub fn hash(&self) -> (r: &[u8; 32])
        ensures
            *r == self.hash,
    {
        &self.hash
    }
}

} // verus!
