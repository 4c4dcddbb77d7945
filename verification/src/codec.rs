use vstd::prelude::*;

use crate::block::Block;
use crate::bytes::{
    append_bytes, be_bytes, be_bytes_exec, from_be, from_be_exec, lemma_be_bytes_len,
    lemma_be_round, lemma_from_be_bound, pow256,
};
use crate::cli::Command;
use crate::crypto::PublicKey;
use crate::protocol::Broadcast;
use crate::transaction::{spec_hash_input, Transaction, TransactionPayload};

verus! {

/// A transaction payload, reduced to what the wire carries.
pub enum PayloadView {
    Transfer(u32),
    Message(Seq<u8>),
    Stake(u32),
}

/// A transaction, reduced to what the wire carries: every field as plain
/// bytes and numbers.
pub struct TxView {
    pub payload: PayloadView,
    pub sndr: Option<Seq<u8>>,
    pub recp: Option<Seq<u8>>,
    pub nonce: u64,
    pub hash: Seq<u8>,
    pub sig: Option<Seq<u8>>,
}

pub open spec fn payload_view(p: TransactionPayload) -> PayloadView {
    match p {
        TransactionPayload::Transfer(a) => PayloadView::Transfer(a),
        TransactionPayload::Message(m) => PayloadView::Message(m@),
        TransactionPayload::Stake(a) => PayloadView::Stake(a),
    }
}

pub open spec fn opt_view(o: Option<PublicKey>) -> Option<Seq<u8>> {
    match o {
        None => None,
        Some(k) => Some(k@),
    }
}

pub open spec fn tx_view(t: Transaction) -> TxView {
    TxView {
        payload: payload_view(t.payload),
        sndr: opt_view(t.sndr_addr),
        recp: opt_view(t.recp_addr),
        nonce: t.nonce,
        hash: t.hash@,
        sig: match t.sig {
            None => None,
            Some(s) => Some(s@),
        },
    }
}

/// Whether the bytes are valid UTF-8: a property of the bytes alone.
pub uninterp spec fn utf8_valid(bytes: Seq<u8>) -> bool;

/// Relies on `core::str::from_utf8`: it accepts exactly the valid UTF-8
/// byte strings.
#[verifier::external_body]
fn is_utf8(bytes: &[u8]) -> (r: bool)
    ensures
        r == utf8_valid(bytes@),
{
    core::str::from_utf8(bytes).is_ok()
}

/// What the wire accepts: the payload priced as the ledger demands, a
/// message that is text, and every byte string short enough for its
/// 8-byte length prefix.
pub open spec fn view_wf(v: TxView) -> bool {
    &&& match v.payload {
        PayloadView::Transfer(a) => 1 <= a && a * 3 <= u32::MAX,
        PayloadView::Message(m) => 1 <= m.len() && m.len() * 101 <= u32::MAX && utf8_valid(m),
        PayloadView::Stake(a) => 1 <= a,
    }
    &&& (v.sndr matches Some(s) ==> s.len() < pow256(8))
    &&& (v.recp matches Some(s) ==> s.len() < pow256(8))
    &&& (v.sig matches Some(s) ==> s.len() < pow256(8))
    &&& v.hash.len() == 32
}

// ---- encoding ----

pub open spec fn enc_bytes(s: Seq<u8>) -> Seq<u8> {
    be_bytes(s.len() as int, 8) + s
}

pub open spec fn enc_opt(o: Option<Seq<u8>>) -> Seq<u8> {
    match o {
        None => seq![0u8],
        Some(s) => seq![1u8] + enc_bytes(s),
    }
}

pub open spec fn enc_payload(p: PayloadView) -> Seq<u8> {
    match p {
        PayloadView::Transfer(a) => seq![0u8] + be_bytes(a as int, 4),
        PayloadView::Message(m) => seq![1u8] + enc_bytes(m),
        PayloadView::Stake(a) => seq![2u8] + be_bytes(a as int, 4),
    }
}

/// A transaction's wire bytes: payload, sender key, recipient key, nonce,
/// hash, signature, each field self-delimiting.
pub open spec fn enc_tx(v: TxView) -> Seq<u8> {
    enc_payload(v.payload) + enc_opt(v.sndr) + enc_opt(v.recp) + be_bytes(v.nonce as int, 8)
        + v.hash + enc_opt(v.sig)
}

// ---- decoding (spec) ----

pub open spec fn dec_uint(b: Seq<u8>, i: int, n: int) -> Option<(int, int)> {
    if 0 <= i && 0 <= n && i + n <= b.len() {
        Some((from_be(b.subrange(i, i + n)), i + n))
    } else {
        None
    }
}

pub open spec fn dec_bytes(b: Seq<u8>, i: int) -> Option<(Seq<u8>, int)> {
    match dec_uint(b, i, 8) {
        None => None,
        Some((len, j)) => if j + len <= b.len() {
            Some((b.subrange(j, j + len), j + len))
        } else {
            None
        },
    }
}

pub open spec fn dec_opt(b: Seq<u8>, i: int) -> Option<(Option<Seq<u8>>, int)> {
    if 0 <= i && i < b.len() {
        if b[i] == 0u8 {
            Some((None, i + 1))
        } else if b[i] == 1u8 {
            match dec_bytes(b, i + 1) {
                None => None,
                Some((s, j)) => Some((Some(s), j)),
            }
        } else {
            None
        }
    } else {
        None
    }
}

pub open spec fn dec_payload(b: Seq<u8>, i: int) -> Option<(PayloadView, int)> {
    if 0 <= i && i < b.len() {
        if b[i] == 0u8 {
            match dec_uint(b, i + 1, 4) {
                None => None,
                Some((a, j)) => Some((PayloadView::Transfer(a as u32), j)),
            }
        } else if b[i] == 1u8 {
            match dec_bytes(b, i + 1) {
                None => None,
                Some((m, j)) => Some((PayloadView::Message(m), j)),
            }
        } else if b[i] == 2u8 {
            match dec_uint(b, i + 1, 4) {
                None => None,
                Some((a, j)) => Some((PayloadView::Stake(a as u32), j)),
            }
        } else {
            None
        }
    } else {
        None
    }
}

pub open spec fn dec_tx_at(b: Seq<u8>, i: int) -> Option<(TxView, int)> {
    match dec_payload(b, i) {
        None => None,
        Some((payload, i1)) => match dec_opt(b, i1) {
            None => None,
            Some((sndr, i2)) => match dec_opt(b, i2) {
                None => None,
                Some((recp, i3)) => match dec_uint(b, i3, 8) {
                    None => None,
                    Some((nonce, i4)) => if i4 + 32 <= b.len() {
                        let hash = b.subrange(i4, i4 + 32);
                        match dec_opt(b, i4 + 32) {
                            None => None,
                            Some((sig, i5)) => Some(
                                (
                                    TxView {
                                        payload,
                                        sndr,
                                        recp,
                                        nonce: nonce as u64,
                                        hash,
                                        sig,
                                    },
                                    i5,
                                ),
                            ),
                        }
                    } else {
                        None
                    },
                },
            },
        },
    }
}

/// The transaction a whole buffer denotes: it must parse, be consumed
/// exactly, and satisfy the wire's well-formedness.
pub open spec fn spec_decode_transaction(b: Seq<u8>) -> Option<TxView> {
    match dec_tx_at(b, 0) {
        None => None,
        Some((v, end)) => if end == b.len() && view_wf(v) {
            Some(v)
        } else {
            None
        },
    }
}

// ---- encoding (exec) ----

/// A byte string with its 8-byte big-endian length prefix.
fn write_bytes(out: &mut Vec<u8>, s: &[u8])
    ensures
        final(out)@ == old(out)@ + enc_bytes(s@),
{
    let lb = be_bytes_exec(s.len() as u128, 8);
    append_bytes(out, lb.as_slice());
    append_bytes(out, s);
    proof {
        assert(final(out)@ =~= old(out)@ + enc_bytes(s@));
    }
}

fn write_opt(out: &mut Vec<u8>, o: &Option<Vec<u8>>)
    ensures
        final(out)@ == old(out)@ + enc_opt(match *o {
            None => None,
            Some(s) => Some(s@),
        }),
{
    match o {
        None => {
            out.push(0u8);
            proof {
                assert(final(out)@ =~= old(out)@ + enc_opt(None));
            }
        },
        Some(s) => {
            out.push(1u8);
            write_bytes(out, s.as_slice());
            proof {
                assert(final(out)@ =~= old(out)@ + enc_opt(Some(s@)));
            }
        },
    }
}

fn write_opt_key(out: &mut Vec<u8>, o: &Option<PublicKey>)
    ensures
        final(out)@ == old(out)@ + enc_opt(opt_view(*o)),
{
    match o {
        None => {
            out.push(0u8);
            proof {
                assert(final(out)@ =~= old(out)@ + enc_opt(None));
            }
        },
        Some(k) => {
            out.push(1u8);
            write_bytes(out, k.der.as_slice());
            proof {
                assert(final(out)@ =~= old(out)@ + enc_opt(Some(k@)));
            }
        },
    }
}

/// A transaction's wire bytes.
pub fn encode_transaction(t: &Transaction) -> (r: Vec<u8>)
    ensures
        r@ == enc_tx(tx_view(*t)),
{
    let mut out: Vec<u8> = Vec::new();
    match &t.payload {
        TransactionPayload::Transfer(a) => {
            out.push(0u8);
            let ab = be_bytes_exec(*a as u128, 4);
            append_bytes(&mut out, ab.as_slice());
        },
        TransactionPayload::Message(m) => {
            out.push(1u8);
            write_bytes(&mut out, m.as_slice());
        },
        TransactionPayload::Stake(a) => {
            out.push(2u8);
            let ab = be_bytes_exec(*a as u128, 4);
            append_bytes(&mut out, ab.as_slice());
        },
    }
    proof {
        assert(out@ =~= enc_payload(payload_view(t.payload)));
    }
    write_opt_key(&mut out, &t.sndr_addr);
    write_opt_key(&mut out, &t.recp_addr);
    let nb = be_bytes_exec(t.nonce as u128, 8);
    append_bytes(&mut out, nb.as_slice());
    append_bytes(&mut out, t.hash.as_slice());
    write_opt(&mut out, &t.sig);
    proof {
        assert(out@ =~= enc_tx(tx_view(*t)));
    }
    out
}

// ---- decoding (exec) ----

fn read_uint(b: &[u8], i: usize, n: usize) -> (r: Option<(u128, usize)>)
    requires
        n <= 16,
    ensures
        match r {
            Some((x, j)) => dec_uint(b@, i as int, n as int) == Some((x as int, j as int)),
            None => dec_uint(b@, i as int, n as int) is None,
        },
{
    if b.len() < n || i > b.len() - n {
        return None;
    }
    let sub = vstd::slice::slice_subrange(b, i, i + n);
    let x = from_be_exec(sub);
    Some((x, i + n))
}

fn read_bytes(b: &[u8], i: usize) -> (r: Option<(Vec<u8>, usize)>)
    ensures
        match r {
            Some((s, j)) => dec_bytes(b@, i as int) == Some((s@, j as int)),
            None => dec_bytes(b@, i as int) is None,
        },
{
    let (len, j) = match read_uint(b, i, 8) {
        Some(p) => p,
        None => {
            return None;
        },
    };
    if (len as u128) > (b.len() - j) as u128 {
        return None;
    }
    let len = len as usize;
    let sub = vstd::slice::slice_subrange(b, j, j + len);
    let v = vstd::slice::slice_to_vec(sub);
    Some((v, j + len))
}

fn read_opt(b: &[u8], i: usize) -> (r: Option<(Option<Vec<u8>>, usize)>)
    ensures
        match r {
            Some((o, j)) => dec_opt(b@, i as int) == Some(
                (
                    match o {
                        None => None,
                        Some(s) => Some(s@),
                    },
                    j as int,
                ),
            ),
            None => dec_opt(b@, i as int) is None,
        },
{
    if i >= b.len() {
        return None;
    }
    if b[i] == 0u8 {
        Some((None, i + 1))
    } else if b[i] == 1u8 {
        match read_bytes(b, i + 1) {
            Some((s, j)) => Some((Some(s), j)),
            None => None,
        }
    } else {
        None
    }
}

fn read_payload(b: &[u8], i: usize) -> (r: Option<(TransactionPayload, usize)>)
    ensures
        match r {
            Some((p, j)) => dec_payload(b@, i as int) == Some((payload_view(p), j as int)),
            None => dec_payload(b@, i as int) is None,
        },
{
    if i >= b.len() {
        return None;
    }
    if b[i] == 0u8 {
        match read_uint(b, i + 1, 4) {
            Some((a, j)) => Some((TransactionPayload::Transfer(a as u32), j)),
            None => None,
        }
    } else if b[i] == 1u8 {
        match read_bytes(b, i + 1) {
            Some((m, j)) => Some((TransactionPayload::Message(m), j)),
            None => None,
        }
    } else if b[i] == 2u8 {
        match read_uint(b, i + 1, 4) {
            Some((a, j)) => Some((TransactionPayload::Stake(a as u32), j)),
            None => None,
        }
    } else {
        None
    }
}

fn read_hash32(b: &[u8], i: usize) -> (r: Option<([u8; 32], usize)>)
    ensures
        match r {
            Some((h, j)) => i + 32 <= b@.len() && h@ == b@.subrange(i as int, i as int + 32)
                && j == i + 32,
            None => i + 32 > b@.len(),
        },
{
    if b.len() < 32 || i > b.len() - 32 {
        return None;
    }
    let mut h: [u8; 32] = [0; 32];
    let mut k: usize = 0;
    while k < 32
        invariant
            k <= 32,
            i + 32 <= b@.len(),
            i + 32 <= usize::MAX,
            forall|t: int| 0 <= t < k ==> h@[t] == b@[i + t],
        decreases 32 - k,
    {
        h[k] = b[i + k];
        k += 1;
    }
    proof {
        assert(h@ =~= b@.subrange(i as int, i as int + 32));
    }
    Some((h, i + 32))
}

/// One transaction read from offset `i`, mirroring the wire grammar; its
/// well-formedness is checked by the whole-buffer decoder.
fn read_transaction(b: &[u8], i: usize) -> (r: Option<(Transaction, usize)>)
    ensures
        match r {
            Some((t, j)) => dec_tx_at(b@, i as int) == Some((tx_view(t), j as int)),
            None => dec_tx_at(b@, i as int) is None,
        },
{
    let (payload, i1) = match read_payload(b, i) {
        Some(p) => p,
        None => {
            return None;
        },
    };
    let (sndr, i2) = match read_opt(b, i1) {
        Some(p) => p,
        None => {
            return None;
        },
    };
    let (recp, i3) = match read_opt(b, i2) {
        Some(p) => p,
        None => {
            return None;
        },
    };
    let (nonce, i4) = match read_uint(b, i3, 8) {
        Some(p) => p,
        None => {
            return None;
        },
    };
    let (hash, i5) = match read_hash32(b, i4) {
        Some(p) => p,
        None => {
            return None;
        },
    };
    let (sig, i6) = match read_opt(b, i5) {
        Some(p) => p,
        None => {
            return None;
        },
    };
    let t = Transaction {
        payload,
        sndr_addr: match sndr {
            None => None,
            Some(d) => Some(PublicKey::from_der(d)),
        },
        recp_addr: match recp {
            None => None,
            Some(d) => Some(PublicKey::from_der(d)),
        },
        nonce: nonce as u64,
        hash,
        sig,
    };
    proof {
        lemma_from_be_bound(b@.subrange(i3 as int, i3 as int + 8));
        reveal_with_fuel(pow256, 9);
    }
    Some((t, i6))
}

/// Whether the wire accepts this payload; mirrors the ledger's pricing
/// bounds.
fn check_view_wf(t: &Transaction) -> (r: bool)
    ensures
        r == view_wf(tx_view(*t)),
{
    proof {
        reveal_with_fuel(pow256, 9);
        assert(pow256(8) == 0x10000000000000000);
    }
    // Reading the lengths reminds the prover that they fit a `usize`,
    // hence under the 8-byte prefix's range.
    let _sndr_len: usize = match &t.sndr_addr {
        Some(k) => k.der.len(),
        None => 0,
    };
    let _recp_len: usize = match &t.recp_addr {
        Some(k) => k.der.len(),
        None => 0,
    };
    let _sig_len: usize = match &t.sig {
        Some(s) => s.len(),
        None => 0,
    };
    let msg_is_text = match &t.payload {
        TransactionPayload::Message(m) => is_utf8(m.as_slice()),
        _ => true,
    };
    msg_is_text && t.payload.check_wf()
}

/// The transaction a whole frame carries, if it parses exactly and is
/// acceptably formed.
pub fn decode_transaction(b: &[u8]) -> (r: Option<Transaction>)
    ensures
        match r {
            Some(t) => spec_decode_transaction(b@) == Some(tx_view(t)) && t.wf(),
            None => spec_decode_transaction(b@) is None,
        },
{
    let (t, end) = match read_transaction(b, 0) {
        Some(p) => p,
        None => {
            return None;
        },
    };
    if end != b.len() {
        return None;
    }
    if !check_view_wf(&t) {
        return None;
    }
    Some(t)
}

// ---- blocks on the wire ----

/// The wire bytes of a list of transactions, in order.
pub open spec fn enc_txs(ts: Seq<Transaction>) -> Seq<u8>
    decreases ts.len(),
{
    if ts.len() == 0 {
        Seq::empty()
    } else {
        enc_txs(ts.drop_last()) + enc_tx(tx_view(ts.last()))
    }
}

/// A block's wire bytes: index, timestamp, transaction count, the
/// transactions, the validator key, the previous hash, the hash.
pub open spec fn enc_block(b: Block) -> Seq<u8> {
    be_bytes(b.index as int, 4) + be_bytes(b.timestamp as int, 16) + be_bytes(
        b.tsxs@.len() as int,
        8,
    ) + enc_txs(b.tsxs@) + enc_opt(opt_view(b.val)) + b.prev_hash@ + b.hash@
}

/// `cnt` transactions read from offset `i`, as views.
pub open spec fn dec_txs(b: Seq<u8>, i: int, cnt: int) -> Option<(Seq<TxView>, int)>
    decreases cnt,
{
    if cnt <= 0 {
        Some((Seq::empty(), i))
    } else {
        match dec_tx_at(b, i) {
            None => None,
            Some((v, j)) => match dec_txs(b, j, cnt - 1) {
                None => None,
                Some((vs, k)) => Some((seq![v] + vs, k)),
            },
        }
    }
}

/// A block, reduced to what the wire carries.
pub struct BlockView {
    pub index: u32,
    pub timestamp: u128,
    pub tsxs: Seq<TxView>,
    pub val: Option<Seq<u8>>,
    pub prev_hash: Seq<u8>,
    pub hash: Seq<u8>,
}

pub open spec fn block_view(b: Block) -> BlockView {
    BlockView {
        index: b.index,
        timestamp: b.timestamp,
        tsxs: Seq::new(b.tsxs@.len(), |i: int| tx_view(b.tsxs@[i])),
        val: opt_view(b.val),
        prev_hash: b.prev_hash@,
        hash: b.hash@,
    }
}

/// The block a whole frame carries: it must parse, be consumed exactly,
/// and carry only acceptably formed transactions.
pub open spec fn spec_decode_block(b: Seq<u8>) -> Option<BlockView> {
    match dec_uint(b, 0, 4) {
        None => None,
        Some((index, i1)) => match dec_uint(b, i1, 16) {
            None => None,
            Some((ts, i2)) => match dec_uint(b, i2, 8) {
                None => None,
                Some((cnt, i3)) => match dec_txs(b, i3, cnt) {
                    None => None,
                    Some((vs, i4)) => match dec_opt(b, i4) {
                        None => None,
                        Some((val, i5)) => if i5 + 64 == b.len() && (forall|t: int|
                            0 <= t < vs.len() ==> view_wf(#[trigger] vs[t])) {
                            Some(
                                BlockView {
                                    index: index as u32,
                                    timestamp: ts as u128,
                                    tsxs: vs,
                                    val,
                                    prev_hash: b.subrange(i5, i5 + 32),
                                    hash: b.subrange(i5 + 32, i5 + 64),
                                },
                            )
                        } else {
                            None
                        },
                    },
                },
            },
        },
    }
}

/// A block's wire bytes.
pub fn encode_block(b: &Block) -> (r: Vec<u8>)
    ensures
        r@ == enc_block(*b),
{
    let mut out: Vec<u8> = Vec::new();
    let ib = be_bytes_exec(b.index as u128, 4);
    append_bytes(&mut out, ib.as_slice());
    let tb = be_bytes_exec(b.timestamp, 16);
    append_bytes(&mut out, tb.as_slice());
    let cb = be_bytes_exec(b.tsxs.len() as u128, 8);
    append_bytes(&mut out, cb.as_slice());
    let ghost head = out@;
    let mut k: usize = 0;
    proof {
        assert(enc_txs(b.tsxs@.subrange(0, 0)) =~= Seq::<u8>::empty());
        assert(out@ =~= head + enc_txs(b.tsxs@.subrange(0, 0)));
    }
    while k < b.tsxs.len()
        invariant
            k <= b.tsxs@.len(),
            out@ == head + enc_txs(b.tsxs@.subrange(0, k as int)),
        decreases b.tsxs@.len() - k,
    {
        let txb = encode_transaction(&b.tsxs[k]);
        append_bytes(&mut out, txb.as_slice());
        proof {
            assert(b.tsxs@.subrange(0, k + 1).drop_last() =~= b.tsxs@.subrange(0, k as int));
            assert(out@ =~= head + enc_txs(b.tsxs@.subrange(0, k + 1)));
        }
        k += 1;
    }
    proof {
        assert(b.tsxs@.subrange(0, b.tsxs@.len() as int) =~= b.tsxs@);
    }
    write_opt_key(&mut out, &b.val);
    append_bytes(&mut out, b.prev_hash.as_slice());
    append_bytes(&mut out, b.hash.as_slice());
    proof {
        assert(out@ =~= enc_block(*b));
    }
    out
}

/// The block a whole frame carries, if it parses exactly with acceptably
/// formed transactions.
#[verifier::rlimit(100)]
pub fn decode_block(b: &[u8]) -> (r: Option<Block>)
    ensures
        match r {
            Some(blk) => spec_decode_block(b@) == Some(block_view(blk)) && (forall|t: int|
                0 <= t < blk.tsxs@.len() ==> (#[trigger] blk.tsxs@[t]).wf()),
            None => spec_decode_block(b@) is None,
        },
{
    let (index, i1) = match read_uint(b, 0, 4) {
        Some(p) => p,
        None => {
            return None;
        },
    };
    let (ts, i2) = match read_uint(b, i1, 16) {
        Some(p) => p,
        None => {
            return None;
        },
    };
    let (cnt128, i3) = match read_uint(b, i2, 8) {
        Some(p) => p,
        None => {
            return None;
        },
    };
    if cnt128 > (b.len() as u128) {
        // Each transaction takes at least one byte, so more transactions
        // than bytes cannot parse.
        proof {
            lemma_txs_need_bytes(b@, i3 as int, cnt128 as int);
        }
        return None;
    }
    let cnt = cnt128 as usize;
    let mut tsxs: Vec<Transaction> = Vec::new();
    let mut i: usize = i3;
    let mut k: usize = 0;
    proof {
        assert(Seq::new(tsxs@.len(), |t: int| tx_view(tsxs@[t])) =~= Seq::<TxView>::empty());
    }
    while k < cnt
        invariant
            k <= cnt,
            tsxs@.len() == k,
            b@.len() <= usize::MAX,
            dec_uint(b@, 0, 4) == Some((index as int, i1 as int)),
            dec_uint(b@, i1 as int, 16) == Some((ts as int, i2 as int)),
            dec_uint(b@, i2 as int, 8) == Some((cnt128 as int, i3 as int)),
            cnt == cnt128,
            forall|t: int| 0 <= t < k ==> (#[trigger] tsxs@[t]).wf(),
            forall|t: int|
                0 <= t < k ==> view_wf(tx_view(#[trigger] tsxs@[t])),
            dec_txs(b@, i3 as int, cnt as int) == (match dec_txs(b@, i as int, cnt - k) {
                None => None::<(Seq<TxView>, int)>,
                Some((vs, e)) => Some(
                    (Seq::new(tsxs@.len(), |t: int| tx_view(tsxs@[t])) + vs, e),
                ),
            }),
        decreases cnt - k,
    {
        let (t, j) = match read_transaction(b, i) {
            Some(p) => p,
            None => {
                return None;
            },
        };
        if !check_view_wf(&t) {
            proof {
                match dec_txs(b@, j as int, cnt - k - 1) {
                    None => {},
                    Some((vs2, e2)) => {
                        let prefix = Seq::new(tsxs@.len(), |u: int| tx_view(tsxs@[u]));
                        let all = prefix + (seq![tx_view(t)] + vs2);
                        assert(all[k as int] == tx_view(t));
                        assert(!view_wf(all[k as int]));
                    },
                }
            }
            return None;
        }
        let ghost prefix_old = Seq::new(tsxs@.len(), |u: int| tx_view(tsxs@[u]));
        tsxs.push(t);
        proof {
            let prefix_new = Seq::new(tsxs@.len(), |u: int| tx_view(tsxs@[u]));
            assert(prefix_new =~= prefix_old + seq![tx_view(t)]);
            let ghost rest = dec_txs(b@, j as int, cnt - k - 1);
            match rest {
                None => {},
                Some((vs2, e2)) => {
                    assert((prefix_new + vs2) =~= (prefix_old + (seq![tx_view(t)] + vs2)));
                },
            }
        }
        i = j;
        k += 1;
    }
    let (val, i5) = match read_opt(b, i) {
        Some(p) => p,
        None => {
            return None;
        },
    };
    let (prev_hash, i6) = match read_hash32(b, i5) {
        Some(p) => p,
        None => {
            return None;
        },
    };
    let (hash, i7) = match read_hash32(b, i6) {
        Some(p) => p,
        None => {
            return None;
        },
    };
    if i7 != b.len() {
        return None;
    }
    proof {
        lemma_from_be_bound(b@.subrange(0, 4));
        lemma_from_be_bound(b@.subrange(i1 as int, i1 as int + 16));
        reveal_with_fuel(pow256, 17);
        assert(pow256(4) == 0x100000000);
        assert(index < 0x100000000);
    }
    let blk = Block {
        index: index as u32,
        timestamp: ts,
        tsxs,
        val: match val {
            None => None,
            Some(d) => Some(PublicKey::from_der(d)),
        },
        prev_hash,
        hash,
    };
    proof {
        assert(dec_txs(b@, i as int, 0) == Some((Seq::<TxView>::empty(), i as int)));
        let prefix = Seq::new(blk.tsxs@.len(), |t: int| tx_view(blk.tsxs@[t]));
        assert((prefix + Seq::<TxView>::empty()) =~= prefix);
        assert(prefix =~= block_view(blk).tsxs);
    }
    Some(blk)
}

/// More transactions than remaining bytes cannot parse: each transaction
/// occupies at least one byte.
proof fn lemma_txs_need_bytes(b: Seq<u8>, i: int, cnt: int)
    requires
        cnt > b.len(),
        0 <= i <= b.len(),
    ensures
        dec_txs(b, i, cnt) is None,
{
    lemma_txs_advance(b, i, cnt);
}

/// Parsing `cnt` transactions advances the offset by at least `cnt`.
proof fn lemma_txs_advance(b: Seq<u8>, i: int, cnt: int)
    requires
        0 <= i <= b.len(),
    ensures
        dec_txs(b, i, cnt) matches Some((vs, e)) ==> i + cnt <= e <= b.len(),
    decreases cnt,
{
    if cnt > 0 {
        match dec_tx_at(b, i) {
            None => {},
            Some((v, j)) => {
                lemma_tx_at_advance(b, i);
                lemma_txs_advance(b, j, cnt - 1);
            },
        }
    }
}

proof fn lemma_bytes_advance(b: Seq<u8>, i: int)
    ensures
        dec_bytes(b, i) matches Some((s, j)) ==> i >= 0 && i + 8 <= j <= b.len(),
{
    match dec_uint(b, i, 8) {
        None => {},
        Some((len, j0)) => {
            lemma_from_be_bound(b.subrange(i, i + 8));
        },
    }
}

proof fn lemma_opt_advance(b: Seq<u8>, i: int)
    ensures
        dec_opt(b, i) matches Some((o, j)) ==> i >= 0 && i < j <= b.len(),
{
    lemma_bytes_advance(b, i + 1);
}

proof fn lemma_payload_advance(b: Seq<u8>, i: int)
    ensures
        dec_payload(b, i) matches Some((p, j)) ==> i >= 0 && i < j <= b.len(),
{
    lemma_bytes_advance(b, i + 1);
}

/// One parsed transaction advances the offset by at least one byte and
/// stays within the buffer.
proof fn lemma_tx_at_advance(b: Seq<u8>, i: int)
    ensures
        dec_tx_at(b, i) matches Some((v, j)) ==> i >= 0 && i < j <= b.len(),
{
    lemma_payload_advance(b, i);
    match dec_payload(b, i) {
        None => {},
        Some((p, i1)) => {
            lemma_opt_advance(b, i1);
            match dec_opt(b, i1) {
                None => {},
                Some((o1, i2)) => {
                    lemma_opt_advance(b, i2);
                    match dec_opt(b, i2) {
                        None => {},
                        Some((o2, i3)) => {
                            match dec_uint(b, i3, 8) {
                                None => {},
                                Some((x, i4)) => {
                                    lemma_opt_advance(b, i4 + 32);
                                },
                            }
                        },
                    }
                },
            }
        },
    }
}

// ---- commands on the wire ----

/// A command, reduced to what the wire carries.
pub enum CommandView {
    T { rcp_id: u32, amt: u32 },
    M { rcp_id: u32, msg: Seq<Seq<u8>> },
    S { amt: u32 },
    V,
    B,
    H,
    Id,
    Time,
    Stats,
}

pub open spec fn words_view(ws: Seq<Vec<u8>>) -> Seq<Seq<u8>> {
    Seq::new(ws.len(), |i: int| ws[i]@)
}

pub open spec fn command_view(c: Command) -> CommandView {
    match c {
        Command::T { rcp_id, amt } => CommandView::T { rcp_id, amt },
        Command::M { rcp_id, msg } => CommandView::M { rcp_id, msg: words_view(msg@) },
        Command::S { amt } => CommandView::S { amt },
        Command::V => CommandView::V,
        Command::B => CommandView::B,
        Command::H => CommandView::H,
        Command::Id => CommandView::Id,
        Command::Time => CommandView::Time,
        Command::Stats => CommandView::Stats,
    }
}

pub open spec fn enc_word_list(ws: Seq<Seq<u8>>) -> Seq<u8>
    decreases ws.len(),
{
    if ws.len() == 0 {
        Seq::empty()
    } else {
        enc_word_list(ws.drop_last()) + enc_bytes(ws.last())
    }
}

pub open spec fn enc_command(v: CommandView) -> Seq<u8> {
    match v {
        CommandView::T { rcp_id, amt } => seq![0u8] + be_bytes(rcp_id as int, 4) + be_bytes(
            amt as int,
            4,
        ),
        CommandView::M { rcp_id, msg } => seq![1u8] + be_bytes(rcp_id as int, 4) + be_bytes(
            msg.len() as int,
            8,
        ) + enc_word_list(msg),
        CommandView::S { amt } => seq![2u8] + be_bytes(amt as int, 4),
        CommandView::V => seq![3u8],
        CommandView::B => seq![4u8],
        CommandView::H => seq![5u8],
        CommandView::Id => seq![6u8],
        CommandView::Time => seq![7u8],
        CommandView::Stats => seq![8u8],
    }
}

pub open spec fn dec_words(b: Seq<u8>, i: int, cnt: int) -> Option<(Seq<Seq<u8>>, int)>
    decreases cnt,
{
    if cnt <= 0 {
        Some((Seq::empty(), i))
    } else {
        match dec_bytes(b, i) {
            None => None,
            Some((w, j)) => match dec_words(b, j, cnt - 1) {
                None => None,
                Some((ws, k)) => Some((seq![w] + ws, k)),
            },
        }
    }
}

/// The command a whole frame carries, if it parses exactly.
pub open spec fn spec_decode_command(b: Seq<u8>) -> Option<CommandView> {
    if b.len() < 1 {
        None
    } else if b[0] == 0u8 {
        match dec_uint(b, 1, 4) {
            None => None,
            Some((rcp, i1)) => match dec_uint(b, i1, 4) {
                None => None,
                Some((amt, i2)) => if i2 == b.len() {
                    Some(CommandView::T { rcp_id: rcp as u32, amt: amt as u32 })
                } else {
                    None
                },
            },
        }
    } else if b[0] == 1u8 {
        match dec_uint(b, 1, 4) {
            None => None,
            Some((rcp, i1)) => match dec_uint(b, i1, 8) {
                None => None,
                Some((cnt, i2)) => match dec_words(b, i2, cnt) {
                    None => None,
                    Some((ws, i3)) => if i3 == b.len() {
                        Some(CommandView::M { rcp_id: rcp as u32, msg: ws })
                    } else {
                        None
                    },
                },
            },
        }
    } else if b[0] == 2u8 {
        match dec_uint(b, 1, 4) {
            None => None,
            Some((amt, i1)) => if i1 == b.len() {
                Some(CommandView::S { amt: amt as u32 })
            } else {
                None
            },
        }
    } else if b[0] == 3u8 && b.len() == 1 {
        Some(CommandView::V)
    } else if b[0] == 4u8 && b.len() == 1 {
        Some(CommandView::B)
    } else if b[0] == 5u8 && b.len() == 1 {
        Some(CommandView::H)
    } else if b[0] == 6u8 && b.len() == 1 {
        Some(CommandView::Id)
    } else if b[0] == 7u8 && b.len() == 1 {
        Some(CommandView::Time)
    } else if b[0] == 8u8 && b.len() == 1 {
        Some(CommandView::Stats)
    } else {
        None
    }
}

/// A command's wire bytes.
pub fn encode_command(c: &Command) -> (r: Vec<u8>)
    ensures
        r@ == enc_command(command_view(*c)),
{
    let mut out: Vec<u8> = Vec::new();
    match c {
        Command::T { rcp_id, amt } => {
            out.push(0u8);
            let rb = be_bytes_exec(*rcp_id as u128, 4);
            append_bytes(&mut out, rb.as_slice());
            let ab = be_bytes_exec(*amt as u128, 4);
            append_bytes(&mut out, ab.as_slice());
        },
        Command::M { rcp_id, msg } => {
            out.push(1u8);
            let rb = be_bytes_exec(*rcp_id as u128, 4);
            append_bytes(&mut out, rb.as_slice());
            let cb = be_bytes_exec(msg.len() as u128, 8);
            append_bytes(&mut out, cb.as_slice());
            let ghost head = out@;
            let mut k: usize = 0;
            proof {
                assert(enc_word_list(words_view(msg@).subrange(0, 0)) =~= Seq::<u8>::empty());
                assert(out@ =~= head + enc_word_list(words_view(msg@).subrange(0, 0)));
            }
            while k < msg.len()
                invariant
                    k <= msg@.len(),
                    out@ == head + enc_word_list(words_view(msg@).subrange(0, k as int)),
                decreases msg@.len() - k,
            {
                write_bytes(&mut out, msg[k].as_slice());
                proof {
                    assert(words_view(msg@).subrange(0, k + 1).drop_last() =~= words_view(
                        msg@,
                    ).subrange(0, k as int));
                    assert(out@ =~= head + enc_word_list(words_view(msg@).subrange(0, k + 1)));
                }
                k += 1;
            }
            proof {
                assert(words_view(msg@).subrange(0, msg@.len() as int) =~= words_view(msg@));
            }
        },
        Command::S { amt } => {
            out.push(2u8);
            let ab = be_bytes_exec(*amt as u128, 4);
            append_bytes(&mut out, ab.as_slice());
        },
        Command::V => {
            out.push(3u8);
        },
        Command::B => {
            out.push(4u8);
        },
        Command::H => {
            out.push(5u8);
        },
        Command::Id => {
            out.push(6u8);
        },
        Command::Time => {
            out.push(7u8);
        },
        Command::Stats => {
            out.push(8u8);
        },
    }
    proof {
        assert(out@ =~= enc_command(command_view(*c)));
    }
    out
}

proof fn lemma_words_need_bytes(b: Seq<u8>, i: int, cnt: int)
    requires
        8 * cnt > b.len(),
        0 <= i <= b.len(),
        cnt >= 0,
    ensures
        dec_words(b, i, cnt) is None,
{
    lemma_words_advance(b, i, cnt);
}

proof fn lemma_words_advance(b: Seq<u8>, i: int, cnt: int)
    requires
        0 <= i <= b.len(),
    ensures
        dec_words(b, i, cnt) matches Some((ws, e)) ==> i + 8 * cnt <= e <= b.len(),
    decreases cnt,
{
    if cnt > 0 {
        lemma_bytes_advance(b, i);
        match dec_bytes(b, i) {
            None => {},
            Some((w, j)) => {
                lemma_words_advance(b, j, cnt - 1);
            },
        }
    }
}

/// The command a whole frame carries, if it parses exactly.
#[verifier::rlimit(100)]
pub fn decode_command(b: &[u8]) -> (r: Option<Command>)
    ensures
        match r {
            Some(c) => spec_decode_command(b@) == Some(command_view(c)),
            None => spec_decode_command(b@) is None,
        },
{
    if b.len() < 1 {
        return None;
    }
    let tag = b[0];
    if tag == 0u8 {
        let (rcp, i1) = match read_uint(b, 1, 4) {
            Some(p) => p,
            None => {
                return None;
            },
        };
        let (amt, i2) = match read_uint(b, i1, 4) {
            Some(p) => p,
            None => {
                return None;
            },
        };
        if i2 != b.len() {
            return None;
        }
        Some(Command::T { rcp_id: rcp as u32, amt: amt as u32 })
    } else if tag == 1u8 {
        let (rcp, i1) = match read_uint(b, 1, 4) {
            Some(p) => p,
            None => {
                return None;
            },
        };
        let (cnt128, i2) = match read_uint(b, i1, 8) {
            Some(p) => p,
            None => {
                return None;
            },
        };
        if cnt128 > (b.len() as u128) {
            proof {
                lemma_words_need_bytes(b@, i2 as int, cnt128 as int);
            }
            return None;
        }
        let cnt = cnt128 as usize;
        let mut words: Vec<Vec<u8>> = Vec::new();
        let mut i: usize = i2;
        let mut k: usize = 0;
        proof {
            assert(words_view(words@) =~= Seq::<Seq<u8>>::empty());
        }
        while k < cnt
            invariant
                k <= cnt,
                words@.len() == k,
                b@.len() <= usize::MAX,
                dec_uint(b@, 1, 4) == Some((rcp as int, i1 as int)),
                dec_uint(b@, i1 as int, 8) == Some((cnt128 as int, i2 as int)),
                cnt == cnt128,
                b@.len() >= 1 && b@[0] == 1u8,
                dec_words(b@, i2 as int, cnt as int) == (match dec_words(b@, i as int, cnt - k) {
                    None => None::<(Seq<Seq<u8>>, int)>,
                    Some((ws, e)) => Some((words_view(words@) + ws, e)),
                }),
            decreases cnt - k,
        {
            let (w, j) = match read_bytes(b, i) {
                Some(p) => p,
                None => {
                    return None;
                },
            };
            let ghost wview = w@;
            let ghost prefix_old = words_view(words@);
            words.push(w);
            proof {
                let prefix_new = words_view(words@);
                assert(prefix_new =~= prefix_old + seq![wview]);
                match dec_words(b@, j as int, cnt - k - 1) {
                    None => {},
                    Some((ws2, e2)) => {
                        assert((prefix_new + ws2) =~= (prefix_old + (seq![wview] + ws2)));
                    },
                }
            }
            i = j;
            k += 1;
        }
        if i != b.len() {
            return None;
        }
        let c = Command::M { rcp_id: rcp as u32, msg: words };
        proof {
            assert(dec_words(b@, i as int, 0) == Some((Seq::<Seq<u8>>::empty(), i as int)));
            match &c {
                Command::M { rcp_id: _, msg } => {
                    assert((words_view(msg@) + Seq::<Seq<u8>>::empty()) =~= words_view(msg@));
                },
                _ => {},
            }
        }
        Some(c)
    } else if tag == 2u8 {
        let (amt, i1) = match read_uint(b, 1, 4) {
            Some(p) => p,
            None => {
                return None;
            },
        };
        if i1 != b.len() {
            return None;
        }
        Some(Command::S { amt: amt as u32 })
    } else if tag == 3u8 && b.len() == 1 {
        Some(Command::V)
    } else if tag == 4u8 && b.len() == 1 {
        Some(Command::B)
    } else if tag == 5u8 && b.len() == 1 {
        Some(Command::H)
    } else if tag == 6u8 && b.len() == 1 {
        Some(Command::Id)
    } else if tag == 7u8 && b.len() == 1 {
        Some(Command::Time)
    } else if tag == 8u8 && b.len() == 1 {
        Some(Command::Stats)
    } else {
        None
    }
}

// ---- whole frames ----

/// A frame's wire bytes: a tag byte, then the transaction, block or
/// command.
pub fn encode_broadcast(br: &Broadcast) -> (r: Vec<u8>)
    ensures
        r@.len() >= 1,
        match *br {
            Broadcast::Transaction(t) => r@[0] == 0u8 && r@.skip(1) == enc_tx(tx_view(t)),
            Broadcast::Block(b) => r@[0] == 1u8 && r@.skip(1) == enc_block(b),
            Broadcast::Command(c) => r@[0] == 2u8 && r@.skip(1) == enc_command(command_view(c)),
        },
{
    let mut out: Vec<u8> = Vec::new();
    match br {
        Broadcast::Transaction(t) => {
            out.push(0u8);
            let body = encode_transaction(t);
            append_bytes(&mut out, body.as_slice());
            proof {
                assert(out@.skip(1) =~= enc_tx(tx_view(*t)));
            }
        },
        Broadcast::Block(b) => {
            out.push(1u8);
            let body = encode_block(b);
            append_bytes(&mut out, body.as_slice());
            proof {
                assert(out@.skip(1) =~= enc_block(*b));
            }
        },
        Broadcast::Command(c) => {
            out.push(2u8);
            let body = encode_command(c);
            append_bytes(&mut out, body.as_slice());
            proof {
                assert(out@.skip(1) =~= enc_command(command_view(*c)));
            }
        },
    }
    out
}

/// The frame a whole connection carried, if it parses exactly.  A decoded
/// transaction or block carries only acceptably formed payloads.
pub fn decode_broadcast(b: &[u8]) -> (r: Option<Broadcast>)
    ensures
        match r {
            Some(Broadcast::Transaction(t)) => b@.len() >= 1 && b@[0] == 0u8
                && spec_decode_transaction(b@.skip(1)) == Some(tx_view(t)) && t.wf(),
            Some(Broadcast::Block(blk)) => b@.len() >= 1 && b@[0] == 1u8 && spec_decode_block(
                b@.skip(1),
            ) == Some(block_view(blk)) && (forall|t: int|
                0 <= t < blk.tsxs@.len() ==> (#[trigger] blk.tsxs@[t]).wf()),
            Some(Broadcast::Command(c)) => b@.len() >= 1 && b@[0] == 2u8 && spec_decode_command(
                b@.skip(1),
            ) == Some(command_view(c)),
            None => b@.len() < 1 || ((b@[0] == 0u8 ==> spec_decode_transaction(b@.skip(1)) is None)
                && (b@[0] == 1u8 ==> spec_decode_block(b@.skip(1)) is None) && (b@[0] == 2u8
                ==> spec_decode_command(b@.skip(1)) is None)),
        },
{
    if b.len() < 1 {
        return None;
    }
    let body = vstd::slice::slice_subrange(b, 1, b.len());
    proof {
        assert(body@ =~= b@.skip(1));
    }
    if b[0] == 0u8 {
        match decode_transaction(body) {
            Some(t) => Some(Broadcast::Transaction(t)),
            None => None,
        }
    } else if b[0] == 1u8 {
        match decode_block(body) {
            Some(blk) => Some(Broadcast::Block(blk)),
            None => None,
        }
    } else if b[0] == 2u8 {
        match decode_command(body) {
            Some(c) => Some(Broadcast::Command(c)),
            None => None,
        }
    } else {
        None
    }
}

// ---- round-trip lemmas ----

proof fn lemma_dec_uint_enc(b: Seq<u8>, i: int, n: nat, x: int)
    requires
        0 <= i,
        0 <= x < pow256(n),
        i + n <= b.len(),
        b.subrange(i, i + n) == be_bytes(x, n),
    ensures
        dec_uint(b, i, n as int) == Some((x, i + n)),
{
    lemma_be_round(x, n);
}

proof fn lemma_dec_bytes_enc(b: Seq<u8>, i: int, s: Seq<u8>)
    requires
        0 <= i,
        s.len() < pow256(8),
        i + 8 + s.len() <= b.len(),
        b.subrange(i, i + 8 + s.len()) == enc_bytes(s),
    ensures
        dec_bytes(b, i) == Some((s, i + 8 + s.len())),
{
    lemma_be_bytes_len(s.len() as int, 8);
    assert(b.subrange(i, i + 8) =~= b.subrange(i, i + 8 + s.len()).subrange(0, 8));
    assert(b.subrange(i, i + 8) =~= be_bytes(s.len() as int, 8));
    lemma_dec_uint_enc(b, i, 8, s.len() as int);
    assert(b.subrange(i + 8, i + 8 + s.len()) =~= b.subrange(i, i + 8 + s.len()).subrange(
        8,
        8 + s.len() as int,
    ));
    assert(b.subrange(i + 8, i + 8 + s.len()) =~= s);
}

proof fn lemma_dec_opt_enc(b: Seq<u8>, i: int, o: Option<Seq<u8>>)
    requires
        0 <= i,
        (o matches Some(s) ==> s.len() < pow256(8)),
        i + enc_opt(o).len() <= b.len(),
        b.subrange(i, i + enc_opt(o).len()) == enc_opt(o),
    ensures
        dec_opt(b, i) == Some((o, i + enc_opt(o).len())),
{
    match o {
        None => {
            assert(b[i] == enc_opt(o)[0]);
        },
        Some(s) => {
            lemma_be_bytes_len(s.len() as int, 8);
            assert(b[i] == enc_opt(o)[0]);
            assert(b[i] == 1u8);
            assert(b.subrange(i + 1, i + 1 + 8 + s.len()) =~= b.subrange(
                i,
                i + enc_opt(o).len(),
            ).subrange(1, 1 + 8 + s.len() as int));
            assert(b.subrange(i + 1, i + 1 + 8 + s.len()) =~= enc_bytes(s));
            lemma_dec_bytes_enc(b, i + 1, s);
        },
    }
}

proof fn lemma_dec_payload_enc(b: Seq<u8>, i: int, p: PayloadView)
    requires
        0 <= i,
        (p matches PayloadView::Message(m) ==> m.len() < pow256(8)),
        i + enc_payload(p).len() <= b.len(),
        b.subrange(i, i + enc_payload(p).len()) == enc_payload(p),
    ensures
        dec_payload(b, i) == Some((p, i + enc_payload(p).len())),
{
    match p {
        PayloadView::Transfer(a) => {
            lemma_be_bytes_len(a as int, 4);
            assert(b[i] == enc_payload(p)[0]);
            assert(b.subrange(i + 1, i + 5) =~= b.subrange(i, i + enc_payload(p).len()).subrange(
                1,
                5,
            ));
            assert(b.subrange(i + 1, i + 5) =~= be_bytes(a as int, 4));
            reveal_with_fuel(pow256, 5);
            assert(pow256(4) == 0x100000000);
            lemma_dec_uint_enc(b, i + 1, 4, a as int);
        },
        PayloadView::Stake(a) => {
            lemma_be_bytes_len(a as int, 4);
            assert(b[i] == enc_payload(p)[0]);
            assert(b[i] == 2u8);
            assert(b.subrange(i + 1, i + 5) =~= b.subrange(i, i + enc_payload(p).len()).subrange(
                1,
                5,
            ));
            assert(b.subrange(i + 1, i + 5) =~= be_bytes(a as int, 4));
            reveal_with_fuel(pow256, 5);
            assert(pow256(4) == 0x100000000);
            lemma_dec_uint_enc(b, i + 1, 4, a as int);
        },
        PayloadView::Message(m) => {
            lemma_be_bytes_len(m.len() as int, 8);
            assert(b[i] == enc_payload(p)[0]);
            assert(b[i] == 1u8);
            assert(b.subrange(i + 1, i + 1 + 8 + m.len()) =~= b.subrange(
                i,
                i + enc_payload(p).len(),
            ).subrange(1, 1 + 8 + m.len() as int));
            assert(b.subrange(i + 1, i + 1 + 8 + m.len()) =~= enc_bytes(m));
            lemma_dec_bytes_enc(b, i + 1, m);
        },
    }
}

/// Two transactions that agree on the wire agree on their hash input, so
/// a round-tripped transaction still hashes to its stored hash.
pub proof fn lemma_view_fixes_hash(t1: Transaction, t2: Transaction)
    requires
        tx_view(t1) == tx_view(t2),
    ensures
        spec_hash_input(t1) == spec_hash_input(t2),
        t1.hash_ok() ==> t2.hash_ok(),
{
    assert(spec_hash_input(t1) =~= spec_hash_input(t2));
}

/// Decoding inverts encoding: a well-formed transaction written to the
/// wire is read back exactly.
#[verifier::rlimit(100)]
pub proof fn lemma_transaction_round_trip(v: TxView)
    ensures
        view_wf(v) ==> spec_decode_transaction(enc_tx(v)) == Some(v),
{
    if !view_wf(v) {
        return;
    }
    reveal_with_fuel(pow256, 9);
    assert(pow256(8) == 0x10000000000000000);
    let b = enc_tx(v);
    let p0 = enc_payload(v.payload);
    let p1 = enc_opt(v.sndr);
    let p2 = enc_opt(v.recp);
    let p3 = be_bytes(v.nonce as int, 8);
    let p4 = v.hash;
    let p5 = enc_opt(v.sig);
    lemma_be_bytes_len(v.nonce as int, 8);
    let i1 = p0.len() as int;
    let i2 = i1 + p1.len();
    let i3 = i2 + p2.len();
    let i4 = i3 + 8;
    let i5 = i4 + 32;
    let i6 = i5 + p5.len();
    assert(b.len() == i6);

    assert(b.subrange(0, i1) =~= p0);
    lemma_dec_payload_enc(b, 0, v.payload);

    assert(b.subrange(i1, i2) =~= p1);
    lemma_dec_opt_enc(b, i1, v.sndr);

    assert(b.subrange(i2, i3) =~= p2);
    lemma_dec_opt_enc(b, i2, v.recp);

    assert(b.subrange(i3, i4) =~= p3);
    reveal_with_fuel(pow256, 9);
    assert(pow256(8) == 0x10000000000000000);
    lemma_dec_uint_enc(b, i3, 8, v.nonce as int);

    assert(b.subrange(i4, i5) =~= p4);

    assert(b.subrange(i5, i6) =~= p5);
    lemma_dec_opt_enc(b, i5, v.sig);
}

} // verus!
