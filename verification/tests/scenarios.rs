use block_chat::block::Block;
use block_chat::blockchain::Blockchain;
use block_chat::codec::{decode_broadcast, encode_broadcast};
use block_chat::crypto::PrivateKey;
use block_chat::peer::PeersCatalog;
use block_chat::protocol::{Broadcast, HandleTransactionError, Protocol};
use block_chat::transaction::Transaction;
use block_chat::transaction_validator::ValidateSemanticsError;
use rand::SeedableRng;

const INIT_CENTS: u32 = 100_000;

fn make_key(seed: u64) -> PrivateKey {
    let mut rng = rand_chacha::ChaCha12Rng::seed_from_u64(seed);
    let k = rsa::RsaPrivateKey::new(&mut rng, 512).unwrap();
    let der = rsa::pkcs1::EncodeRsaPrivateKey::to_pkcs1_der(&k)
        .unwrap()
        .as_bytes()
        .to_vec();
    PrivateKey::from_der(der)
}

fn network(n: u64) -> (Vec<PrivateKey>, PeersCatalog, Blockchain) {
    let privs: Vec<PrivateKey> = (0..n).map(make_key).collect();
    let mut peers = PeersCatalog::new();
    for p in &privs {
        peers.insert(p.to_publ_key()).unwrap();
    }
    let gen_txs: Vec<Transaction> = privs
        .iter()
        .map(|p| Transaction::new_genesis(p.to_publ_key(), INIT_CENTS))
        .collect();
    let genesis = Block::new_genesis(gen_txs);
    (privs, peers, Blockchain::new(genesis))
}

fn start_node(privs: &[PrivateKey], peers: &PeersCatalog, chain: &Blockchain, i: usize) -> Protocol {
    let mut node = Protocol::new(privs[i].clone());
    node.start(peers.clone(), chain.clone()).unwrap();
    node
}

fn held(node: &Protocol, soft: bool, id: u32) -> u32 {
    let st = node.state.as_ref().unwrap();
    let cat = if soft { &st.soft_accounts } else { &st.hard_accounts };
    cat.get_by_id(id).unwrap().held_cents()
}

fn staked(node: &Protocol, soft: bool, id: u32) -> u32 {
    let st = node.state.as_ref().unwrap();
    let cat = if soft { &st.soft_accounts } else { &st.hard_accounts };
    cat.get_by_id(id).unwrap().staked_cents()
}

#[test]
fn genesis_state() {
    let (privs, peers, chain) = network(3);
    let node0 = start_node(&privs, &peers, &chain, 0);
    let st = node0.state.as_ref().unwrap();
    assert_eq!(st.blockchain.len(), 1);
    for i in 0..3u32 {
        let a = st.hard_accounts.get_by_id(i).unwrap();
        assert_eq!(a.held_cents(), INIT_CENTS);
        assert_eq!(a.staked_cents(), 0);
        assert_eq!(a.nonce_pool().next(), 0);
        let s = st.soft_accounts.get_by_id(i).unwrap();
        assert_eq!(s.held_cents(), INIT_CENTS);
        assert_eq!(s.staked_cents(), 0);
    }
}

#[test]
fn simple_transfer() {
    let (privs, peers, chain) = network(3);
    let mut node0 = start_node(&privs, &peers, &chain, 0);
    node0.command_transfer(1, 10).unwrap();
    // total cost: 1000 cents + max(1000 * 3 / 100, 1) = 1030
    assert_eq!(held(&node0, true, 0), INIT_CENTS - 1030);
    assert_eq!(held(&node0, true, 1), INIT_CENTS + 1000);
    let st = node0.state.as_ref().unwrap();
    assert_eq!(st.pending_transactions.len(), 1);
    assert_eq!(
        st.soft_accounts.get_by_id(0).unwrap().nonce_pool().next(),
        1
    );
    // the committed ledger is untouched until a block arrives
    assert_eq!(held(&node0, false, 0), INIT_CENTS);
}

#[test]
fn message_hi() {
    let (privs, peers, chain) = network(3);
    let mut node0 = start_node(&privs, &peers, &chain, 0);
    node0.command_message(1, b"hi".to_vec()).unwrap();
    // fee: 2 * 100 = 200; total cost: 2 + 200 = 202
    assert_eq!(held(&node0, true, 0), INIT_CENTS - 202);
    assert_eq!(held(&node0, true, 1), INIT_CENTS + 2);
}

#[test]
fn stake_five_coins() {
    let (privs, peers, chain) = network(3);
    let mut node0 = start_node(&privs, &peers, &chain, 0);
    node0.command_stake(5).unwrap();
    // total cost 500, no fee
    assert_eq!(held(&node0, true, 0), INIT_CENTS - 500);
    assert_eq!(staked(&node0, true, 0), 500);
}

#[test]
fn replayed_nonce_is_rejected() {
    let (privs, peers, chain) = network(3);
    let mut node0 = start_node(&privs, &peers, &chain, 0);
    node0.command_transfer(1, 10).unwrap();
    let held0 = held(&node0, true, 0);
    let held1 = held(&node0, true, 1);

    // peer 0 re-sends a transaction with the already used nonce 0
    let replay = Transaction::new_transfer(
        privs[0].to_publ_key(),
        privs[1].to_publ_key(),
        1000,
        0,
        &privs[0],
    );
    let r = node0.handle_transaction(replay, false);
    match r {
        Err(HandleTransactionError::Semantics(ValidateSemanticsError::RepeatedNonce {
            value,
        })) => assert_eq!(value, 0),
        other => panic!("expected a repeated-nonce rejection, got {:?}", other),
    }
    // dropped with no state change
    assert_eq!(held(&node0, true, 0), held0);
    assert_eq!(held(&node0, true, 1), held1);
    assert_eq!(node0.state.as_ref().unwrap().pending_transactions.len(), 1);
}

#[test]
fn mint_after_five_transactions() {
    let (privs, peers, chain) = network(3);

    // find the predicted validator; with no stakes the prediction is the
    // same on every node
    let mut probe = start_node(&privs, &peers, &chain, 0);
    let winner = probe.proof_of_stake() as usize;
    let mut node1 = start_node(&privs, &peers, &chain, 1);
    assert_eq!(probe.proof_of_stake(), node1.proof_of_stake());

    // drive the winning node: five valid transfers accumulate
    let mut minter = start_node(&privs, &peers, &chain, winner);
    let rcp = ((winner + 1) % 3) as u32;
    for _ in 0..5 {
        minter.command_transfer(rcp, 10).unwrap();
    }
    let st = minter.state.as_ref().unwrap();
    assert_eq!(st.pending_transactions.len(), 5);
    let money_before: u64 = (0..3u32)
        .map(|i| {
            let a = st.hard_accounts.get_by_id(i).unwrap();
            a.held_cents() as u64 + a.staked_cents() as u64
        })
        .sum();
    let pending_hashes: Vec<[u8; 32]> = st
        .pending_transactions
        .iter()
        .map(|t| t.hash)
        .collect();

    let minted = minter.try_mint_block().unwrap();
    assert!(minted);

    let st = minter.state.as_ref().unwrap();
    assert_eq!(st.blockchain.len(), 2);
    assert!(st.pending_transactions.is_empty());
    let blk = st.blockchain.last_block();
    assert_eq!(blk.index(), 1);
    assert_eq!(blk.tsxs().len(), 5);
    for (i, t) in blk.tsxs().iter().enumerate() {
        assert_eq!(t.hash, pending_hashes[i]);
    }

    // hard and soft agree after the mint
    for i in 0..3u32 {
        assert_eq!(held(&minter, true, i), held(&minter, false, i));
        assert_eq!(staked(&minter, true, i), staked(&minter, false, i));
    }
    // ledger conservation: fees return to the validator, so the total is
    // unchanged
    let money_after: u64 = (0..3u32)
        .map(|i| {
            let a = st.hard_accounts.get_by_id(i).unwrap();
            a.held_cents() as u64 + a.staked_cents() as u64
        })
        .sum();
    assert_eq!(money_before, money_after);
    // the winner paid five costs and earned back five fees
    assert_eq!(
        held(&minter, false, winner as u32),
        INIT_CENTS - 5 * 1030 + 5 * 30
    );
    assert_eq!(held(&minter, false, rcp), INIT_CENTS + 5 * 1000);

    // another node accepts the block from the wire and converges
    let frame = encode_broadcast(&Broadcast::Block(blk.clone()));
    let decoded = decode_broadcast(frame.as_slice()).unwrap();
    match decoded {
        Broadcast::Block(b) => {
            let mut other = start_node(&privs, &peers, &chain, (winner + 2) % 3);
            other.handle_block(b).unwrap();
            for i in 0..3u32 {
                assert_eq!(held(&other, false, i), held(&minter, false, i));
                assert_eq!(staked(&other, false, i), staked(&minter, false, i));
            }
            assert_eq!(other.state.as_ref().unwrap().blockchain.len(), 2);
        },
        other => panic!("expected a block frame, got {:?}", other),
    }
}
