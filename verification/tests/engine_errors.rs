use block_chat::block::Block;
use block_chat::block_validator::{
    ValidateSemanticsError as BlockSemErr, ValidateStructureError as BlockStructErr,
};
use block_chat::blockchain::Blockchain;
use block_chat::cli::Command;
use block_chat::codec::{decode_broadcast, decode_command, encode_broadcast, encode_command};
use block_chat::crypto::PrivateKey;
use block_chat::peer::PeersCatalog;
use block_chat::protocol::{
    Broadcast, CommandError, HandleBlockError, HandleTransactionError, Protocol, StartError,
};
use block_chat::transaction::Transaction;
use rand::SeedableRng;

const INIT_CENTS: u32 = 100_000;

fn make_key(seed: u64) -> PrivateKey {
    let mut rng = rand_chacha::ChaCha12Rng::seed_from_u64(seed);
    let k = rsa::RsaPrivateKey::new(&mut rng, 512).unwrap();
    let der = rsa::pkcs1::EncodeRsaPrivateKey::to_pkcs1_der(&k)
        .unwrap()
        .as_bytes()
        .to_vec();
    PrivateKey::from_der(der)
}

fn network(n: u64) -> (Vec<PrivateKey>, PeersCatalog, Blockchain) {
    let privs: Vec<PrivateKey> = (0..n).map(make_key).collect();
    let mut peers = PeersCatalog::new();
    for p in &privs {
        peers.insert(p.to_publ_key()).unwrap();
    }
    let gen_txs: Vec<Transaction> = privs
        .iter()
        .map(|p| Transaction::new_genesis(p.to_publ_key(), INIT_CENTS))
        .collect();
    let genesis = Block::new_genesis(gen_txs);
    (privs, peers, Blockchain::new(genesis))
}

fn start_node(privs: &[PrivateKey], peers: &PeersCatalog, chain: &Blockchain, i: usize) -> Protocol {
    let mut node = Protocol::new(privs[i].clone());
    node.start(peers.clone(), chain.clone()).unwrap();
    node
}

#[test]
fn command_rejections() {
    let (privs, peers, chain) = network(3);
    let mut node0 = start_node(&privs, &peers, &chain, 0);

    assert!(matches!(node0.command_transfer(0, 10), Err(CommandError::SelfSend)));
    assert!(matches!(
        node0.command_transfer(7, 10),
        Err(CommandError::UnknownRecipient)
    ));
    // 1000 coins held; 1000 coins plus the 3% fee is more than that
    assert!(matches!(
        node0.command_transfer(1, 1000),
        Err(CommandError::InsufficientCoins)
    ));
    assert!(matches!(
        node0.command_message(0, b"hi".to_vec()),
        Err(CommandError::SelfSend)
    ));
    assert!(matches!(
        node0.command_stake(2000),
        Err(CommandError::InsufficientCoins)
    ));
    // nothing was admitted
    assert!(node0.state.as_ref().unwrap().pending_transactions.is_empty());
}

#[test]
fn start_rejections() {
    let (privs, peers, chain) = network(3);

    // a node whose key is not on the roster cannot start
    let outsider = make_key(50);
    let mut node = Protocol::new(outsider);
    assert!(matches!(
        node.start(peers.clone(), chain.clone()),
        Err(StartError::UnknownSelfKey)
    ));
    assert!(node.state.is_none());

    // a genesis grant to a key outside the roster is refused
    let stranger = make_key(51);
    let mut bad_txs: Vec<Transaction> = privs
        .iter()
        .map(|p| Transaction::new_genesis(p.to_publ_key(), INIT_CENTS))
        .collect();
    bad_txs.push(Transaction::new_genesis(stranger.to_publ_key(), 5));
    let bad_chain = Blockchain::new(Block::new_genesis(bad_txs));
    let mut node0 = Protocol::new(privs[0].clone());
    assert!(matches!(
        node0.start(peers.clone(), bad_chain),
        Err(StartError::InvalidGenesis)
    ));
    assert!(node0.state.is_none());
}

#[test]
fn network_transaction_structure_rejection() {
    let (privs, peers, chain) = network(3);
    let mut node0 = start_node(&privs, &peers, &chain, 0);

    let mut tampered =
        Transaction::new_transfer(privs[1].to_publ_key(), privs[2].to_publ_key(), 1000, 0, &privs[1]);
    tampered.hash[0] ^= 1;
    assert!(matches!(
        node0.handle_transaction(tampered, false),
        Err(HandleTransactionError::Structure(_))
    ));
    assert!(node0.state.as_ref().unwrap().pending_transactions.is_empty());
}

#[test]
fn block_rejections_through_engine() {
    let (privs, peers, chain) = network(3);
    let mut node0 = start_node(&privs, &peers, &chain, 0);

    // too many transactions
    let txs: Vec<Transaction> = (0..6u64)
        .map(|n| Transaction::new_transfer(privs[0].to_publ_key(), privs[1].to_publ_key(), 100, n, &privs[0]))
        .collect();
    let fat = Block::new_genesis(txs.clone());
    match node0.handle_block(fat) {
        Err(HandleBlockError::Structure(BlockStructErr::OverfilledBlock(1))) => {},
        other => panic!("expected an overfilled-block rejection, got {:?}", other),
    }

    // one structurally bad transaction inside an otherwise full block
    let mut five = txs[..5].to_vec();
    five[2].sig = None;
    let prev = chain.last_block().hash;
    let holed = Block::new(five, privs[2].to_publ_key(), prev);
    match node0.handle_block(holed) {
        Err(HandleBlockError::Structure(BlockStructErr::InvalidTransaction { index: 2, .. })) => {},
        other => panic!("expected the faulty index, got {:?}", other),
    }

    // a validator key outside the roster
    let outsider = make_key(60);
    let good_five: Vec<Transaction> = txs[..5].to_vec();
    let alien = Block::new(good_five, outsider.to_publ_key(), prev);
    match node0.handle_block(alien) {
        Err(HandleBlockError::Semantics(BlockSemErr::NonExistentValidator)) => {},
        other => panic!("expected an unknown-validator rejection, got {:?}", other),
    }

    // a semantically bad transaction: index preserved
    let rich: Vec<Transaction> = (0..5u64)
        .map(|n| {
            let amt = if n == 3 { 99_000 } else { 100 };
            Transaction::new_transfer(privs[0].to_publ_key(), privs[1].to_publ_key(), amt, n, &privs[0])
        })
        .collect();
    // find the predicted validator so only the transaction can fail
    let pred = node0.proof_of_stake();
    let blk = Block::new(rich, privs[pred as usize].to_publ_key(), prev);
    match node0.handle_block(blk) {
        Err(HandleBlockError::Semantics(BlockSemErr::InvalidTransaction { index: 3, .. })) => {},
        other => panic!("expected the faulty index, got {:?}", other),
    }

    // nothing above changed the ledger or the chain
    let st = node0.state.as_ref().unwrap();
    assert_eq!(st.blockchain.len(), 1);
    assert_eq!(st.hard_accounts.get_by_id(0).unwrap().held_cents(), INIT_CENTS);
}

#[test]
fn command_codec_round_trip() {
    let cases = vec![
        Command::T { rcp_id: 2, amt: 17 },
        Command::M { rcp_id: 1, msg: vec![b"hello".to_vec(), b"world".to_vec()] },
        Command::S { amt: 5 },
        Command::V,
        Command::B,
        Command::H,
        Command::Id,
        Command::Time,
        Command::Stats,
    ];
    for c in cases {
        let bytes = encode_command(&c);
        let back = decode_command(bytes.as_slice()).expect("command frame must parse");
        match (&c, &back) {
            (Command::T { rcp_id: a1, amt: b1 }, Command::T { rcp_id: a2, amt: b2 }) => {
                assert_eq!((a1, b1), (a2, b2))
            },
            (Command::M { rcp_id: a1, msg: m1 }, Command::M { rcp_id: a2, msg: m2 }) => {
                assert_eq!(a1, a2);
                assert_eq!(m1, m2);
            },
            (Command::S { amt: a1 }, Command::S { amt: a2 }) => assert_eq!(a1, a2),
            (Command::V, Command::V)
            | (Command::B, Command::B)
            | (Command::H, Command::H)
            | (Command::Id, Command::Id)
            | (Command::Time, Command::Time)
            | (Command::Stats, Command::Stats) => {},
            other => panic!("command changed in the round trip: {:?}", other),
        }
        // and through a whole frame
        let frame = encode_broadcast(&Broadcast::Command(back));
        assert!(matches!(
            decode_broadcast(frame.as_slice()),
            Some(Broadcast::Command(_))
        ));
    }
    // garbage does not parse
    assert!(decode_command(&[42u8, 1, 2]).is_none());
    assert!(decode_broadcast(&[]).is_none());
}

#[test]
fn codec_rejects_non_utf8_messages() {
    let (privs, _, _) = network(2);
    // priced fine, but not text: the wire refuses it
    let raw = Transaction::new_message(
        privs[0].to_publ_key(),
        privs[1].to_publ_key(),
        vec![0xff, 0xfe],
        0,
        &privs[0],
    );
    let bytes = block_chat::codec::encode_transaction(&raw);
    assert!(block_chat::codec::decode_transaction(bytes.as_slice()).is_none());
    // the same frame with a text message parses
    let text = Transaction::new_message(
        privs[0].to_publ_key(),
        privs[1].to_publ_key(),
        b"hi".to_vec(),
        0,
        &privs[0],
    );
    let bytes = block_chat::codec::encode_transaction(&text);
    assert!(block_chat::codec::decode_transaction(bytes.as_slice()).is_some());
}
