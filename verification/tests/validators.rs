use block_chat::account::Account;
use block_chat::accounts_catalog::AccountsCatalog;
use block_chat::block::Block;
use block_chat::block_validator::BlockValidator;
use block_chat::blockchain::Blockchain;
use block_chat::codec::{decode_transaction, encode_transaction};
use block_chat::crypto::PrivateKey;
use block_chat::peer::PeersCatalog;
use block_chat::protocol::elect_validator;
use block_chat::transaction::{Transaction, TransactionPayload};
use block_chat::transaction_validator::{
    TransactionValidator, ValidateSemanticsError, ValidateStructureError,
};
use rand::{RngCore, SeedableRng};

const INIT_CENTS: u32 = 100_000;

fn make_key(seed: u64) -> PrivateKey {
    let mut rng = rand_chacha::ChaCha12Rng::seed_from_u64(seed);
    let k = rsa::RsaPrivateKey::new(&mut rng, 512).unwrap();
    let der = rsa::pkcs1::EncodeRsaPrivateKey::to_pkcs1_der(&k)
        .unwrap()
        .as_bytes()
        .to_vec();
    PrivateKey::from_der(der)
}

fn roster(n: u64) -> (Vec<PrivateKey>, PeersCatalog, AccountsCatalog) {
    let privs: Vec<PrivateKey> = (0..n).map(make_key).collect();
    let mut peers = PeersCatalog::new();
    for p in &privs {
        peers.insert(p.to_publ_key()).unwrap();
    }
    let mut accounts = AccountsCatalog::new(&peers);
    for p in &privs {
        let grant = Transaction::new_genesis(p.to_publ_key(), INIT_CENTS);
        accounts.process_transaction(&peers, &grant).unwrap();
    }
    (privs, peers, accounts)
}

#[test]
fn structure_errors_in_order() {
    let (privs, _, _) = roster(2);
    let k0 = || privs[0].to_publ_key();
    let k1 = || privs[1].to_publ_key();

    // a genesis grant has no sender
    let genesis = Transaction::new_genesis(k0(), 10);
    assert!(matches!(
        TransactionValidator::validate_structure(&genesis),
        Err(ValidateStructureError::MissingSenderAddr)
    ));

    let good = Transaction::new_transfer(k0(), k1(), 1000, 0, &privs[0]);
    assert!(TransactionValidator::validate_structure(&good).is_ok());

    let mut no_recp = good.clone();
    no_recp.recp_addr = None;
    assert!(matches!(
        TransactionValidator::validate_structure(&no_recp),
        Err(ValidateStructureError::MissingRecipientAddr)
    ));

    let mut no_sig = good.clone();
    no_sig.sig = None;
    assert!(matches!(
        TransactionValidator::validate_structure(&no_sig),
        Err(ValidateStructureError::MissingSignature)
    ));

    let stake = Transaction::new_stake(k0(), 500, 0, &privs[0]);
    assert!(TransactionValidator::validate_structure(&stake).is_ok());
    let mut stake_with_recp = stake.clone();
    stake_with_recp.recp_addr = Some(k1());
    assert!(matches!(
        TransactionValidator::validate_structure(&stake_with_recp),
        Err(ValidateStructureError::UnexpectedRecipientAddr)
    ));

    let self_send = Transaction::new_transfer(k0(), k0(), 1000, 0, &privs[0]);
    assert!(matches!(
        TransactionValidator::validate_structure(&self_send),
        Err(ValidateStructureError::IdenticalSenderRecipientAddrs)
    ));

    let mut bad_hash = good.clone();
    bad_hash.hash[0] ^= 1;
    assert!(matches!(
        TransactionValidator::validate_structure(&bad_hash),
        Err(ValidateStructureError::InvalidHash)
    ));

    // signed by the wrong key: hash still matches, signature does not
    let forged = Transaction::new_transfer(k0(), k1(), 1000, 0, &privs[1]);
    assert!(matches!(
        TransactionValidator::validate_structure(&forged),
        Err(ValidateStructureError::InvalidSignature)
    ));
}

#[test]
fn semantic_errors() {
    let (privs, peers, accounts) = roster(2);
    let outsider = make_key(99);

    let unknown_sender =
        Transaction::new_transfer(outsider.to_publ_key(), privs[1].to_publ_key(), 1000, 0, &outsider);
    assert!(matches!(
        TransactionValidator::validate_semantics(&unknown_sender, &peers, &accounts),
        Err(ValidateSemanticsError::NonExistentSender)
    ));

    let unknown_recipient =
        Transaction::new_transfer(privs[0].to_publ_key(), outsider.to_publ_key(), 1000, 0, &privs[0]);
    assert!(matches!(
        TransactionValidator::validate_semantics(&unknown_recipient, &peers, &accounts),
        Err(ValidateSemanticsError::NonExistentRecipient)
    ));

    let too_big =
        Transaction::new_transfer(privs[0].to_publ_key(), privs[1].to_publ_key(), 200_000, 0, &privs[0]);
    match TransactionValidator::validate_semantics(&too_big, &peers, &accounts) {
        Err(ValidateSemanticsError::InsufficientFunds { required, actual }) => {
            assert_eq!(required, 200_000 + 6_000);
            assert_eq!(actual, INIT_CENTS);
        },
        other => panic!("expected insufficient funds, got {:?}", other),
    }

    let fine =
        Transaction::new_transfer(privs[0].to_publ_key(), privs[1].to_publ_key(), 1000, 0, &privs[0]);
    assert!(TransactionValidator::validate_semantics(&fine, &peers, &accounts).is_ok());
}

#[test]
fn fees_and_costs() {
    assert_eq!(Transaction::calculate_transfer_fees(1000), 30);
    assert_eq!(Transaction::calculate_transfer_fees(10), 1);
    assert_eq!(Transaction::calculate_transfer_total_cost(1000), 1030);
    assert_eq!(Transaction::calculate_message_fees(&b"hi".to_vec()), 200);
    assert_eq!(Transaction::calculate_message_total_cost(&b"hi".to_vec()), 202);
    assert_eq!(Transaction::calculcate_stake_fees(500), 0);
    assert_eq!(Transaction::calculate_stake_total_cost(500), 500);
}

#[test]
fn hash_matches_direct_sha256() {
    let (privs, _, _) = roster(1);
    let t = Transaction::new_genesis(privs[0].to_publ_key(), 7);
    // recompute the hash by hand: amount, recipient key DER, nonce
    let mut input: Vec<u8> = Vec::new();
    input.extend_from_slice(&7u32.to_be_bytes());
    input.extend_from_slice(&privs[0].to_publ_key().to_der());
    input.extend_from_slice(&0u64.to_be_bytes());
    let expected: [u8; 32] = <rsa::sha2::Sha256 as rsa::sha2::Digest>::digest(&input).into();
    assert_eq!(t.hash, expected);
    assert_eq!(t.calculate_hash(), expected);
}

#[test]
fn hash_is_content_determined() {
    let (privs, _, _) = roster(2);
    let a = Transaction::new_transfer(privs[0].to_publ_key(), privs[1].to_publ_key(), 42, 3, &privs[0]);
    let b = Transaction::new_transfer(privs[0].to_publ_key(), privs[1].to_publ_key(), 42, 3, &privs[1]);
    // same content, different construction (and signer): identical hash
    assert_eq!(a.hash, b.hash);
    let c = Transaction::new_transfer(privs[0].to_publ_key(), privs[1].to_publ_key(), 42, 4, &privs[0]);
    assert_ne!(a.hash, c.hash);
}

#[test]
fn public_key_derivation_matches_rsa() {
    let priv_key = make_key(7);
    let rk = <rsa::RsaPrivateKey as rsa::pkcs1::DecodeRsaPrivateKey>::from_pkcs1_der(
        priv_key.to_der().as_slice(),
    )
    .unwrap();
    let expected = rsa::pkcs1::EncodeRsaPublicKey::to_pkcs1_der(&rk.to_public_key())
        .unwrap()
        .as_bytes()
        .to_vec();
    assert_eq!(priv_key.to_publ_key().to_der(), expected);
}

#[test]
fn transaction_codec_round_trip() {
    let (privs, _, _) = roster(2);
    let t = Transaction::new_message(
        privs[0].to_publ_key(),
        privs[1].to_publ_key(),
        b"hello there".to_vec(),
        9,
        &privs[0],
    );
    let bytes = encode_transaction(&t);
    let t2 = decode_transaction(bytes.as_slice()).expect("round trip must parse");
    match (&t.payload, &t2.payload) {
        (TransactionPayload::Message(m1), TransactionPayload::Message(m2)) => {
            assert_eq!(m1, m2)
        },
        other => panic!("payload changed in the round trip: {:?}", other),
    }
    assert_eq!(t.nonce, t2.nonce);
    assert_eq!(t.hash, t2.hash);
    assert_eq!(
        t.sndr_addr.as_ref().unwrap().der,
        t2.sndr_addr.as_ref().unwrap().der
    );
    assert_eq!(
        t.recp_addr.as_ref().unwrap().der,
        t2.recp_addr.as_ref().unwrap().der
    );
    assert_eq!(t.sig.as_ref().unwrap(), t2.sig.as_ref().unwrap());
    // the round-tripped record still hashes to its stored hash
    assert_eq!(t2.calculate_hash(), t2.hash);

    // a truncated frame does not parse
    assert!(decode_transaction(&bytes.as_slice()[..bytes.len() - 1]).is_none());
}

#[test]
fn uniform_election_when_unstaked() {
    let (_, _, accounts) = roster(3);
    // over distinct seeds, with no stake anywhere, the winner is always
    // the draw reduced modulo the number of peers
    for s in 0..16u8 {
        let mut seed = [0u8; 32];
        seed[0] = s;
        let mut rng = <rand_chacha::ChaCha12Rng as SeedableRng>::from_seed(seed);
        let expected = rng.next_u32() % 3;
        assert_eq!(elect_validator(&accounts, &seed), expected);
    }
}

#[test]
fn stake_weighted_election() {
    let (privs, peers, mut accounts) = roster(3);
    // peer 2 stakes everything it can; peers 0 and 1 stake nothing
    let stake = Transaction::new_stake(privs[2].to_publ_key(), INIT_CENTS, 0, &privs[2]);
    accounts.process_transaction(&peers, &stake).unwrap();
    for s in 0..8u8 {
        let mut seed = [0u8; 32];
        seed[7] = s;
        assert_eq!(elect_validator(&accounts, &seed), 2);
    }
}

#[test]
fn block_failure_leaves_accounts_unchanged() {
    let (privs, peers, mut accounts) = roster(3);
    let k = |i: usize| privs[i].to_publ_key();
    // five transfers, each fine alone against the pre-block ledger, but
    // jointly overdrawing peer 0
    let txs: Vec<Transaction> = (0..5u64)
        .map(|n| Transaction::new_transfer(k(0), k(1), 30_000, n, &privs[0]))
        .collect();
    let blk = Block::new(txs, k(2), [0; 32]);
    let before: Vec<(u32, u32)> = (0..3u32)
        .map(|i| {
            let a = accounts.get_by_id(i).unwrap();
            (a.held_cents(), a.staked_cents())
        })
        .collect();
    assert!(accounts.process_block(&peers, &blk).is_err());
    for i in 0..3u32 {
        let a = accounts.get_by_id(i).unwrap();
        assert_eq!((a.held_cents(), a.staked_cents()), before[i as usize]);
    }
}

#[test]
fn block_validator_errors() {
    let (privs, peers, accounts) = roster(3);
    let k = |i: usize| privs[i].to_publ_key();
    let chain = {
        let gen_txs: Vec<Transaction> =
            privs.iter().map(|p| Transaction::new_genesis(p.to_publ_key(), INIT_CENTS)).collect();
        Blockchain::new(Block::new_genesis(gen_txs))
    };

    let short = Block::new_genesis(vec![]);
    assert!(matches!(
        BlockValidator::validate_structure(&short),
        Err(block_chat::block_validator::ValidateStructureError::PartiallyFilledBlock(5))
    ));

    let txs: Vec<Transaction> = (0..5u64)
        .map(|n| Transaction::new_transfer(k(0), k(1), 100, n, &privs[0]))
        .collect();
    let prev = chain.last_block().hash;
    let good = Block::new(txs.clone(), k(2), prev);
    assert!(BlockValidator::validate_structure(&good).is_ok());

    let mut tampered = good.clone();
    tampered.hash[0] ^= 1;
    assert!(matches!(
        BlockValidator::validate_structure(&tampered),
        Err(block_chat::block_validator::ValidateStructureError::InvalidHash)
    ));

    let mut no_val = good.clone();
    no_val.val = None;
    assert!(matches!(
        BlockValidator::validate_structure(&no_val),
        Err(block_chat::block_validator::ValidateStructureError::MissingValidator)
    ));

    // semantic checks: validator id 2 predicted
    assert!(BlockValidator::validate_semantics(&good, 2, &peers, &accounts, &chain).is_ok());
    assert!(matches!(
        BlockValidator::validate_semantics(&good, 1, &peers, &accounts, &chain),
        Err(block_chat::block_validator::ValidateSemanticsError::MismatchedValidator {
            expected: 1,
            actual: 2,
        })
    ));

    let wrong_prev = Block::new(txs, k(2), [9; 32]);
    assert!(matches!(
        BlockValidator::validate_semantics(&wrong_prev, 2, &peers, &accounts, &chain),
        Err(block_chat::block_validator::ValidateSemanticsError::InvalidPreviousHash)
    ));
}

#[test]
fn account_arithmetic() {
    let mut a = Account {
        id: 0,
        nonce_pool: block_chat::account::NoncePool::new(),
        held_cents: 100,
        staked_cents: 0,
    };
    a.add_held(50);
    assert_eq!(a.held_cents(), 150);
    assert!(a.sub_held(151).is_err());
    assert_eq!(a.held_cents(), 150);
    assert!(a.sub_held(150).is_ok());
    assert_eq!(a.held_cents(), 0);
    a.add_staked(70);
    assert!(a.sub_staked(71).is_err());
    assert!(a.sub_staked(70).is_ok());
    assert_eq!(a.staked_cents(), 0);
}

#[test]
fn codec_rejects_unpriceable_amounts() {
    let (privs, _, _) = roster(2);
    let good = Transaction::new_transfer(privs[0].to_publ_key(), privs[1].to_publ_key(), 1000, 0, &privs[0]);
    // an amount whose fee arithmetic would overflow is refused at the wire
    let mut huge = good.clone();
    huge.payload = TransactionPayload::Transfer(u32::MAX);
    let bytes = encode_transaction(&huge);
    assert!(decode_transaction(bytes.as_slice()).is_none());
    // a zero amount is refused as well
    let mut zero = good.clone();
    zero.payload = TransactionPayload::Transfer(0);
    let bytes = encode_transaction(&zero);
    assert!(decode_transaction(bytes.as_slice()).is_none());
}
