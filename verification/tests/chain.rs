//! A chain over a store in memory.

use std::cell::RefCell;
use std::collections::HashMap;
use std::rc::Rc;

use bitcoin::blockdata::constants::genesis_block;

use chainstate::accumulator::{Proof, Stump};
use chainstate::best_chain::BestChain;
use chainstate::chain_state::ChainState;
use chainstate::error::{BlockValidationErrors, BlockchainError, Fault, StoreError};
use chainstate::hash::{BlockHash, Hash256};
use chainstate::notification::Notification;
use chainstate::params::Network;
use chainstate::primitives::{Block, BlockHeader, OutPoint, Transaction, TxIn, TxOut};
use chainstate::store::{ChainStore, DiskBlockHeader};
use chainstate::utxo::UtxoMap;

#[derive(Default)]
struct Contents {
    roots: Option<Vec<u8>>,
    headers: HashMap<[u8; 32], DiskBlockHeader>,
    hashes: HashMap<u32, BlockHash>,
    best: Option<Vec<u8>>,
    log: Vec<&'static str>,
    failing: Option<&'static str>,
}

#[derive(Clone, Default)]
struct MemoryStore(Rc<RefCell<Contents>>);

impl MemoryStore {
    fn told(&self, what: &'static str) -> Result<(), StoreError> {
        let mut contents = self.0.borrow_mut();
        contents.log.push(what);
        if contents.failing == Some(what) {
            return Err(StoreError(String::from(what)));
        }
        Ok(())
    }

    fn asked(&self, what: &'static str) -> Result<(), StoreError> {
        if self.0.borrow().failing == Some(what) {
            return Err(StoreError(String::from(what)));
        }
        Ok(())
    }

    fn fail(&self, what: &'static str) {
        self.0.borrow_mut().failing = Some(what);
    }

    fn log(&self) -> Vec<&'static str> {
        self.0.borrow().log.clone()
    }

    fn put(&self, header: DiskBlockHeader, height: u32) {
        let mut contents = self.0.borrow_mut();
        let hash = hash_of(&header.header());
        contents.headers.insert(hash.0, header);
        contents.hashes.insert(height, hash);
    }
}

impl ChainStore for MemoryStore {
    fn save_roots(&self, roots: Vec<u8>) -> Result<(), StoreError> {
        self.told("save_roots")?;
        self.0.borrow_mut().roots = Some(roots);
        Ok(())
    }

    fn load_roots(&self) -> Result<Option<Vec<u8>>, StoreError> {
        self.asked("load_roots")?;
        Ok(self.0.borrow().roots.clone())
    }

    fn get_header(&self, block_hash: &BlockHash) -> Result<Option<DiskBlockHeader>, StoreError> {
        self.asked("get_header")?;
        Ok(self.0.borrow().headers.get(&block_hash.0).copied())
    }

    fn save_header(&self, header: &DiskBlockHeader, height: u32) -> Result<(), StoreError> {
        self.told("save_header")?;
        self.put(*header, height);
        Ok(())
    }

    fn get_block_hash(&self, height: u32) -> Result<Option<BlockHash>, StoreError> {
        self.asked("get_block_hash")?;
        Ok(self.0.borrow().hashes.get(&height).copied())
    }

    fn save_height(&self, height: &BestChain) -> Result<(), StoreError> {
        self.told("save_height")?;
        let mut bytes: Vec<u8> = Vec::new();
        height.consensus_encode(&mut bytes);
        self.0.borrow_mut().best = Some(bytes);
        Ok(())
    }

    fn load_height(&self) -> Result<Option<BestChain>, StoreError> {
        self.asked("load_height")?;
        let contents = self.0.borrow();
        match &contents.best {
            None => Ok(None),
            Some(bytes) => match BestChain::consensus_decode(bytes) {
                Ok((best, _)) => Ok(Some(best)),
                Err(error) => Err(StoreError(format!("{:?}", error))),
            },
        }
    }

    fn flush(&self) -> Result<(), StoreError> {
        self.told("flush")
    }
}

fn outside_header(header: &BlockHeader) -> bitcoin::BlockHeader {
    bitcoin::BlockHeader {
        version: header.version,
        prev_blockhash: bitcoin::hashes::Hash::from_inner(header.prev_blockhash.0),
        merkle_root: bitcoin::hashes::Hash::from_inner(header.merkle_root.0),
        time: header.time,
        bits: header.bits,
        nonce: header.nonce,
    }
}

fn hash_of(header: &BlockHeader) -> BlockHash {
    Hash256(bitcoin::hashes::Hash::into_inner(outside_header(header).block_hash()))
}

fn genesis(network: bitcoin::Network) -> BlockHeader {
    let header = genesis_block(network).header;
    BlockHeader {
        version: header.version,
        prev_blockhash: Hash256(bitcoin::hashes::Hash::into_inner(header.prev_blockhash)),
        merkle_root: Hash256(bitcoin::hashes::Hash::into_inner(header.merkle_root)),
        time: header.time,
        bits: header.bits,
        nonce: header.nonce,
    }
}

/// Finds a nonce with which the header has the least work that regtest asks for.
fn mine(mut header: BlockHeader) -> BlockHeader {
    while hash_of(&header).0[31] >= 0x7f {
        header.nonce += 1;
    }
    header
}

/// Finds a nonce with which the header has too little work for regtest.
fn spoil(mut header: BlockHeader) -> BlockHeader {
    while hash_of(&header).0[31] <= 0x7f {
        header.nonce += 1;
    }
    header
}

fn coinbase(mark: u8) -> Transaction {
    let nothing = OutPoint { txid: Hash256([0; 32]), vout: u32::MAX };
    Transaction {
        version: 1,
        lock_time: 0,
        input: vec![TxIn {
            previous_output: nothing,
            script_sig: vec![mark, mark],
            sequence: u32::MAX,
            witness: vec![],
        }],
        output: vec![TxOut { value: 50, script_pubkey: vec![0x51] }],
    }
}

fn txid(transaction: &Transaction) -> Hash256 {
    let outside = bitcoin::Transaction {
        version: transaction.version,
        lock_time: bitcoin::PackedLockTime(transaction.lock_time),
        input: transaction
            .input
            .iter()
            .map(|input| bitcoin::TxIn {
                previous_output: bitcoin::OutPoint {
                    txid: bitcoin::hashes::Hash::from_inner(input.previous_output.txid.0),
                    vout: input.previous_output.vout,
                },
                script_sig: bitcoin::Script::from(input.script_sig.clone()),
                sequence: bitcoin::Sequence(input.sequence),
                witness: bitcoin::Witness::from_vec(input.witness.clone()),
            })
            .collect(),
        output: transaction
            .output
            .iter()
            .map(|output| bitcoin::TxOut {
                value: output.value,
                script_pubkey: bitcoin::Script::from(output.script_pubkey.clone()),
            })
            .collect(),
    };
    Hash256(bitcoin::hashes::Hash::into_inner(outside.txid()))
}

fn merkle_root(transactions: &[Transaction]) -> Hash256 {
    let hashes = transactions.iter().map(|transaction| {
        let hash: bitcoin::hashes::sha256d::Hash =
            bitcoin::hashes::Hash::from_inner(txid(transaction).0);
        hash
    });
    match bitcoin::util::hash::bitcoin_merkle_root(hashes) {
        Some(root) => Hash256(bitcoin::hashes::Hash::into_inner(root)),
        None => Hash256([0; 32]),
    }
}

fn block_after(parent: &BlockHeader, txdata: Vec<Transaction>) -> Block {
    let header = mine(BlockHeader {
        version: 4,
        prev_blockhash: hash_of(parent),
        merkle_root: merkle_root(&txdata),
        time: parent.time + 600,
        bits: 0x207f_ffff,
        nonce: 0,
    });
    Block { header, txdata }
}

fn empty_proof() -> Proof {
    Proof { targets: vec![], hashes: vec![] }
}

fn regtest() -> (MemoryStore, ChainState<MemoryStore>, BlockHeader) {
    let store = MemoryStore::default();
    let chain = ChainState::new(store.clone(), Network::Regtest).unwrap();
    (store, chain, genesis(bitcoin::Network::Regtest))
}

fn best_chain(best: &BlockHeader, depth: u32, validated: &BlockHeader) -> BestChain {
    BestChain {
        best_block: hash_of(best),
        depth,
        validation_index: hash_of(validated),
        rescan_index: None,
        alternative_tips: vec![],
    }
}

#[test]
fn a_new_chain_starts_at_the_first_block() {
    for (network, outside) in [
        (Network::Bitcoin, bitcoin::Network::Bitcoin),
        (Network::Testnet, bitcoin::Network::Testnet),
        (Network::Signet, bitcoin::Network::Signet),
        (Network::Regtest, bitcoin::Network::Regtest),
    ] {
        let store = MemoryStore::default();
        let mut chain = ChainState::new(store.clone(), network).unwrap();
        let first = genesis_block(outside).block_hash();
        let first = Hash256(bitcoin::hashes::Hash::into_inner(first));
        assert_eq!(chain.get_best_block().unwrap(), (0, first));
        assert_eq!(chain.get_height().unwrap(), 0);
        assert_eq!(chain.get_validation_index().unwrap(), 0);
        assert_eq!(chain.get_block_hash(0).unwrap(), first);
        assert!(chain.is_in_idb());
        assert_eq!(chain.acc().leafs, 0);
        assert!(chain.acc().roots.is_empty());
        assert!(chain.get_unbroadcasted().is_empty());
        assert!(chain.take_notifications().is_empty());
        assert_eq!(store.log(), vec!["save_header"]);
        let header = chain.get_block_header(&first).unwrap();
        assert_eq!(header.nonce, genesis(outside).nonce);
        assert_eq!(hash_of(&header), first);
        match chain.get_disk_block_header(&first).unwrap() {
            DiskBlockHeader::FullyValid(_, height) => assert_eq!(height, 0),
            other => panic!("unexpected: {:?}", other),
        }
    }
}

#[test]
fn a_first_block_that_cannot_be_saved() {
    let store = MemoryStore::default();
    store.fail("save_header");
    let error = ChainState::new(store, Network::Regtest).err().unwrap();
    assert!(matches!(error, BlockchainError::Fatal(Fault::GenesisNotSaved)));
}

#[test]
fn blocks_and_headers_that_are_not_present() {
    let (store, chain, _) = regtest();
    assert!(matches!(chain.get_block_hash(1), Err(BlockchainError::BlockNotPresent)));
    let unknown = Hash256([9; 32]);
    assert!(matches!(chain.get_block_header(&unknown), Err(BlockchainError::BlockNotPresent)));
    assert!(matches!(chain.get_block_header_by_height(1), Err(Fault::MissingBlock)));
    assert!(chain.get_block_header_by_height(0).is_ok());
    store.0.borrow_mut().hashes.insert(3, unknown);
    assert!(matches!(chain.get_block_header_by_height(3), Err(Fault::MissingHeader)));
    store.fail("get_block_hash");
    assert!(matches!(chain.get_block_hash(0), Err(BlockchainError::DatabaseError(_))));
}

#[test]
fn headers_become_the_tip() {
    let (store, mut chain, first) = regtest();
    let block = block_after(&first, vec![coinbase(1)]);
    chain.accept_header(block.header).unwrap();
    assert_eq!(chain.get_best_block().unwrap(), (1, hash_of(&block.header)));
    assert_eq!(chain.get_validation_index().unwrap(), 0);
    match chain.get_disk_block_header(&hash_of(&block.header)).unwrap() {
        DiskBlockHeader::HeadersOnly(_, height) => assert_eq!(height, 1),
        other => panic!("unexpected: {:?}", other),
    }
    let next = block_after(&block.header, vec![coinbase(2)]);
    chain.accept_header(next.header).unwrap();
    assert_eq!(chain.get_height().unwrap(), 2);
    assert_eq!(store.log(), vec!["save_header", "save_header", "save_header"]);
    chain.accept_header(block.header).unwrap();
    assert_eq!(chain.get_best_block().unwrap(), (2, hash_of(&next.header)));
    assert_eq!(store.log().len(), 3);
}

#[test]
fn headers_that_are_refused() {
    let (store, mut chain, first) = regtest();
    let mut header = block_after(&first, vec![]).header;
    header.bits = 0x1d00_ffff;
    assert!(matches!(
        chain.accept_header(header),
        Err(BlockchainError::BlockValidationError(BlockValidationErrors::NotEnoughPow))
    ));
    let spoiled = spoil(block_after(&first, vec![]).header);
    assert!(matches!(
        chain.accept_header(spoiled),
        Err(BlockchainError::BlockValidationError(BlockValidationErrors::NotEnoughPow))
    ));
    let mut fork = block_after(&first, vec![]).header;
    fork.prev_blockhash = Hash256([8; 32]);
    assert!(matches!(
        chain.accept_header(fork),
        Err(BlockchainError::Fatal(Fault::ForkHeader))
    ));
    assert_eq!(chain.get_best_block().unwrap(), (0, hash_of(&first)));
    assert_eq!(store.log().len(), 1);
    store.fail("save_header");
    let good = block_after(&first, vec![]).header;
    match chain.accept_header(good) {
        Err(BlockchainError::DatabaseError(error)) => assert_eq!(error.0, "save_header"),
        other => panic!("unexpected: {:?}", other),
    }
    assert_eq!(chain.get_height().unwrap(), 0);
    store.fail("get_header");
    assert!(matches!(chain.accept_header(good), Err(BlockchainError::DatabaseError(_))));
}

#[test]
fn a_chain_that_cannot_grow() {
    let store = MemoryStore::default();
    let first = genesis(bitcoin::Network::Regtest);
    store.save_height(&best_chain(&first, u32::MAX, &first)).unwrap();
    let mut chain = ChainState::load_chain_state(store, Network::Regtest).unwrap();
    let header = block_after(&first, vec![]).header;
    assert!(matches!(
        chain.accept_header(header),
        Err(BlockchainError::Fatal(Fault::HeightExhausted))
    ));
}

#[test]
fn blocks_are_connected_one_after_the_other() {
    let (store, mut chain, first) = regtest();
    let one = block_after(&first, vec![coinbase(1)]);
    chain.accept_header(one.header).unwrap();
    let coin = OutPoint { txid: txid(&one.txdata[0]), vout: 0 };
    let pays = Transaction {
        version: 2,
        lock_time: 0,
        input: vec![TxIn {
            previous_output: coin,
            script_sig: vec![],
            sequence: u32::MAX,
            witness: vec![],
        }],
        output: vec![TxOut { value: 40, script_pubkey: vec![0x52] }],
    };
    let two = block_after(&one.header, vec![coinbase(2), pays]);
    chain.accept_header(two.header).unwrap();

    chain.connect_block(&one, empty_proof(), UtxoMap::new(), vec![]).unwrap();
    assert_eq!(chain.get_validation_index().unwrap(), 1);
    assert_eq!(chain.get_height().unwrap(), 2);
    assert_eq!(chain.acc().leafs, 1);
    let leaf = ChainState::<MemoryStore>::get_leaf_hashes(
        &one.txdata[0],
        0,
        1,
        hash_of(&one.header),
    );
    assert_eq!(chain.acc().roots, vec![leaf]);
    assert_eq!(store.log()[3..], ["save_header", "save_height", "save_roots"]);
    let (kept, _) =
        BestChain::consensus_decode(store.0.borrow().best.as_ref().unwrap()).unwrap();
    assert_eq!(kept.validation_index, hash_of(&first));

    let mut inputs = UtxoMap::new();
    inputs.insert(coin, one.txdata[0].output[0].clone());
    let proof = Proof { targets: vec![0], hashes: vec![] };
    chain.connect_block(&two, proof, inputs, vec![leaf]).unwrap();
    assert_eq!(chain.get_validation_index().unwrap(), 2);
    assert_eq!(chain.acc().leafs, 3);
    match chain.get_disk_block_header(&hash_of(&two.header)).unwrap() {
        DiskBlockHeader::FullyValid(_, height) => assert_eq!(height, 2),
        other => panic!("unexpected: {:?}", other),
    }

    let told = chain.take_notifications();
    assert_eq!(told.len(), 2);
    let Notification::NewBlock(block, height) = &told[0];
    assert_eq!((block.block_hash(), *height), (hash_of(&one.header), 1));
    let Notification::NewBlock(block, height) = &told[1];
    assert_eq!((block.block_hash(), *height), (hash_of(&two.header), 2));
    assert!(chain.take_notifications().is_empty());
}

#[test]
fn those_who_listen_can_be_told_before_the_store() {
    let (store, mut chain, first) = regtest();
    let block = block_after(&first, vec![coinbase(1)]);
    chain.accept_header(block.header).unwrap();
    let before = store.log();
    let prepared = chain.prepare_block(&block, empty_proof(), UtxoMap::new(), vec![]).unwrap();
    let Notification::NewBlock(told, height) = prepared.notification().unwrap();
    assert_eq!((told.block_hash(), height), (hash_of(&block.header), 1));
    assert_eq!(told.txdata.len(), 1);
    assert_eq!(store.log(), before);
    assert_eq!(chain.get_validation_index().unwrap(), 0);
    assert_eq!(chain.acc().leafs, 0);
    chain.commit_block(prepared).unwrap();
    assert_eq!(store.log()[before.len()..], ["save_header", "save_height", "save_roots"]);
    assert_eq!(chain.get_validation_index().unwrap(), 1);
    assert_eq!(chain.acc().leafs, 1);
    assert!(chain.take_notifications().is_empty());
}

#[test]
fn nobody_is_told_of_blocks_that_need_no_validation() {
    let (store, mut chain, first) = regtest();
    let block = block_after(&first, vec![coinbase(1)]);
    store.put(DiskBlockHeader::Orphan(block.header), 1);
    let prepared = chain.prepare_block(&block, empty_proof(), UtxoMap::new(), vec![]).unwrap();
    assert!(prepared.notification().is_none());
    chain.commit_block(prepared).unwrap();
    assert_eq!(chain.get_validation_index().unwrap(), 0);
    store.put(DiskBlockHeader::FullyValid(block.header, 1), 1);
    let prepared = chain.prepare_block(&block, empty_proof(), UtxoMap::new(), vec![]).unwrap();
    assert!(prepared.notification().is_none());
    chain.commit_block(prepared).unwrap();
    assert_eq!(chain.get_validation_index().unwrap(), 1);
    assert_eq!(store.log(), vec!["save_header"]);
}

#[test]
fn a_refused_block_is_not_prepared() {
    let (_, chain, first) = regtest();
    let block = block_after(&first, vec![coinbase(1)]);
    let refused = chain.prepare_block(&block, empty_proof(), UtxoMap::new(), vec![]);
    assert!(matches!(refused, Err(BlockchainError::BlockNotPresent)));
}

#[test]
fn an_accumulator_with_too_many_leaves() {
    let store = MemoryStore::default();
    let first = genesis(bitcoin::Network::Regtest);
    store.put(DiskBlockHeader::FullyValid(first, 0), 0);
    store.save_height(&best_chain(&first, 0, &first)).unwrap();
    let full = Stump { leafs: 1 << 62, roots: vec![Hash256([4; 32])] };
    store.save_roots(full.serialize()).unwrap();
    let mut chain = ChainState::load_chain_state(store.clone(), Network::Regtest).unwrap();
    let block = block_after(&first, vec![coinbase(1)]);
    store.put(DiskBlockHeader::HeadersOnly(block.header, 1), 1);
    let leaf = Hash256([4; 32]);
    let short = Proof { targets: vec![0], hashes: vec![] };
    let error = chain.connect_block(&block, short, UtxoMap::new(), vec![leaf]).unwrap_err();
    assert!(matches!(error, BlockchainError::UtreexoError(_)));
    let beyond = Proof { targets: vec![(1 << 63) - 1], hashes: vec![] };
    let error = chain.connect_block(&block, beyond, UtxoMap::new(), vec![leaf]).unwrap_err();
    assert!(matches!(error, BlockchainError::Fatal(Fault::PositionOverflow)));
    chain.connect_block(&block, empty_proof(), UtxoMap::new(), vec![]).unwrap();
    assert_eq!(chain.acc().leafs, (1 << 62) + 1);
    assert_eq!(chain.acc().roots.len(), 2);
}

#[test]
fn the_rules_stay_the_same() {
    let (_, mut chain, first) = regtest();
    let rules = chain.chain_params();
    let block = block_after(&first, vec![coinbase(1)]);
    chain.accept_header(block.header).unwrap();
    chain.connect_block(&block, empty_proof(), UtxoMap::new(), vec![]).unwrap();
    chain.broadcast(&coinbase(2)).unwrap();
    chain.toggle_ibd(false);
    chain.flush().unwrap();
    assert_eq!(chain.chain_params().max_target.0, rules.max_target.0);
    assert_eq!(chain.chain_params().pow_target_timespan, rules.pow_target_timespan);
    assert_eq!(chain.chain_params().pow_allow_min_diff, rules.pow_allow_min_diff);
    assert_eq!(chain.chain_params().pow_allow_no_retarget, rules.pow_allow_no_retarget);
}

#[test]
fn blocks_that_need_no_validation() {
    let (store, mut chain, first) = regtest();
    let one = block_after(&first, vec![coinbase(1)]);
    store.put(DiskBlockHeader::Orphan(one.header), 1);
    chain.connect_block(&one, empty_proof(), UtxoMap::new(), vec![Hash256([7; 32])]).unwrap();
    assert_eq!(chain.get_validation_index().unwrap(), 0);
    store.put(DiskBlockHeader::FullyValid(one.header, 1), 1);
    chain.connect_block(&one, empty_proof(), UtxoMap::new(), vec![Hash256([7; 32])]).unwrap();
    assert_eq!(chain.get_validation_index().unwrap(), 1);
    assert_eq!(chain.acc().leafs, 0);
    assert_eq!(store.log(), vec!["save_header"]);
    assert!(chain.take_notifications().is_empty());
}

/// Connects a block whose header is put into the store as known, and expects that it is refused
/// and changes nothing.
fn refused(block: &Block, inputs: UtxoMap, deleted: Vec<Hash256>) -> BlockchainError {
    let (store, mut chain, first) = regtest();
    store.put(DiskBlockHeader::HeadersOnly(block.header, 1), 1);
    let error = chain.connect_block(block, empty_proof(), inputs, deleted).unwrap_err();
    assert_eq!(chain.get_best_block().unwrap(), (0, hash_of(&first)));
    assert_eq!(chain.get_validation_index().unwrap(), 0);
    assert_eq!(chain.acc().leafs, 0);
    assert_eq!(store.log(), vec!["save_header"]);
    assert!(chain.take_notifications().is_empty());
    error
}

#[test]
fn blocks_that_are_refused() {
    let first = genesis(bitcoin::Network::Regtest);
    let good = block_after(&first, vec![coinbase(1)]);

    let error = refused(&good, UtxoMap::new(), vec![Hash256([7; 32])]);
    assert!(matches!(error, BlockchainError::InvalidProof));

    let mut changed = good.clone();
    changed.txdata = vec![coinbase(2)];
    let error = refused(&changed, UtxoMap::new(), vec![]);
    assert!(matches!(
        error,
        BlockchainError::BlockValidationError(BlockValidationErrors::BadMerkleRoot)
    ));

    let mut witnessed = coinbase(1);
    witnessed.input[0].witness = vec![vec![0; 32]];
    let uncommitted = block_after(&first, vec![witnessed]);
    let error = refused(&uncommitted, UtxoMap::new(), vec![]);
    assert!(matches!(
        error,
        BlockchainError::BlockValidationError(BlockValidationErrors::BadWitnessCommitment)
    ));

    let mut elsewhere = good.clone();
    elsewhere.header.prev_blockhash = Hash256([8; 32]);
    match refused(&elsewhere, UtxoMap::new(), vec![]) {
        BlockchainError::BlockValidationError(BlockValidationErrors::PrevBlockNotFound(hash)) => {
            assert_eq!(hash, Hash256([8; 32]))
        }
        other => panic!("unexpected: {:?}", other),
    }

    let mut easy = good.clone();
    easy.header = spoil(easy.header);
    let error = refused(&easy, UtxoMap::new(), vec![]);
    assert!(matches!(
        error,
        BlockchainError::BlockValidationError(BlockValidationErrors::NotEnoughPow)
    ));

    let mut spends = coinbase(3);
    spends.input[0].previous_output = OutPoint { txid: Hash256([5; 32]), vout: 0 };
    let invalid = block_after(&first, vec![coinbase(1), spends]);
    let error = refused(&invalid, UtxoMap::new(), vec![]);
    assert!(matches!(
        error,
        BlockchainError::BlockValidationError(BlockValidationErrors::InvalidTx)
    ));
}

#[test]
fn a_witness_that_the_coinbase_commits_to() {
    let mut coins = coinbase(1);
    coins.input[0].witness = vec![vec![0; 32]];
    // A block of one transaction has the zero hash for its witness root.
    let commitment: bitcoin::hashes::sha256d::Hash = bitcoin::hashes::Hash::hash(&[0u8; 64]);
    let commitment: [u8; 32] = bitcoin::hashes::Hash::into_inner(commitment);
    let mut script: Vec<u8> = vec![0x6a, 0x24, 0xaa, 0x21, 0xa9, 0xed];
    script.extend(commitment);
    coins.output.push(TxOut { value: 0, script_pubkey: script });
    let (_, mut chain, first) = regtest();
    let block = block_after(&first, vec![coins]);
    chain.accept_header(block.header).unwrap();
    chain.connect_block(&block, empty_proof(), UtxoMap::new(), vec![]).unwrap();
    assert_eq!(chain.acc().leafs, 1);
}

#[test]
fn an_unknown_block_is_refused() {
    let (_, mut chain, first) = regtest();
    let block = block_after(&first, vec![coinbase(1)]);
    let error = chain.connect_block(&block, empty_proof(), UtxoMap::new(), vec![]).unwrap_err();
    assert!(matches!(error, BlockchainError::BlockNotPresent));
}

#[test]
fn a_store_that_fails_while_a_block_is_connected() {
    for (failing, told) in [("save_header", 2usize), ("save_height", 3)] {
        let (store, mut chain, first) = regtest();
        let block = block_after(&first, vec![coinbase(1)]);
        store.put(DiskBlockHeader::HeadersOnly(block.header, 1), 1);
        store.fail(failing);
        let error = chain.connect_block(&block, empty_proof(), UtxoMap::new(), vec![]).unwrap_err();
        match error {
            BlockchainError::DatabaseError(error) => assert_eq!(error.0, failing),
            other => panic!("unexpected: {:?}", other),
        }
        assert_eq!(store.log().len(), told);
        assert_eq!(chain.acc().leafs, 0);
        assert_eq!(chain.get_validation_index().unwrap(), 0);
        assert_eq!(chain.take_notifications().len(), 1);
    }
    let (store, mut chain, first) = regtest();
    let block = block_after(&first, vec![coinbase(1)]);
    store.put(DiskBlockHeader::HeadersOnly(block.header, 1), 1);
    store.fail("save_roots");
    let error = chain.connect_block(&block, empty_proof(), UtxoMap::new(), vec![]).unwrap_err();
    assert!(matches!(error, BlockchainError::Fatal(Fault::RootsNotSaved)));
    assert_eq!(chain.acc().leafs, 1);
}

#[test]
fn a_flushed_chain_is_taken_up_where_it_stood() {
    let (store, mut chain, first) = regtest();
    let block = block_after(&first, vec![coinbase(1)]);
    chain.accept_header(block.header).unwrap();
    chain.connect_block(&block, empty_proof(), UtxoMap::new(), vec![]).unwrap();
    let before = store.log().len();
    chain.flush().unwrap();
    assert_eq!(store.log()[before..], ["save_roots", "flush", "save_height"]);
    let resumed = ChainState::load_chain_state(store.clone(), Network::Regtest).unwrap();
    assert_eq!(resumed.get_best_block().unwrap(), (1, hash_of(&block.header)));
    assert_eq!(resumed.get_validation_index().unwrap(), 1);
    assert_eq!(resumed.acc().leafs, 1);
    assert_eq!(resumed.acc().roots, chain.acc().roots);
    assert!(resumed.is_in_idb());
}

#[test]
fn flushes_that_fail() {
    for (failing, told) in [("flush", 3usize), ("save_height", 4)] {
        let (store, mut chain, _) = regtest();
        store.fail(failing);
        match chain.flush() {
            Err(BlockchainError::DatabaseError(error)) => assert_eq!(error.0, failing),
            other => panic!("unexpected: {:?}", other),
        }
        assert_eq!(store.log().len(), told);
    }
    let (store, mut chain, _) = regtest();
    store.fail("save_roots");
    assert!(matches!(chain.flush(), Err(BlockchainError::Fatal(Fault::RootsNotSaved))));
    assert_eq!(store.log().len(), 2);
    assert!(matches!(chain.save_acc(), Err(BlockchainError::Fatal(Fault::RootsNotSaved))));
}

#[test]
fn the_accumulator_is_saved_and_loaded() {
    let (store, mut chain, _) = regtest();
    chain.save_acc().unwrap();
    assert_eq!(store.0.borrow().roots, Some(vec![0; 8]));
    let acc = Stump { leafs: 3, roots: vec![Hash256([1; 32]), Hash256([2; 32])] };
    store.save_roots(acc.serialize()).unwrap();
    let loaded = ChainState::<MemoryStore>::load_acc(&store).unwrap();
    assert_eq!((loaded.leafs, loaded.roots), (acc.leafs, acc.roots));
}

#[test]
fn chains_that_cannot_be_taken_up() {
    let store = MemoryStore::default();
    let error = ChainState::load_chain_state(store.clone(), Network::Regtest).err().unwrap();
    assert!(matches!(error, BlockchainError::ChainNotInitialized));
    store.fail("load_height");
    let error = ChainState::load_chain_state(store.clone(), Network::Regtest).err().unwrap();
    assert!(matches!(error, BlockchainError::DatabaseError(_)));
    store.fail("load_roots");
    let error = ChainState::load_chain_state(store.clone(), Network::Regtest).err().unwrap();
    assert!(matches!(error, BlockchainError::Fatal(Fault::RootsUnreadable)));
    let store = MemoryStore::default();
    store.save_roots(vec![1, 2, 3]).unwrap();
    let error = ChainState::load_chain_state(store, Network::Regtest).err().unwrap();
    assert!(matches!(error, BlockchainError::Fatal(Fault::RootsMalformed)));
}

#[test]
fn the_locator_of_a_chain() {
    let (store, mut chain, first) = regtest();
    let mut tip = first;
    let mut hashes: Vec<BlockHash> = vec![hash_of(&first)];
    for mark in 0..14u8 {
        tip = block_after(&tip, vec![coinbase(mark)]).header;
        chain.accept_header(tip).unwrap();
        hashes.push(hash_of(&tip));
    }
    let expected: Vec<BlockHash> = [14usize, 13, 12, 11, 10, 9, 8, 7, 6, 5, 4, 2, 0]
        .iter()
        .map(|height| hashes[*height])
        .collect();
    assert_eq!(chain.get_block_locator().unwrap(), expected);
    store.0.borrow_mut().hashes.remove(&4);
    assert!(matches!(
        chain.get_block_locator(),
        Err(BlockchainError::Fatal(Fault::MissingBlock))
    ));
}

#[test]
fn a_validated_block_that_left_the_chain() {
    let (store, chain, first) = regtest();
    store.put(DiskBlockHeader::Orphan(first), 0);
    assert!(matches!(
        chain.get_validation_index(),
        Err(BlockchainError::Fatal(Fault::ValidatedOrphan))
    ));
    store.0.borrow_mut().headers.clear();
    assert!(matches!(chain.get_validation_index(), Err(BlockchainError::BlockNotPresent)));
}

#[test]
fn transactions_leave_the_queue_in_order() {
    let (_, mut chain, _) = regtest();
    chain.broadcast(&coinbase(1)).unwrap();
    chain.broadcast(&coinbase(2)).unwrap();
    chain.broadcast(&coinbase(1)).unwrap();
    let queued = chain.get_unbroadcasted();
    assert_eq!(queued.len(), 3);
    assert_eq!(txid(&queued[0]), txid(&coinbase(1)));
    assert_eq!(txid(&queued[1]), txid(&coinbase(2)));
    assert_eq!(txid(&queued[2]), txid(&coinbase(1)));
    assert!(chain.get_unbroadcasted().is_empty());
}

#[test]
fn the_download_is_said_to_be_over() {
    let (_, mut chain, _) = regtest();
    chain.toggle_ibd(false);
    assert!(!chain.is_in_idb());
    chain.toggle_ibd(true);
    assert!(chain.is_in_idb());
}

fn epoch_header(time: u32, bits: u32) -> BlockHeader {
    BlockHeader {
        version: 1,
        prev_blockhash: Hash256([0; 32]),
        merkle_root: Hash256([0; 32]),
        time,
        bits,
        nonce: time,
    }
}

#[test]
fn the_work_that_is_required_where_an_epoch_starts() {
    let store = MemoryStore::default();
    let chain = ChainState::new(store.clone(), Network::Bitcoin).unwrap();
    let last = epoch_header(2_419_200, 0x1d01_0000);
    let missing = chain.get_next_required_work_at(&last, 2016, 0);
    assert!(matches!(missing, Err(BlockchainError::Fatal(Fault::MissingBlock))));
    store.put(DiskBlockHeader::FullyValid(epoch_header(0, 0x1d01_0000), 0), 0);
    store.0.borrow_mut().hashes.insert(2015, Hash256([4; 32]));
    let missing = chain.get_next_required_work_at(&last, 2016, 0);
    assert!(matches!(missing, Err(BlockchainError::Fatal(Fault::MissingHeader))));
    store.put(DiskBlockHeader::FullyValid(last, 2015), 2015);
    let work = chain.get_next_required_work_at(&last, 2016, 0).unwrap();
    assert_eq!(work.0, epoch_header(0, 0x1d02_0000).target().0);
    assert_eq!(chain.get_next_required_work(&last, 2016).unwrap().0, work.0);
    store.put(DiskBlockHeader::FullyValid(epoch_header(2_419_201, 0x1d01_0000), 0), 0);
    let reversed = chain.get_next_required_work_at(&last, 2016, 0);
    assert!(matches!(reversed, Err(BlockchainError::Fatal(Fault::TimeReversed))));
    let before = chain.get_next_required_work_at(&last, 0, 0);
    assert!(matches!(before, Err(BlockchainError::Fatal(Fault::EpochBeforeGenesis))));
}

#[test]
fn the_work_that_is_required_within_an_epoch() {
    let store = MemoryStore::default();
    let chain = ChainState::new(store, Network::Testnet).unwrap();
    let last = epoch_header(5000, 0x1c10_0000);
    let soon = chain.get_next_required_work_at(&last, 2017, 6200).unwrap();
    assert_eq!(soon.0, last.target().0);
    let late = chain.get_next_required_work_at(&last, 2017, 6201).unwrap();
    assert_eq!(late.0, chain.chain_params().max_target.0);
    let at_epoch = chain.get_next_required_work_at(&last, 2016, 6201).unwrap();
    assert_eq!(at_epoch.0, chain.chain_params().max_target.0);
    let now = chain.get_next_required_work(&last, 2017).unwrap();
    assert_eq!(now.0, chain.chain_params().max_target.0);
    let future = epoch_header(u32::MAX, 0x1c10_0000);
    let ahead = chain.get_next_required_work(&future, 2017).unwrap();
    assert_eq!(ahead.0, future.target().0);
}
