//! Leaves, spent outputs and the accumulator after a block.

use sha2::Digest;

use chainstate::accumulator::{Proof, Stump};
use chainstate::best_chain::BestChain;
use chainstate::chain_state::ChainState;
use chainstate::error::{BlockchainError, ScriptError, StoreError, TransactionError};
use chainstate::hash::{BlockHash, Hash256};
use chainstate::primitives::{Block, BlockHeader, OutPoint, Transaction, TxIn, TxOut};
use chainstate::store::{ChainStore, DiskBlockHeader};
use chainstate::utxo::UtxoMap;

struct NoStore;

impl ChainStore for NoStore {
    fn save_roots(&self, _roots: Vec<u8>) -> Result<(), StoreError> {
        Ok(())
    }

    fn load_roots(&self) -> Result<Option<Vec<u8>>, StoreError> {
        Ok(None)
    }

    fn get_header(&self, _block_hash: &BlockHash) -> Result<Option<DiskBlockHeader>, StoreError> {
        Ok(None)
    }

    fn save_header(&self, _header: &DiskBlockHeader, _height: u32) -> Result<(), StoreError> {
        Ok(())
    }

    fn get_block_hash(&self, _height: u32) -> Result<Option<BlockHash>, StoreError> {
        Ok(None)
    }

    fn save_height(&self, _height: &BestChain) -> Result<(), StoreError> {
        Ok(())
    }

    fn load_height(&self) -> Result<Option<BestChain>, StoreError> {
        Ok(None)
    }

    fn flush(&self) -> Result<(), StoreError> {
        Ok(())
    }
}

type Chain = ChainState<NoStore>;

fn outside_transaction(transaction: &Transaction) -> bitcoin::Transaction {
    bitcoin::Transaction {
        version: transaction.version,
        lock_time: bitcoin::PackedLockTime(transaction.lock_time),
        input: transaction
            .input
            .iter()
            .map(|input| bitcoin::TxIn {
                previous_output: bitcoin::OutPoint {
                    txid: bitcoin::hashes::Hash::from_inner(input.previous_output.txid.0),
                    vout: input.previous_output.vout,
                },
                script_sig: bitcoin::Script::from(input.script_sig.clone()),
                sequence: bitcoin::Sequence(input.sequence),
                witness: bitcoin::Witness::from_vec(input.witness.clone()),
            })
            .collect(),
        output: transaction
            .output
            .iter()
            .map(|output| bitcoin::TxOut {
                value: output.value,
                script_pubkey: bitcoin::Script::from(output.script_pubkey.clone()),
            })
            .collect(),
    }
}

fn txid(transaction: &Transaction) -> Hash256 {
    Hash256(bitcoin::hashes::Hash::into_inner(outside_transaction(transaction).txid()))
}

fn input(txid: Hash256, vout: u32) -> TxIn {
    TxIn {
        previous_output: OutPoint { txid, vout },
        script_sig: vec![],
        sequence: u32::MAX,
        witness: vec![],
    }
}

fn output(value: u64, script_pubkey: Vec<u8>) -> TxOut {
    TxOut { value, script_pubkey }
}

fn coinbase(outputs: Vec<TxOut>) -> Transaction {
    let mut coins = input(Hash256([0; 32]), u32::MAX);
    coins.script_sig = vec![0x51, 0x51];
    Transaction { version: 1, lock_time: 0, input: vec![coins], output: outputs }
}

fn payment(inputs: Vec<TxIn>, outputs: Vec<TxOut>) -> Transaction {
    Transaction { version: 2, lock_time: 0, input: inputs, output: outputs }
}

fn block(txdata: Vec<Transaction>) -> Block {
    let header = BlockHeader {
        version: 4,
        prev_blockhash: Hash256([1; 32]),
        merkle_root: Hash256([2; 32]),
        time: 3,
        bits: 0x207f_ffff,
        nonce: 5,
    };
    Block { header, txdata }
}

/// A leaf, hashed here from its parts.
fn expected_leaf(transaction: &Transaction, vout: u32, code: u32, block_hash: Hash256) -> Hash256 {
    let encoded =
        bitcoin::consensus::serialize(&outside_transaction(transaction).output[vout as usize]);
    let hash = sha2::Sha512_256::new()
        .chain_update(block_hash.0)
        .chain_update(txid(transaction).0)
        .chain_update(vout.to_le_bytes())
        .chain_update(code.to_le_bytes())
        .chain_update(encoded)
        .finalize();
    Hash256(hash.into())
}

#[test]
fn the_leaf_of_a_coinbase_output() {
    let transaction = coinbase(vec![output(50, vec![0x51]), output(7, vec![0x52; 300])]);
    let leaf = Chain::get_leaf_hashes(&transaction, 1, 1000, Hash256([9; 32]));
    assert_eq!(leaf, expected_leaf(&transaction, 1, 2001, Hash256([9; 32])));
}

#[test]
fn the_leaf_of_another_output() {
    let transaction = payment(vec![input(Hash256([3; 32]), 0)], vec![output(50, vec![0x51])]);
    let leaf = Chain::get_leaf_hashes(&transaction, 0, 1000, Hash256([9; 32]));
    assert_eq!(leaf, expected_leaf(&transaction, 0, 2000, Hash256([9; 32])));
}

#[test]
fn the_height_in_a_leaf_is_cut_off() {
    let transaction = coinbase(vec![output(50, vec![0x51])]);
    let high = Chain::get_leaf_hashes(&transaction, 0, 0x8000_0001, Hash256([9; 32]));
    let low = Chain::get_leaf_hashes(&transaction, 0, 1, Hash256([9; 32]));
    assert_eq!(high, low);
    assert_eq!(high, expected_leaf(&transaction, 0, 3, Hash256([9; 32])));
}

#[test]
fn witnesses_do_not_enter_a_leaf() {
    let bare = payment(vec![input(Hash256([3; 32]), 0)], vec![output(50, vec![0x51])]);
    let mut witnessed = bare.clone();
    witnessed.input[0].witness = vec![vec![1, 2, 3], vec![4]];
    let leaf = Chain::get_leaf_hashes(&bare, 0, 5, Hash256([9; 32]));
    assert_eq!(leaf, Chain::get_leaf_hashes(&witnessed, 0, 5, Hash256([9; 32])));
    assert_eq!(leaf, Chain::get_leaf_hashes(&bare, 0, 0x8000_0005, Hash256([9; 32])));
}

#[test]
fn leaves_differ_in_every_part() {
    let transaction = coinbase(vec![output(50, vec![0x51]), output(50, vec![0x51])]);
    let leaf = Chain::get_leaf_hashes(&transaction, 0, 5, Hash256([9; 32]));
    assert_ne!(leaf, Chain::get_leaf_hashes(&transaction, 1, 5, Hash256([9; 32])));
    assert_ne!(leaf, Chain::get_leaf_hashes(&transaction, 0, 6, Hash256([9; 32])));
    assert_ne!(leaf, Chain::get_leaf_hashes(&transaction, 0, 5, Hash256([8; 32])));
    let other = coinbase(vec![output(51, vec![0x51]), output(50, vec![0x51])]);
    assert_ne!(leaf, Chain::get_leaf_hashes(&other, 0, 5, Hash256([9; 32])));
}

#[test]
fn the_first_output_becomes_a_root() {
    let coins = coinbase(vec![output(50, vec![0x51])]);
    let block = block(vec![coins.clone()]);
    let empty = Proof { targets: vec![], hashes: vec![] };
    let acc = Chain::update_acc(&Stump::new(), &block, 7, empty, vec![]).unwrap();
    assert_eq!(acc.leafs, 1);
    assert_eq!(acc.roots, vec![expected_leaf(&coins, 0, 15, block.block_hash())]);
}

#[test]
fn outputs_that_do_not_outlive_the_block_have_no_leaf() {
    let coins = coinbase(vec![
        output(50, vec![0x51]),
        output(0, vec![0x6a, 0x01, 0x02]),
        output(5, vec![0x51]),
    ]);
    let pays = payment(vec![input(txid(&coins), 0)], vec![output(49, vec![0x51])]);
    let block = block(vec![coins, pays]);
    let empty = Proof { targets: vec![], hashes: vec![] };
    let acc = Chain::update_acc(&Stump::new(), &block, 7, empty, vec![]).unwrap();
    assert_eq!(acc.leafs, 2);
}

#[test]
fn scripts_that_fail_at_once() {
    let unspendable: Vec<u8> = (0..=255u8)
        .filter(|opcode| {
            let block = block(vec![coinbase(vec![output(1, vec![*opcode])])]);
            let empty = Proof { targets: vec![], hashes: vec![] };
            Chain::update_acc(&Stump::new(), &block, 1, empty, vec![]).unwrap().leafs == 0
        })
        .collect();
    let mut expected: Vec<u8> = vec![0x50, 0x62, 0x65, 0x66, 0x6a];
    expected.extend([0x7e, 0x7f, 0x80, 0x81, 0x83, 0x84, 0x85, 0x86, 0x89, 0x8a, 0x8d, 0x8e]);
    expected.extend([0x95, 0x96, 0x97, 0x98, 0x99]);
    expected.extend(0xba..=0xffu8);
    assert_eq!(unspendable, expected);
    let block = block(vec![coinbase(vec![output(1, vec![])])]);
    let empty = Proof { targets: vec![], hashes: vec![] };
    assert_eq!(Chain::update_acc(&Stump::new(), &block, 1, empty, vec![]).unwrap().leafs, 1);
}

#[test]
fn a_spent_leaf_leaves_the_accumulator() {
    let coins = coinbase(vec![output(50, vec![0x51])]);
    let first = block(vec![coins.clone()]);
    let empty = Proof { targets: vec![], hashes: vec![] };
    let acc = Chain::update_acc(&Stump::new(), &first, 1, empty, vec![]).unwrap();
    let leaf = acc.roots[0];
    let second = block(vec![payment(vec![input(txid(&coins), 0)], vec![output(49, vec![0x51])])]);
    let proof = Proof { targets: vec![0], hashes: vec![] };
    let acc = Chain::update_acc(&acc, &second, 2, proof, vec![leaf]).unwrap();
    assert_eq!(acc.leafs, 2);
    assert!(!acc.roots.contains(&leaf));
}

#[test]
fn what_is_not_in_the_accumulator_cannot_leave_it() {
    let block = block(vec![coinbase(vec![output(50, vec![0x51])])]);
    let empty = Proof { targets: vec![], hashes: vec![] };
    let error =
        Chain::update_acc(&Stump::new(), &block, 1, empty, vec![Hash256([7; 32])]).unwrap_err();
    assert!(matches!(error, BlockchainError::InvalidProof));
}

#[test]
fn a_proof_for_another_leaf_is_refused() {
    let acc = Stump { leafs: 1, roots: vec![Hash256([4; 32])] };
    let block = block(vec![]);
    let proof = Proof { targets: vec![0], hashes: vec![] };
    let error = Chain::update_acc(&acc, &block, 1, proof, vec![Hash256([7; 32])]).unwrap_err();
    assert!(matches!(error, BlockchainError::InvalidProof));
}

#[test]
fn a_proof_with_too_few_hashes_is_refused() {
    let acc = Stump { leafs: 2, roots: vec![Hash256([4; 32])] };
    let block = block(vec![]);
    let proof = Proof { targets: vec![0], hashes: vec![] };
    let error = Chain::update_acc(&acc, &block, 1, proof, vec![Hash256([7; 32])]).unwrap_err();
    assert!(matches!(error, BlockchainError::UtreexoError(_)));
}

#[test]
fn an_accumulator_with_the_wrong_number_of_roots() {
    let acc = Stump { leafs: 3, roots: vec![Hash256([4; 32])] };
    let block = block(vec![coinbase(vec![output(50, vec![0x51])])]);
    let empty = Proof { targets: vec![], hashes: vec![] };
    let error = Chain::update_acc(&acc, &block, 1, empty, vec![]).unwrap_err();
    match error {
        BlockchainError::UtreexoError(text) => assert!(!text.is_empty()),
        other => panic!("unexpected: {:?}", other),
    }
}

#[test]
fn proofs_for_very_many_leaves() {
    let empty = Proof { targets: vec![], hashes: vec![] };
    let one = Proof { targets: vec![0], hashes: vec![] };
    let leaf = Hash256([4; 32]);
    let most = Stump { leafs: 1 << 62, roots: vec![leaf] };
    assert!(most.answers(&one, &vec![leaf]));
    assert!(most.answers(&Proof { targets: vec![(1 << 62) - 1], hashes: vec![] }, &vec![leaf]));
    assert!(!most.answers(&Proof { targets: vec![(1 << 63) - 1], hashes: vec![] }, &vec![leaf]));
    let highest = Proof { targets: vec![u64::MAX, (1 << 63) - 1], hashes: vec![] };
    assert!(most.answers(&highest, &vec![leaf, leaf]));
    let more = Stump { leafs: (1 << 62) + 1, roots: vec![leaf, leaf] };
    assert!(!more.answers(&one, &vec![leaf]));
    assert!(more.answers(&one, &vec![]));
    assert!(more.answers(&empty, &vec![leaf]));
    assert!(more.answers(&highest, &vec![leaf, leaf]));
    let refused = Chain::update_acc(&more, &block(vec![]), 1, highest, vec![leaf, leaf]);
    assert!(matches!(refused, Err(BlockchainError::UtreexoError(_))));
    let odd = Stump { leafs: (1 << 61) + 1, roots: vec![Hash256([5; 32]), leaf] };
    assert!(odd.answers(&Proof { targets: vec![1 << 61], hashes: vec![] }, &vec![leaf]));
    assert!(!odd.answers(&Proof { targets: vec![(1 << 61) + 1], hashes: vec![] }, &vec![leaf]));
    // The first node of the second row, over two leaves.
    assert!(odd.answers(&Proof { targets: vec![1 << 63], hashes: vec![] }, &vec![leaf]));
}

#[test]
fn a_leaf_leaves_an_accumulator_of_very_many() {
    let leaf = Hash256([4; 32]);
    let odd = Stump { leafs: (1 << 61) + 1, roots: vec![Hash256([5; 32]), leaf] };
    let next = block(vec![coinbase(vec![output(50, vec![0x51])])]);
    let proof = Proof { targets: vec![1 << 61], hashes: vec![] };
    let acc = Chain::update_acc(&odd, &next, 2, proof, vec![leaf]).unwrap();
    assert_eq!(acc.leafs, (1 << 61) + 2);
    let added = expected_leaf(&next.txdata[0], 0, 5, next.block_hash());
    assert_eq!(acc.roots, vec![Hash256([5; 32]), added]);
    let wrong = Proof { targets: vec![1 << 61], hashes: vec![] };
    let error = Chain::update_acc(&odd, &next, 2, wrong, vec![Hash256([7; 32])]).unwrap_err();
    assert!(matches!(error, BlockchainError::InvalidProof));
}

#[test]
fn an_empty_root_stays_the_hash_of_zeros() {
    let leaf = Hash256([4; 32]);
    let acc = Stump { leafs: 1, roots: vec![leaf] };
    let proof = Proof { targets: vec![0], hashes: vec![] };
    let acc = Chain::update_acc(&acc, &block(vec![]), 1, proof, vec![leaf]).unwrap();
    assert_eq!(acc.leafs, 1);
    assert_eq!(acc.roots, vec![Hash256([0; 32])]);
    let next = block(vec![coinbase(vec![output(50, vec![0x51])])]);
    let empty = Proof { targets: vec![], hashes: vec![] };
    let acc = Chain::update_acc(&acc, &next, 2, empty, vec![]).unwrap();
    assert_eq!(acc.leafs, 2);
    assert_eq!(acc.roots, vec![expected_leaf(&next.txdata[0], 0, 5, next.block_hash())]);
}

#[test]
fn outputs_by_reference() {
    let at = OutPoint { txid: Hash256([1; 32]), vout: 0 };
    let elsewhere = OutPoint { txid: Hash256([1; 32]), vout: 1 };
    let mut utxos = UtxoMap::new();
    assert!(utxos.remove(&at).is_none());
    utxos.insert(at, output(1, vec![]));
    utxos.insert(elsewhere, output(2, vec![]));
    utxos.insert(at, output(3, vec![]));
    assert_eq!(utxos.remove(&at).unwrap().value, 3);
    assert!(utxos.remove(&at).is_none());
    assert_eq!(utxos.remove(&elsewhere).unwrap().value, 2);
}

fn known(entries: Vec<(u32, Vec<u8>)>) -> UtxoMap {
    let mut utxos = UtxoMap::new();
    for (vout, script_pubkey) in entries {
        utxos.insert(OutPoint { txid: Hash256([6; 32]), vout }, output(10, script_pubkey));
    }
    utxos
}

#[test]
fn a_script_that_accepts() {
    let pays = payment(vec![input(Hash256([6; 32]), 0)], vec![output(9, vec![0x51])]);
    let verdict = Chain::verify_block_transactions(known(vec![(0, vec![0x51])]), &vec![pays]);
    assert!(matches!(verdict, Ok(true)));
}

#[test]
fn a_script_that_refuses() {
    let pays = payment(vec![input(Hash256([6; 32]), 0)], vec![output(9, vec![0x51])]);
    let verdict = Chain::verify_block_transactions(known(vec![(0, vec![0x00])]), &vec![pays]);
    assert!(matches!(verdict, Err(TransactionError::ScriptRefused(ScriptError::Script))));
}

#[test]
fn an_output_that_is_not_there() {
    let pays = payment(vec![input(Hash256([6; 32]), 1)], vec![output(9, vec![0x51])]);
    let verdict = Chain::verify_block_transactions(known(vec![(0, vec![0x51])]), &vec![pays]);
    match verdict {
        Err(TransactionError::UnknownSpentOutput(at)) => assert_eq!(at.vout, 1),
        other => panic!("unexpected: {:?}", other),
    }
}

#[test]
fn an_output_is_spent_once() {
    let once = payment(vec![input(Hash256([6; 32]), 0)], vec![output(9, vec![0x51])]);
    let again = payment(vec![input(Hash256([6; 32]), 0)], vec![output(8, vec![0x51])]);
    let utxos = known(vec![(0, vec![0x51]), (1, vec![0x51])]);
    let verdict = Chain::verify_block_transactions(utxos, &vec![once, again]);
    assert!(matches!(verdict, Err(TransactionError::UnknownSpentOutput(_))));
    let twice = payment(
        vec![input(Hash256([6; 32]), 0), input(Hash256([6; 32]), 0)],
        vec![output(9, vec![0x51])],
    );
    let verdict = Chain::verify_block_transactions(known(vec![(0, vec![0x51])]), &vec![twice]);
    assert!(matches!(verdict, Err(TransactionError::UnknownSpentOutput(_))));
}

#[test]
fn a_coinbase_spends_nothing() {
    let coins = coinbase(vec![output(50, vec![0x51])]);
    let verdict = Chain::verify_block_transactions(UtxoMap::new(), &vec![coins]);
    assert!(matches!(verdict, Ok(true)));
    assert!(matches!(Chain::verify_block_transactions(UtxoMap::new(), &vec![]), Ok(true)));
}

#[test]
fn each_input_is_held_to_the_script_that_it_spends() {
    let mut first = input(Hash256([6; 32]), 0);
    first.script_sig = vec![0x52];
    let mut second = input(Hash256([6; 32]), 1);
    second.script_sig = vec![0x53];
    let pays = payment(vec![first, second], vec![output(9, vec![0x51])]);
    let fits = known(vec![(0, vec![0x52, 0x87]), (1, vec![0x53, 0x87])]);
    assert!(matches!(Chain::verify_block_transactions(fits, &vec![pays.clone()]), Ok(true)));
    let swapped = known(vec![(0, vec![0x53, 0x87]), (1, vec![0x52, 0x87])]);
    let verdict = Chain::verify_block_transactions(swapped, &vec![pays]);
    assert!(matches!(verdict, Err(TransactionError::ScriptRefused(ScriptError::Script))));
}

#[test]
fn merkle_roots() {
    let coins = coinbase(vec![output(50, vec![0x51])]);
    let pays = payment(vec![input(Hash256([6; 32]), 0)], vec![output(9, vec![0x51])]);
    let mut one = block(vec![coins.clone()]);
    assert!(!one.check_merkle_root());
    one.header.merkle_root = txid(&coins);
    assert!(one.check_merkle_root());
    let mut two = block(vec![coins.clone(), pays.clone()]);
    let pair = [txid(&coins).0, txid(&pays).0].concat();
    let root: bitcoin::hashes::sha256d::Hash = bitcoin::hashes::Hash::hash(&pair);
    two.header.merkle_root = Hash256(bitcoin::hashes::Hash::into_inner(root));
    assert!(two.check_merkle_root());
    assert!(!block(vec![]).check_merkle_root());
}

#[test]
fn coinbases() {
    assert!(coinbase(vec![]).is_coin_base());
    assert!(!payment(vec![input(Hash256([0; 32]), 0)], vec![]).is_coin_base());
    assert!(!payment(vec![input(Hash256([1; 32]), u32::MAX)], vec![]).is_coin_base());
    assert!(!payment(vec![], vec![]).is_coin_base());
}
