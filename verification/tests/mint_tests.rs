use sn_dbc::{
    Amount, DbcBuilder, Error, Mint, Output, OwnershipProof, ReissueRequest, SimpleKeyManager,
    SimpleSpendBook, TransactionBuilder,
};

fn mint_keys() -> (blsttc::SecretKeySet, Vec<u8>) {
    // A fixed single-node key set (threshold zero): one 32-byte coefficient.
    let mut coeff = vec![0u8; 32];
    coeff[31] = 42;
    let sks = blsttc::SecretKeySet::from_bytes(coeff).unwrap();
    let pks = sks.public_keys().to_bytes();
    (sks, pks)
}

fn new_mint() -> (Mint, Vec<u8>) {
    let (sks, pks) = mint_keys();
    let share = sks.secret_key_share(0).to_bytes().to_vec();
    let km = SimpleKeyManager::new(pks.clone(), share, 0);
    (Mint::new(km, SimpleSpendBook::new()), pks)
}

fn owner_key(tag: u8) -> blsttc::SecretKey {
    let mut bytes = [0u8; 32];
    bytes[31] = tag;
    blsttc::SecretKey::from_bytes(bytes).unwrap()
}

// Builds a signed reissue request spending `dbc` into the given outputs.
fn request_for(
    dbc: &sn_dbc::Dbc,
    owner: &blsttc::SecretKey,
    outputs: Vec<Output>,
) -> (ReissueRequest, Vec<(sn_dbc::DbcEnvelope, sn_dbc::DbcContent)>, Vec<Vec<u8>>) {
    let (tx, map) = TransactionBuilder::default()
        .add_input(dbc.duplicate())
        .add_outputs(outputs)
        .build(7001)
        .unwrap();
    let tx_hash = tx.blinded().hash();
    let sig = owner.sign(&tx_hash).to_bytes().to_vec();
    let name = dbc.name();
    let proofs = vec![OwnershipProof {
        name: name.clone(),
        owner: owner.public_key().to_bytes().to_vec(),
        signature: sig,
    }];
    let request = ReissueRequest { transaction: tx, input_ownership_proofs: proofs };
    (request, map, vec![name])
}

#[test]
fn genesis_dbc_is_self_consistent() {
    let (mut mint, pks) = new_mint();
    let owner = owner_key(1);
    let genesis = mint
        .issue_genesis_dbc(Amount::new(1, 0), owner.public_key().to_bytes().to_vec())
        .unwrap();
    assert!(genesis.confirm_valid(&pks));
    assert_eq!(genesis.denomination().amount(), Amount::new(1, 0));

    // Reissuing the genesis DBC to an equal single output spends its name.
    let (request, _map, names) = request_for(
        &genesis,
        &owner,
        vec![Output {
            denomination: genesis.denomination(),
            owner: owner.public_key().to_bytes().to_vec(),
        }],
    );
    let share = mint.reissue(request, names.clone()).unwrap();
    assert_eq!(share.signed_envelope_shares.len(), 1);
    assert!(mint.spendbook.contains(&names[0]));
    assert_eq!(mint.spendbook.names.len(), 1);
}

#[test]
fn split_one_to_hundred() {
    let (mut mint, pks) = new_mint();
    let owner = owner_key(2);
    let genesis = mint
        .issue_genesis_dbc(Amount::new(100, 0), owner.public_key().to_bytes().to_vec())
        .unwrap();
    assert!(genesis.confirm_valid(&pks));

    let outputs: Vec<Output> = (0..100)
        .map(|_| Output {
            denomination: sn_dbc::Denomination::new(Amount::new(1, 0)),
            owner: owner.public_key().to_bytes().to_vec(),
        })
        .collect();
    let (request, map, names) = request_for(&genesis, &owner, outputs);
    let reissue_share = mint.reissue(request.clone(), names.clone()).unwrap();
    assert!(mint.spendbook.contains(&names[0]));

    // Aggregating the single node's share yields one hundred DBCs that each
    // verify against the mint's master key set.
    let dbcs = DbcBuilder::new(request.transaction.clone())
        .add_outputs_content(map)
        .add_reissue_share(reissue_share)
        .build()
        .unwrap();
    assert_eq!(dbcs.len(), 100);
    for dbc in dbcs.iter() {
        assert!(dbc.confirm_valid(&pks));
        assert_eq!(dbc.denomination().amount(), Amount::new(1, 0));
    }

    // Re-submitting the split after success is a double spend.
    let again = mint.reissue(request, names);
    assert_eq!(again.unwrap_err(), Error::DbcAlreadySpent);
}

#[test]
fn merge_hundred_to_one() {
    let (mut mint, pks) = new_mint();
    let owner = owner_key(3);
    let genesis = mint
        .issue_genesis_dbc(Amount::new(100, 0), owner.public_key().to_bytes().to_vec())
        .unwrap();
    let outputs: Vec<Output> = (0..100)
        .map(|_| Output {
            denomination: sn_dbc::Denomination::new(Amount::new(1, 0)),
            owner: owner.public_key().to_bytes().to_vec(),
        })
        .collect();
    let (request, map, names) = request_for(&genesis, &owner, outputs);
    let reissue_share = mint.reissue(request.clone(), names).unwrap();
    let dbcs = DbcBuilder::new(request.transaction)
        .add_outputs_content(map)
        .add_reissue_share(reissue_share)
        .build()
        .unwrap();

    // Merge the hundred DBCs back into one of value one hundred.
    let (merge_tx, merge_map) = dbcs
        .iter()
        .fold(TransactionBuilder::default(), |b, d| b.add_input(d.duplicate()))
        .add_output(Output {
            denomination: sn_dbc::Denomination::new(Amount::new(100, 0).to_highest_unit()),
            owner: owner.public_key().to_bytes().to_vec(),
        })
        .build(7002)
        .unwrap();
    let tx_hash = merge_tx.blinded().hash();
    let sig = owner.sign(&tx_hash).to_bytes().to_vec();
    let names: Vec<Vec<u8>> = dbcs.iter().map(|d| d.name()).collect();
    let proofs = names
        .iter()
        .map(|n| OwnershipProof {
            name: n.clone(),
            owner: owner.public_key().to_bytes().to_vec(),
            signature: sig.clone(),
        })
        .collect();
    let merge_request = ReissueRequest { transaction: merge_tx, input_ownership_proofs: proofs };
    let merge_share = mint.reissue(merge_request.clone(), names.clone()).unwrap();
    for name in names.iter() {
        assert!(mint.spendbook.contains(name));
    }
    let merged = DbcBuilder::new(merge_request.transaction)
        .add_outputs_content(merge_map)
        .add_reissue_share(merge_share)
        .build()
        .unwrap();
    assert_eq!(merged.len(), 1);
    assert!(merged[0].confirm_valid(&pks));
    assert_eq!(merged[0].denomination().amount(), Amount::new(100, 0));
}

#[test]
fn value_mismatch_is_rejected() {
    let (mut mint, _pks) = new_mint();
    let owner = owner_key(4);
    let genesis = mint
        .issue_genesis_dbc(Amount::new(100, 0), owner.public_key().to_bytes().to_vec())
        .unwrap();
    // Outputs sum to 99 while the input is worth 100; the builder refuses,
    // so assemble the transaction by hand and let the mint rule on it.
    let outputs: Vec<Output> = (0..99)
        .map(|_| Output {
            denomination: sn_dbc::Denomination::new(Amount::new(1, 0)),
            owner: owner.public_key().to_bytes().to_vec(),
        })
        .collect();
    let builder = TransactionBuilder::default().add_outputs(outputs);
    assert!(matches!(builder.outputs_amount_sum(), Ok(s) if s == Amount::new(99, 0)));
    let contents: Vec<(sn_dbc::DbcEnvelope, sn_dbc::DbcContent)> = (0..99u64)
        .map(|i| {
            let c = sn_dbc::DbcContent::new(
                owner.public_key().to_bytes().to_vec(),
                sn_dbc::Denomination::new(Amount::new(1, 0)),
                i,
            );
            let envelope = sn_dbc::place_slip_in_envelope(&c.slip());
            (
                sn_dbc::DbcEnvelope { envelope, denomination: c.denomination },
                c,
            )
        })
        .collect();
    let tx = sn_dbc::ReissueTransaction {
        inputs: vec![genesis.duplicate()],
        outputs: contents.iter().map(|(e, _)| e.duplicate()).collect(),
    };
    let tx_hash = tx.blinded().hash();
    let sig = owner.sign(&tx_hash).to_bytes().to_vec();
    let name = genesis.name();
    let request = ReissueRequest {
        transaction: tx,
        input_ownership_proofs: vec![OwnershipProof {
            name: name.clone(),
            owner: owner.public_key().to_bytes().to_vec(),
            signature: sig,
        }],
    };
    let r = mint.reissue(request, vec![name.clone()]);
    assert_eq!(r.unwrap_err(), Error::TransactionValueMismatch);
    assert!(!mint.spendbook.contains(&name));
}

#[test]
fn tampered_request_is_rejected_without_spending() {
    let (mut mint, _pks) = new_mint();
    let owner = owner_key(5);
    let genesis = mint
        .issue_genesis_dbc(Amount::new(1, 0), owner.public_key().to_bytes().to_vec())
        .unwrap();
    let (request, _map, names) = request_for(
        &genesis,
        &owner,
        vec![Output {
            denomination: genesis.denomination(),
            owner: owner.public_key().to_bytes().to_vec(),
        }],
    );

    // A flipped bit in the ownership signature fails the signature check.
    let mut tampered = request.clone();
    tampered.input_ownership_proofs[0].signature[0] ^= 1;
    assert_eq!(mint.reissue(tampered, names.clone()).unwrap_err(), Error::FailedSignature);
    assert!(!mint.spendbook.contains(&names[0]));

    // A proof naming a different owner fails too.
    let stranger = owner_key(6);
    let mut renamed = request.clone();
    renamed.input_ownership_proofs[0].owner = stranger.public_key().to_bytes().to_vec();
    assert_eq!(mint.reissue(renamed, names.clone()).unwrap_err(), Error::FailedSignature);

    // A missing proof is its own error.
    let mut unproved = request.clone();
    unproved.input_ownership_proofs.clear();
    assert_eq!(
        mint.reissue(unproved, names.clone()).unwrap_err(),
        Error::MissingInputOwnerProof
    );

    // An expected-name set differing from the transaction is refused.
    assert_eq!(
        mint.reissue(request.clone(), vec![vec![0u8; 32]]).unwrap_err(),
        Error::FilteredInputNotPresent
    );

    // An altered output amount breaks conservation of value.
    let mut altered = request.clone();
    altered.transaction.outputs[0].denomination =
        sn_dbc::Denomination::new(Amount::new(2, 0));
    assert_eq!(
        mint.reissue(altered, names.clone()).unwrap_err(),
        Error::TransactionValueMismatch
    );
    assert!(!mint.spendbook.contains(&names[0]));

    // The untampered request still goes through afterwards.
    assert!(mint.reissue(request, names.clone()).is_ok());
    assert!(mint.spendbook.contains(&names[0]));
}

#[test]
fn spendbook_snapshot_and_reset() {
    let (mut mint, _pks) = new_mint();
    let owner = owner_key(7);
    let genesis = mint
        .issue_genesis_dbc(Amount::new(1, 0), owner.public_key().to_bytes().to_vec())
        .unwrap();
    let snapshot = mint.snapshot_spendbook();
    let (request, _map, names) = request_for(
        &genesis,
        &owner,
        vec![Output {
            denomination: genesis.denomination(),
            owner: owner.public_key().to_bytes().to_vec(),
        }],
    );
    mint.reissue(request.clone(), names.clone()).unwrap();
    assert!(mint.spendbook.contains(&names[0]));
    mint.reset_spendbook(snapshot);
    assert!(!mint.spendbook.contains(&names[0]));
    // After the reset the same request is accepted again.
    assert!(mint.reissue(request, names).is_ok());
}

#[test]
fn dbc_builder_checks_its_inputs() {
    let (mut mint, _pks) = new_mint();
    let owner = owner_key(8);
    let genesis = mint
        .issue_genesis_dbc(Amount::new(1, 0), owner.public_key().to_bytes().to_vec())
        .unwrap();
    let (request, map, names) = request_for(
        &genesis,
        &owner,
        vec![Output {
            denomination: genesis.denomination(),
            owner: owner.public_key().to_bytes().to_vec(),
        }],
    );
    let share = mint.reissue(request.clone(), names).unwrap();

    // No shares at all.
    let empty = DbcBuilder::new(request.transaction.clone());
    assert_eq!(empty.build().unwrap_err(), Error::NoReissueShares);

    // A share answering some other transaction is refused.
    let other_owner = owner_key(9);
    let (other_tx, _other_map) = TransactionBuilder::default()
        .add_input(genesis.duplicate())
        .add_output(Output {
            denomination: genesis.denomination(),
            owner: other_owner.public_key().to_bytes().to_vec(),
        })
        .build(7003)
        .unwrap();
    let mismatched = DbcBuilder::new(other_tx)
        .add_reissue_share(share.clone())
        .build();
    assert_eq!(mismatched.unwrap_err(), Error::ReissueShareDbcTransactionMismatch);

    // The honest share combines into a valid DBC.
    let dbcs = DbcBuilder::new(request.transaction)
        .add_outputs_content(map)
        .add_reissue_share(share)
        .build()
        .unwrap();
    assert_eq!(dbcs.len(), 1);
}

#[test]
fn builder_inputs_form_a_set() {
    let (mut mint, _pks) = new_mint();
    let owner = owner_key(11);
    let genesis = mint
        .issue_genesis_dbc(Amount::new(1, 0), owner.public_key().to_bytes().to_vec())
        .unwrap();
    // Re-adding an equal DBC is a no-op, and the name set is duplicate-free.
    let builder = TransactionBuilder::default()
        .add_input(genesis.duplicate())
        .add_input(genesis.duplicate());
    assert_eq!(builder.inputs.len(), 1);
    let hashes = builder.inputs_hashes();
    assert_eq!(hashes.len(), 1);
    assert_eq!(hashes[0], genesis.name());
}

#[test]
fn outputs_content_is_keyed_by_envelope() {
    let (mut mint, _pks) = new_mint();
    let owner = owner_key(12);
    let genesis = mint
        .issue_genesis_dbc(Amount::new(1, 0), owner.public_key().to_bytes().to_vec())
        .unwrap();
    let (request, map, names) = request_for(
        &genesis,
        &owner,
        vec![Output {
            denomination: genesis.denomination(),
            owner: owner.public_key().to_bytes().to_vec(),
        }],
    );
    let share = mint.reissue(request.clone(), names).unwrap();
    // Adding the same envelope's pair twice keeps one entry, so exactly one
    // DBC comes out.
    let pair = (map[0].0.duplicate(), map[0].1.duplicate());
    let dbcs = DbcBuilder::new(request.transaction)
        .add_outputs_content(map)
        .add_output_content(pair.0, pair.1)
        .add_reissue_share(share)
        .build()
        .unwrap();
    assert_eq!(dbcs.len(), 1);
}

#[test]
fn genesis_refuses_zero_amount() {
    let (mut mint, _pks) = new_mint();
    let owner = owner_key(10);
    let r = mint.issue_genesis_dbc(Amount::new(0, 0), owner.public_key().to_bytes().to_vec());
    assert_eq!(r.unwrap_err(), Error::UnrecognizedDenomination);
}
