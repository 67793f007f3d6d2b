use ledger::effects::TxnEffect;
use ledger::model::{
    AirAssign, AssetDefinition, AssetRecord, BindAssets, BodySignature, DebtSwap, DefineAsset,
    IssueAsset, KvEntry, KvUpdate, Lien, LienAssignment, NoReplayToken, OpChecks, Operation,
    ReleaseAssets, Transaction, TransferAsset, TransferType, TxOutput, TxoRef, UpdateMemo,
    XfrAmount, XfrAssetType, XfrBody, copy_output, lien_eq, output_eq,
};
use ledger::rules::EffectError;

const X: u64 = 0x58;
const K1: u64 = 101;
const K2: u64 = 202;

fn token(seq_id: u64) -> NoReplayToken {
    NoReplayToken { rand: 7, seq_id }
}

fn ok_checks(body_sigs: usize) -> OpChecks {
    OpChecks {
        signature_valid: true,
        body_signatures_valid: vec![true; body_sigs],
        proof_valid: true,
        policy_passed: true,
        debt_swap: None,
    }
}

fn plain(owner: u64, code: u64, amount: u64) -> AssetRecord {
    AssetRecord {
        amount: XfrAmount::NonConfidential(amount),
        asset_type: XfrAssetType::NonConfidential(code),
        public_key: owner,
    }
}

fn out(rec: AssetRecord) -> TxOutput {
    TxOutput { id: None, record: rec, lien: None }
}

fn define(code: u64, issuer: u64) -> Operation {
    Operation::DefineAsset(DefineAsset {
        asset: AssetDefinition { code, issuer, memo: 0, policy: None, max_units: None },
        signer: issuer,
    })
}

fn issue(code: u64, seq_num: u64, issuer: u64, amounts: &[u64]) -> Operation {
    let records: Vec<TxOutput> = amounts.iter().map(|a| out(plain(issuer, code, *a))).collect();
    Operation::IssueAsset(IssueAsset { code, seq_num, num_outputs: records.len(), records, signer: issuer })
}

fn transfer(inputs: Vec<TxoRef>, ins: Vec<AssetRecord>, outs: Vec<AssetRecord>, signer: u64) -> Operation {
    Operation::TransferAsset(TransferAsset {
        inputs,
        outputs: outs.iter().map(|r| out(*r)).collect(),
        transfer: XfrBody {
            inputs: ins,
            outputs: outs,
            inputs_tracing_policies: vec![],
            outputs_tracing_policies: vec![],
        },
        lien_assignments: vec![],
        transfer_type: TransferType::Standard,
        body_signatures: vec![BodySignature { address: signer, input_idx: None }],
    })
}

fn txn(operations: Vec<Operation>, seq_id: u64) -> Transaction {
    Transaction { operations, no_replay_token: token(seq_id), policy_options: vec![] }
}

fn checks_for(t: &Transaction) -> Vec<OpChecks> {
    t.operations
        .iter()
        .map(|op| match op {
            Operation::TransferAsset(o) => ok_checks(o.body_signatures.len()),
            Operation::BindAssets(o) => ok_checks(o.body_signatures.len()),
            Operation::ReleaseAssets(o) => ok_checks(o.body_signatures.len()),
            _ => ok_checks(0),
        })
        .collect()
}

fn effect(t: Transaction) -> Result<TxnEffect, EffectError> {
    let c = checks_for(&t);
    TxnEffect::compute_effect(t, &c)
}

#[test]
fn define_then_issue_reports_code_amount_and_one_output() {
    let t = txn(vec![define(X, K1), issue(X, 0, K1, &[100])], 1);
    let e = effect(t).expect("valid transaction");
    assert_eq!(e.new_asset_codes.len(), 1);
    assert_eq!(e.new_asset_codes[0].0, X);
    assert_eq!(e.issuance_amounts, vec![(X, 100)]);
    assert!(e.confidential_issuance_types.is_empty());
    assert_eq!(e.txos.len(), 1);
    assert_eq!(e.txos[0], Some(out(plain(K1, X, 100))));
    assert_eq!(e.issuance_keys, vec![(X, K1)]);
    assert_eq!(e.new_issuance_nums, vec![(X, 0)]);
}

#[test]
fn output_count_is_sum_of_declared_outputs() {
    let t = txn(
        vec![
            define(X, K1),
            issue(X, 1, K1, &[10, 20, 30]),
            transfer(
                vec![TxoRef::Relative(0), TxoRef::Relative(1)],
                vec![plain(K1, X, 30), plain(K1, X, 20)],
                vec![plain(K2, X, 25), plain(K1, X, 25)],
                K1,
            ),
        ],
        2,
    );
    let e = effect(t).expect("valid transaction");
    assert_eq!(e.txos.len(), 5);
    assert_eq!(e.txos[1], None);
    assert_eq!(e.txos[2], None);
    assert_eq!(e.internally_spent_txos.len(), 2);
}

#[test]
fn issuance_amounts_sum() {
    let t = txn(vec![issue(X, 1, K1, &[30]), issue(X, 2, K1, &[20])], 3);
    let e = effect(t).expect("valid transaction");
    assert_eq!(e.issuance_amounts, vec![(X, 50)]);
    assert_eq!(e.new_issuance_nums, vec![(X, 1), (X, 2)]);
}

#[test]
fn issuance_with_non_increasing_sequence_fails() {
    let t = txn(vec![issue(X, 2, K1, &[30]), issue(X, 2, K1, &[20])], 4);
    assert_eq!(effect(t).err(), Some(EffectError::Inputs));
    let t = txn(vec![issue(X, 5, K1, &[30]), issue(X, 3, K1, &[20])], 4);
    assert_eq!(effect(t).err(), Some(EffectError::Inputs));
}

#[test]
fn issuance_overflow_is_an_error() {
    let t = txn(vec![issue(X, 1, K1, &[u64::MAX, 1])], 5);
    assert_eq!(effect(t).err(), Some(EffectError::IssuanceOverflow));
}

#[test]
fn issuance_by_other_key_fails() {
    let t = txn(vec![define(X, K1), issue(X, 1, K2, &[5])], 6);
    assert_eq!(effect(t).err(), Some(EffectError::Inputs));
}

#[test]
fn double_spend_within_transaction_fails() {
    let t = txn(
        vec![
            issue(X, 1, K1, &[10]),
            transfer(vec![TxoRef::Relative(0)], vec![plain(K1, X, 10)], vec![plain(K2, X, 10)], K1),
            transfer(vec![TxoRef::Relative(1)], vec![plain(K1, X, 10)], vec![plain(K2, X, 10)], K1),
        ],
        7,
    );
    assert_eq!(effect(t).err(), Some(EffectError::Inputs));
}

#[test]
fn absolute_input_used_twice_fails() {
    let t = txn(
        vec![
            transfer(vec![TxoRef::Absolute(9)], vec![plain(K1, X, 10)], vec![plain(K2, X, 10)], K1),
            transfer(vec![TxoRef::Absolute(9)], vec![plain(K1, X, 10)], vec![plain(K2, X, 10)], K1),
        ],
        8,
    );
    assert_eq!(effect(t).err(), Some(EffectError::Inputs));
}

#[test]
fn transfer_records_absolute_inputs() {
    let t = txn(
        vec![transfer(vec![TxoRef::Absolute(9)], vec![plain(K1, X, 10)], vec![plain(K2, X, 10)], K1)],
        9,
    );
    let e = effect(t).expect("valid transaction");
    assert_eq!(e.input_txos, vec![(9, out(plain(K1, X, 10)))]);
    assert_eq!(e.cosig_slots, vec![(0, 0)]);
    assert_eq!(e.asset_types_involved, vec![X]);
}

#[test]
fn unsigned_input_fails() {
    let t = txn(
        vec![transfer(vec![TxoRef::Absolute(9)], vec![plain(K1, X, 10)], vec![plain(K2, X, 10)], K2)],
        10,
    );
    assert_eq!(effect(t).err(), Some(EffectError::Inputs));
}

#[test]
fn custom_policy_input_needs_no_owner_signature() {
    let mut t = txn(
        vec![transfer(vec![TxoRef::Absolute(9)], vec![plain(K1, X, 10)], vec![plain(K2, X, 10)], K2)],
        10,
    );
    t.policy_options = vec![(X, 1)];
    let e = effect(t).expect("valid transaction");
    assert!(e.cosig_slots.is_empty());
}

#[test]
fn failed_zero_knowledge_check_is_crypto_error() {
    let t = txn(
        vec![transfer(vec![TxoRef::Absolute(9)], vec![plain(K1, X, 10)], vec![plain(K2, X, 10)], K1)],
        11,
    );
    let mut c = checks_for(&t);
    c[0].proof_valid = false;
    assert_eq!(TxnEffect::compute_effect(t, &c).err(), Some(EffectError::Crypto));
}

#[test]
fn bad_signature_on_definition_is_crypto_error() {
    let t = txn(vec![define(X, K1)], 12);
    let mut c = checks_for(&t);
    c[0].signature_valid = false;
    assert_eq!(TxnEffect::compute_effect(t, &c).err(), Some(EffectError::Crypto));
    let t = txn(vec![define(X, K1)], 12);
    assert_eq!(TxnEffect::compute_effect(t, &vec![]).err(), Some(EffectError::Crypto));
}

#[test]
fn failed_policy_init_check_is_policy_error() {
    let t = txn(
        vec![Operation::DefineAsset(DefineAsset {
            asset: AssetDefinition { code: X, issuer: K1, memo: 0, policy: Some(3), max_units: None },
            signer: K1,
        })],
        13,
    );
    let mut c = checks_for(&t);
    c[0].policy_passed = false;
    assert_eq!(TxnEffect::compute_effect(t, &c).err(), Some(EffectError::Policy));
}

#[test]
fn defining_a_code_twice_in_one_transaction_fails() {
    let t = txn(vec![define(X, K1), define(X, K1)], 14);
    assert_eq!(effect(t).err(), Some(EffectError::Inputs));
}

#[test]
fn tracing_policies_must_agree() {
    let mk = |pol: u64| {
        Operation::TransferAsset(TransferAsset {
            inputs: vec![TxoRef::Absolute(pol)],
            outputs: vec![out(plain(K2, X, 1))],
            transfer: XfrBody {
                inputs: vec![plain(K1, X, 1)],
                outputs: vec![plain(K2, X, 1)],
                inputs_tracing_policies: vec![pol],
                outputs_tracing_policies: vec![pol],
            },
            lien_assignments: vec![],
            transfer_type: TransferType::Standard,
            body_signatures: vec![BodySignature { address: K1, input_idx: None }],
        })
    };
    let t = txn(vec![mk(1), mk(2)], 15);
    assert_eq!(effect(t).err(), Some(EffectError::Inputs));
    let t = txn(vec![mk(1)], 15);
    assert_eq!(effect(t).unwrap().tracing_policies, vec![(X, 1)]);
}

#[test]
fn debt_swap_records_effect_once_per_code() {
    let mk = || {
        Operation::TransferAsset(TransferAsset {
            inputs: vec![],
            outputs: vec![],
            transfer: XfrBody { inputs: vec![], outputs: vec![], inputs_tracing_policies: vec![], outputs_tracing_policies: vec![] },
            lien_assignments: vec![],
            transfer_type: TransferType::DebtSwap,
            body_signatures: vec![],
        })
    };
    let swap = DebtSwap { debt_type: 77, effect: 5 };
    let t = txn(vec![mk()], 16);
    let mut c = checks_for(&t);
    c[0].debt_swap = Some(swap);
    assert_eq!(TxnEffect::compute_effect(t, &c).unwrap().debt_effects, vec![(77, 5)]);
    let t = txn(vec![mk(), mk()], 16);
    let mut c = checks_for(&t);
    c[0].debt_swap = Some(swap);
    c[1].debt_swap = Some(swap);
    assert_eq!(TxnEffect::compute_effect(t, &c).err(), Some(EffectError::Inputs));
    let t = txn(vec![mk()], 16);
    assert_eq!(effect(t).err(), Some(EffectError::Policy));
}

#[test]
fn memo_and_air_updates_need_the_transaction_token() {
    let memo = UpdateMemo { asset_type: X, new_memo: 4, no_replay_token: token(17), signer: K1 };
    let air = AirAssign { addr: 3, data: 8, issuer_pk: 1, no_replay_token: token(17), signer: K1 };
    let t = txn(vec![Operation::UpdateMemo(memo), Operation::AIRAssign(air)], 17);
    let e = effect(t).unwrap();
    assert_eq!(e.memo_updates, vec![(X, K1, 4)]);
    assert_eq!(e.air_updates, vec![(3, 8)]);
    let t = txn(vec![Operation::UpdateMemo(memo)], 18);
    assert_eq!(effect(t).err(), Some(EffectError::Inputs));
    let t = txn(vec![Operation::AIRAssign(air)], 18);
    assert_eq!(effect(t).err(), Some(EffectError::Inputs));
}

#[test]
fn key_value_updates_chain_generations_and_owners() {
    let set = |generation: u64, owner: u64, signer: u64| KvUpdate {
        key: 5,
        generation,
        value: Some(KvEntry { owner, data: generation }),
        signer,
    };
    let t = txn(vec![Operation::KVStoreUpdate(set(0, K1, K1)), Operation::KVStoreUpdate(set(1, K2, K1))], 19);
    assert_eq!(effect(t).err(), Some(EffectError::Crypto));
    let t = txn(vec![Operation::KVStoreUpdate(set(0, K1, K1)), Operation::KVStoreUpdate(set(2, K1, K1))], 19);
    assert_eq!(effect(t).err(), Some(EffectError::Inputs));
    let t = txn(vec![Operation::KVStoreUpdate(set(0, K1, K1)), Operation::KVStoreUpdate(set(1, K1, K1))], 19);
    assert_eq!(effect(t).unwrap().kv_updates.len(), 2);
}

fn bind_release(release_inputs: Vec<AssetRecord>) -> Transaction {
    let contract = plain(K1, X, 1);
    let locked = plain(K1, 66, 40);
    let bind = Operation::BindAssets(BindAssets {
        contract: TxoRef::Relative(1),
        inputs: vec![TxoRef::Relative(0)],
        transfer: XfrBody {
            inputs: vec![contract, locked],
            outputs: vec![contract],
            inputs_tracing_policies: vec![],
            outputs_tracing_policies: vec![],
        },
        input_liens: vec![],
        body_signatures: vec![BodySignature { address: K1, input_idx: None }],
    });
    let n_out = release_inputs.len();
    let release = Operation::ReleaseAssets(ReleaseAssets {
        contract: TxoRef::Relative(0),
        num_outputs: n_out,
        transfer: XfrBody {
            inputs: release_inputs.clone(),
            outputs: release_inputs,
            inputs_tracing_policies: vec![],
            outputs_tracing_policies: vec![],
        },
        lien_assignments: vec![],
        body_signatures: vec![BodySignature { address: K1, input_idx: None }],
    });
    txn(vec![issue(X, 1, K1, &[1]), issue(66, 1, K1, &[40]), bind, release], 20)
}

#[test]
fn bind_then_release_returns_the_bound_records() {
    let t = bind_release(vec![plain(K1, X, 1), plain(K1, 66, 40)]);
    let e = effect(t).expect("valid transaction");
    let contract = plain(K1, X, 1);
    let locked = plain(K1, 66, 40);
    let lien = Lien::Bound(Box::new(out(locked)), Box::new(Lien::Empty));
    assert_eq!(e.internally_spent_txos.len(), 3);
    assert!(output_eq(
        &e.internally_spent_txos[2],
        &TxOutput { id: None, record: contract, lien: Some(lien) }
    ));
    assert_eq!(e.txos[2], None);
    assert_eq!(e.txos[3], Some(out(contract)));
    assert_eq!(e.txos[4], Some(out(locked)));
}

#[test]
fn release_of_other_records_fails() {
    let t = bind_release(vec![plain(K1, X, 1), plain(K1, 66, 41)]);
    assert_eq!(effect(t).err(), Some(EffectError::Inputs));
}

#[test]
fn lien_copy_and_compare() {
    let a = Lien::Bound(Box::new(out(plain(K1, X, 1))), Box::new(Lien::Empty));
    let b = Lien::Bound(Box::new(out(plain(K1, X, 2))), Box::new(Lien::Empty));
    assert!(lien_eq(&a, &a));
    assert!(!lien_eq(&a, &b));
    let o = TxOutput { id: Some(3), record: plain(K1, X, 1), lien: Some(a) };
    let c = copy_output(&o);
    assert!(output_eq(&o, &c));
    assert_eq!(o, c);
}

#[test]
fn lien_assignment_on_two_inputs_to_one_output_fails() {
    let lien = || Lien::Empty;
    let t = txn(
        vec![Operation::TransferAsset(TransferAsset {
            inputs: vec![TxoRef::Absolute(1), TxoRef::Absolute(2)],
            outputs: vec![out(plain(K2, X, 2))],
            transfer: XfrBody {
                inputs: vec![plain(K1, X, 1), plain(K1, X, 1)],
                outputs: vec![plain(K2, X, 2)],
                inputs_tracing_policies: vec![],
                outputs_tracing_policies: vec![],
            },
            lien_assignments: vec![
                LienAssignment { input_idx: 0, output_idx: 0, lien: lien() },
                LienAssignment { input_idx: 1, output_idx: 0, lien: lien() },
            ],
            transfer_type: TransferType::Standard,
            body_signatures: vec![BodySignature { address: K1, input_idx: None }],
        })],
        21,
    );
    assert_eq!(effect(t).err(), Some(EffectError::Inputs));
}

#[test]
fn recomputation_gives_the_same_effect() {
    let a = effect(txn(vec![define(X, K1), issue(X, 0, K1, &[100])], 22)).unwrap();
    let b = effect(txn(vec![define(X, K1), issue(X, 0, K1, &[100])], 22)).unwrap();
    assert_eq!(a.txos, b.txos);
    assert_eq!(a.new_asset_codes, b.new_asset_codes);
    assert_eq!(a.issuance_amounts, b.issuance_amounts);
    assert_eq!(a.issuance_keys, b.issuance_keys);
    assert_eq!(a.asset_types_involved, b.asset_types_involved);
}

#[test]
fn deep_invariant_check_accepts_computed_effects() {
    let t = txn(
        vec![transfer(vec![TxoRef::Absolute(9)], vec![plain(K1, X, 10)], vec![plain(K2, X, 10)], K1)],
        30,
    );
    let c = checks_for(&t);
    let e = TxnEffect::compute_effect(t, &c).unwrap();
    assert!(e.fast_invariant_check().is_ok());
    assert!(e.deep_invariant_check(&c).is_ok());
}

#[test]
fn deep_invariant_check_rejects_unaccounted_inputs() {
    let t = txn(
        vec![transfer(vec![TxoRef::Absolute(9)], vec![plain(K1, X, 10)], vec![plain(K2, X, 10)], K1)],
        31,
    );
    let c = checks_for(&t);
    let mut e = TxnEffect::compute_effect(t, &c).unwrap();
    e.input_txos.push((10, out(plain(K1, X, 3))));
    assert!(e.deep_invariant_check(&c).is_err());
    let t = txn(
        vec![transfer(vec![TxoRef::Absolute(9)], vec![plain(K1, X, 10)], vec![plain(K2, X, 10)], K1)],
        31,
    );
    let c = checks_for(&t);
    let mut e = TxnEffect::compute_effect(t, &c).unwrap();
    e.input_txos[0].1 = out(plain(K1, X, 11));
    assert!(e.deep_invariant_check(&c).is_err());
}

#[test]
fn deep_invariant_check_rejects_effects_that_recompute_differently() {
    let t = txn(
        vec![transfer(vec![TxoRef::Absolute(9)], vec![plain(K1, X, 10)], vec![plain(K2, X, 10)], K1)],
        32,
    );
    let c = checks_for(&t);
    let mut e = TxnEffect::compute_effect(t, &c).unwrap();
    assert!(e.deep_invariant_check(&c).is_ok());
    e.txos.push(Some(out(plain(K2, X, 99))));
    assert!(e.deep_invariant_check(&c).is_err());
    let t = txn(
        vec![transfer(vec![TxoRef::Absolute(9)], vec![plain(K1, X, 10)], vec![plain(K2, X, 10)], K1)],
        32,
    );
    let e = effect(t).unwrap();
    let mut failing = checks_for(&e.txn);
    failing[0].proof_valid = false;
    assert!(e.deep_invariant_check(&failing).is_err());
}

#[test]
fn confidential_issuance_is_flagged_not_summed() {
    let rec = AssetRecord {
        amount: XfrAmount::Confidential(12345),
        asset_type: XfrAssetType::NonConfidential(X),
        public_key: K1,
    };
    let t = txn(
        vec![Operation::IssueAsset(IssueAsset { code: X, seq_num: 1, num_outputs: 1, records: vec![out(rec)], signer: K1 })],
        40,
    );
    let e = effect(t).unwrap();
    assert_eq!(e.confidential_issuance_types, vec![X]);
    assert!(e.issuance_amounts.is_empty());
    assert_eq!(e.txos.len(), 1);
}

#[test]
fn confidential_output_marks_plaintext_input_types() {
    let hidden = AssetRecord {
        amount: XfrAmount::Confidential(1),
        asset_type: XfrAssetType::Confidential(2),
        public_key: K2,
    };
    let t = txn(vec![transfer(vec![TxoRef::Absolute(3)], vec![plain(K1, X, 10)], vec![hidden], K1)], 41);
    let e = effect(t).unwrap();
    assert_eq!(e.confidential_transfer_inputs, vec![X]);
    assert_eq!(e.asset_types_involved, vec![X]);
    let t = txn(vec![transfer(vec![TxoRef::Absolute(3)], vec![plain(K1, X, 10)], vec![plain(K2, X, 10)], K1)], 41);
    assert!(effect(t).unwrap().confidential_transfer_inputs.is_empty());
}

#[test]
fn issuance_count_mismatch_fails() {
    let t = txn(
        vec![Operation::IssueAsset(IssueAsset {
            code: X,
            seq_num: 1,
            num_outputs: 2,
            records: vec![out(plain(K1, X, 1))],
            signer: K1,
        })],
        42,
    );
    assert_eq!(effect(t).err(), Some(EffectError::Inputs));
}

#[test]
fn cosigner_signatures_are_recorded() {
    let op = Operation::TransferAsset(TransferAsset {
        inputs: vec![TxoRef::Absolute(1)],
        outputs: vec![out(plain(K2, X, 1))],
        transfer: XfrBody {
            inputs: vec![plain(K1, X, 1)],
            outputs: vec![plain(K2, X, 1)],
            inputs_tracing_policies: vec![],
            outputs_tracing_policies: vec![],
        },
        lien_assignments: vec![],
        transfer_type: TransferType::Standard,
        body_signatures: vec![
            BodySignature { address: K1, input_idx: None },
            BodySignature { address: K2, input_idx: Some(0) },
        ],
    });
    let e = effect(txn(vec![op], 43)).unwrap();
    assert_eq!(e.cosig_slots, vec![(0, 0)]);
    assert_eq!(e.cosig_keys, vec![(0, 0, K2)]);
}

#[test]
fn generation_is_checked_after_a_cleared_key() {
    let clear = |generation: u64| KvUpdate { key: 6, generation, value: None, signer: K1 };
    let t = txn(vec![Operation::KVStoreUpdate(clear(0)), Operation::KVStoreUpdate(clear(5))], 44);
    assert_eq!(effect(t).err(), Some(EffectError::Inputs));
    let t = txn(vec![Operation::KVStoreUpdate(clear(0)), Operation::KVStoreUpdate(clear(1))], 44);
    assert_eq!(effect(t).unwrap().kv_updates.len(), 2);
}

#[test]
fn output_spent_by_a_bind_cannot_be_transferred() {
    let contract = plain(K1, X, 1);
    let locked = plain(K1, 66, 40);
    let bind = Operation::BindAssets(BindAssets {
        contract: TxoRef::Relative(1),
        inputs: vec![TxoRef::Relative(0)],
        transfer: XfrBody {
            inputs: vec![contract, locked],
            outputs: vec![contract],
            inputs_tracing_policies: vec![],
            outputs_tracing_policies: vec![],
        },
        input_liens: vec![],
        body_signatures: vec![BodySignature { address: K1, input_idx: None }],
    });
    // after the bind there are three outputs; Relative(1) names the locked one
    let again = transfer(vec![TxoRef::Relative(1)], vec![locked], vec![plain(K2, 66, 40)], K1);
    let t = txn(vec![issue(X, 1, K1, &[1]), issue(66, 1, K1, &[40]), bind, again], 45);
    assert_eq!(effect(t).err(), Some(EffectError::Inputs));
}

#[test]
fn release_later_in_the_transaction_returns_the_bound_records() {
    let contract = plain(K1, X, 1);
    let locked = plain(K1, 66, 40);
    let bind = Operation::BindAssets(BindAssets {
        contract: TxoRef::Relative(1),
        inputs: vec![TxoRef::Relative(0)],
        transfer: XfrBody {
            inputs: vec![contract, locked],
            outputs: vec![contract],
            inputs_tracing_policies: vec![],
            outputs_tracing_policies: vec![],
        },
        input_liens: vec![],
        body_signatures: vec![BodySignature { address: K1, input_idx: None }],
    });
    let release = Operation::ReleaseAssets(ReleaseAssets {
        contract: TxoRef::Relative(1),
        num_outputs: 2,
        transfer: XfrBody {
            inputs: vec![contract, locked],
            outputs: vec![contract, locked],
            inputs_tracing_policies: vec![],
            outputs_tracing_policies: vec![],
        },
        lien_assignments: vec![],
        body_signatures: vec![BodySignature { address: K1, input_idx: None }],
    });
    let t = txn(vec![issue(X, 1, K1, &[1]), issue(66, 1, K1, &[40]), bind, issue(77, 1, K1, &[5]), release], 46);
    let e = effect(t).expect("valid transaction");
    assert_eq!(e.txos.len(), 6);
    assert_eq!(e.txos[2], None);
    assert_eq!(e.txos[3], Some(out(plain(K1, 77, 5))));
    assert_eq!(e.txos[4], Some(out(contract)));
    assert_eq!(e.txos[5], Some(out(locked)));
}

#[test]
fn release_lien_on_the_contract_fails() {
    let contract = plain(K1, X, 1);
    let release = Operation::ReleaseAssets(ReleaseAssets {
        contract: TxoRef::Absolute(3),
        num_outputs: 1,
        transfer: XfrBody {
            inputs: vec![contract],
            outputs: vec![contract],
            inputs_tracing_policies: vec![],
            outputs_tracing_policies: vec![],
        },
        lien_assignments: vec![LienAssignment { input_idx: 0, output_idx: 0, lien: Lien::Empty }],
        body_signatures: vec![BodySignature { address: K1, input_idx: None }],
    });
    assert_eq!(effect(txn(vec![release], 47)).err(), Some(EffectError::Inputs));
}
