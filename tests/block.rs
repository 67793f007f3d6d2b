use ledger::block::{AdmissionError, BlockEffect, TxnTempSID};
use ledger::effects::TxnEffect;
use ledger::model::{
    AssetDefinition, AssetRecord, BodySignature, DefineAsset, IssueAsset, KvEntry, KvUpdate,
    NoReplayToken, OpChecks, Operation, Transaction, TransferAsset, TransferType, TxOutput, TxoRef,
    UpdateMemo, XfrAmount, XfrAssetType, XfrBody,
};

const X: u64 = 0x58;
const K1: u64 = 101;
const K2: u64 = 202;

fn token(seq_id: u64) -> NoReplayToken {
    NoReplayToken { rand: 1, seq_id }
}

fn plain(owner: u64, code: u64, amount: u64) -> AssetRecord {
    AssetRecord {
        amount: XfrAmount::NonConfidential(amount),
        asset_type: XfrAssetType::NonConfidential(code),
        public_key: owner,
    }
}

fn define(code: u64, issuer: u64) -> Operation {
    Operation::DefineAsset(DefineAsset {
        asset: AssetDefinition { code, issuer, memo: 0, policy: None, max_units: None },
        signer: issuer,
    })
}

fn issue(code: u64, seq_num: u64, issuer: u64, amount: u64) -> Operation {
    Operation::IssueAsset(IssueAsset {
        code,
        seq_num,
        num_outputs: 1,
        records: vec![TxOutput { id: None, record: plain(issuer, code, amount), lien: None }],
        signer: issuer,
    })
}

fn spend(sid: u64) -> Operation {
    Operation::TransferAsset(TransferAsset {
        inputs: vec![TxoRef::Absolute(sid)],
        outputs: vec![TxOutput { id: None, record: plain(K2, X, 1), lien: None }],
        transfer: XfrBody {
            inputs: vec![plain(K1, X, 1)],
            outputs: vec![plain(K2, X, 1)],
            inputs_tracing_policies: vec![],
            outputs_tracing_policies: vec![],
        },
        lien_assignments: vec![],
        transfer_type: TransferType::Standard,
        body_signatures: vec![BodySignature { address: K1, input_idx: None }],
    })
}

fn effect(operations: Vec<Operation>, seq_id: u64) -> TxnEffect {
    let checks: Vec<OpChecks> = operations
        .iter()
        .map(|_| OpChecks {
            signature_valid: true,
            body_signatures_valid: vec![true],
            proof_valid: true,
            policy_passed: true,
            debt_swap: None,
        })
        .collect();
    let t = Transaction { operations, no_replay_token: token(seq_id), policy_options: vec![] };
    TxnEffect::compute_effect(t, &checks).expect("valid transaction")
}

#[test]
fn second_definition_of_a_code_is_rejected() {
    let mut block = BlockEffect::new();
    let first = effect(vec![define(X, K1), issue(X, 0, K1, 100)], 1);
    assert_eq!(block.add_txn_effect(first), Ok(TxnTempSID(0)));
    let second = effect(vec![define(X, K2)], 2);
    assert_eq!(block.add_txn_effect(second), Err(AdmissionError::AssetCode));
    assert_eq!(block.txns.len(), 1);
    assert_eq!(block.new_asset_codes.len(), 1);
    assert_eq!(block.new_asset_codes[0].0, X);
    assert_eq!(block.issuance_amounts, vec![(X, 100)]);
    assert_eq!(block.temp_sids, vec![TxnTempSID(0)]);
}

#[test]
fn issuing_a_code_defined_earlier_in_the_block_is_rejected() {
    let mut block = BlockEffect::new();
    assert!(block.add_txn_effect(effect(vec![define(X, K1)], 1)).is_ok());
    assert_eq!(block.add_txn_effect(effect(vec![issue(X, 1, K1, 5)], 2)), Err(AdmissionError::AssetCode));
}

#[test]
fn same_replay_token_is_admitted_once() {
    let mut block = BlockEffect::new();
    assert!(block.add_txn_effect(effect(vec![define(X, K1)], 9)).is_ok());
    let before_tokens = block.no_replay_tokens.clone();
    assert_eq!(block.add_txn_effect(effect(vec![define(X + 1, K1)], 9)), Err(AdmissionError::Replay));
    assert_eq!(block.no_replay_tokens, before_tokens);
    assert_eq!(block.txns.len(), 1);
    assert!(block.new_asset_codes.iter().all(|(c, _)| *c == X));
}

#[test]
fn input_spent_twice_in_block_is_rejected() {
    let mut block = BlockEffect::new();
    assert_eq!(block.add_txn_effect(effect(vec![spend(4)], 1)), Ok(TxnTempSID(0)));
    assert_eq!(block.add_txn_effect(effect(vec![spend(4)], 2)), Err(AdmissionError::InputTxo));
    assert_eq!(block.add_txn_effect(effect(vec![spend(5)], 3)), Ok(TxnTempSID(1)));
    assert_eq!(block.input_txos.len(), 2);
    assert_eq!(block.txos.len(), 2);
}

#[test]
fn memo_updated_twice_in_block_is_rejected() {
    let memo = |seq: u64, m: u64| {
        Operation::UpdateMemo(UpdateMemo { asset_type: X, new_memo: m, no_replay_token: token(seq), signer: K1 })
    };
    let mut block = BlockEffect::new();
    assert!(block.add_txn_effect(effect(vec![memo(1, 10)], 1)).is_ok());
    assert_eq!(block.memo_updates, vec![(X, 10)]);
    assert_eq!(block.add_txn_effect(effect(vec![memo(2, 11)], 2)), Err(AdmissionError::Memo));
}

#[test]
fn key_updated_twice_in_block_is_rejected() {
    let kv = |data: u64| {
        Operation::KVStoreUpdate(KvUpdate { key: 3, generation: 0, value: Some(KvEntry { owner: K1, data }), signer: K1 })
    };
    let mut block = BlockEffect::new();
    assert!(block.add_txn_effect(effect(vec![kv(1)], 1)).is_ok());
    assert_eq!(block.add_txn_effect(effect(vec![kv(2)], 2)), Err(AdmissionError::KvKey));
    assert_eq!(block.kv_updates.len(), 1);
}

#[test]
fn block_issuance_totals_add_and_overflow_is_rejected() {
    let mut block = BlockEffect::new();
    assert!(block.add_txn_effect(effect(vec![issue(X, 1, K1, 30)], 1)).is_ok());
    assert_eq!(block.issuance_amounts, vec![(X, 30)]);
    let mut other = BlockEffect::new();
    other.issuance_amounts = vec![(X, u64::MAX)];
    assert_eq!(other.add_txn_effect(effect(vec![issue(X, 1, K1, 1)], 1)), Err(AdmissionError::IssuanceOverflow));
    assert_eq!(other.issuance_amounts, vec![(X, u64::MAX)]);
}

#[test]
fn pulses_count_up() {
    let mut block = BlockEffect::new();
    assert_eq!(block.get_pulse_count(), 0);
    assert_eq!(block.add_pulse(), 1);
    assert_eq!(block.add_pulse(), 2);
    assert_eq!(block.get_pulse_count(), 2);
}
