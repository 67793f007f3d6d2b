//! Properties of effect computation and block admission, proved from the rules.
use vstd::prelude::*;
use crate::block::{AdmissionError, BlockView, admission, replay_conflict};
use crate::effects::lemma_effect_fails_on;
use crate::model::{
    AssetRecord, BindAssets, IssueAsset, LienAssignment, OpChecks, Operation, ReleaseAssets,
    Transaction, TransferAsset, TxOutput, TxoRef, XfrAmount, lemma_lien_of_injective, lien_of,
};
use crate::rules::{
    EffectError, EffectView, authorize, bind_rule, bind_slots, bound_of_bind, bound_of_release,
    effect_of, effect_upto, issue_records, issue_rule, issued, lien_slots, op_rule, push_outputs, release_rule, resolve_bind, resolve_one, resolve_transfer, transfer_rule,
};
use crate::tables::{has_key, key_index, lemma_key_index_bounds, upsert, value_at};

verus! {

// ---- output count ----

/// How many outputs an operation declares.
pub open spec fn declared_outputs(op: &Operation) -> nat {
    match op {
        Operation::IssueAsset(o) => o.num_outputs as nat,
        Operation::TransferAsset(o) => o.outputs@.len(),
        Operation::BindAssets(_) => 1,
        Operation::ReleaseAssets(o) => o.num_outputs as nat,
        _ => 0,
    }
}

/// The outputs declared by operations `0..n`.
pub open spec fn declared_upto(txn: &Transaction, n: nat) -> nat
    decreases n,
{
    if n == 0 {
        0
    } else {
        declared_upto(txn, (n - 1) as nat) + declared_outputs(&txn.operations@[n - 1])
    }
}

proof fn lemma_resolve_one_keeps_len(s: EffectView, r: TxoRef, record: AssetRecord, lien: Option<crate::model::Lien>)
    requires
        resolve_one(s, r, record, lien) is Some,
    ensures
        resolve_one(s, r, record, lien).unwrap().txos.len() == s.txos.len(),
        forall|ix: int|
            0 <= ix < s.txos.len() && s.txos[ix] is None ==> (#[trigger] resolve_one(s, r, record, lien).unwrap().txos[ix]) is None,
{
}

proof fn lemma_resolve_transfer_keeps_len(s: EffectView, op: &TransferAsset, ins: Seq<Option<usize>>, k: nat)
    requires
        resolve_transfer(s, op, ins, k) is Some,
    ensures
        resolve_transfer(s, op, ins, k).unwrap().txos.len() == s.txos.len(),
        forall|ix: int|
            0 <= ix < s.txos.len() && s.txos[ix] is None ==> (#[trigger] resolve_transfer(s, op, ins, k).unwrap().txos[ix]) is None,
    decreases k,
{
    if k > 0 {
        lemma_resolve_transfer_keeps_len(s, op, ins, (k - 1) as nat);
        let t = resolve_transfer(s, op, ins, (k - 1) as nat).unwrap();
        lemma_resolve_one_keeps_len(t, op.inputs@[k - 1], op.transfer.inputs@[k - 1], crate::rules::slot_lien(op.lien_assignments@, ins[k - 1]));
    }
}

proof fn lemma_resolve_bind_keeps_len(s: EffectView, op: &BindAssets, ins: Seq<Option<usize>>, k: nat)
    requires
        resolve_bind(s, op, ins, k) is Some,
    ensures
        resolve_bind(s, op, ins, k).unwrap().txos.len() == s.txos.len(),
    decreases k,
{
    if k > 0 {
        lemma_resolve_bind_keeps_len(s, op, ins, (k - 1) as nat);
    }
}

proof fn lemma_push_outputs_len(
    s: EffectView,
    outputs: Seq<AssetRecord>,
    assigns: Seq<LienAssignment>,
    outs: Seq<Option<usize>>,
    k: nat,
)
    ensures
        push_outputs(s, outputs, assigns, outs, k).txos.len() == s.txos.len() + k,
    decreases k,
{
    if k > 0 {
        lemma_push_outputs_len(s, outputs, assigns, outs, (k - 1) as nat);
    }
}

proof fn lemma_issue_records_len(s: EffectView, op: &IssueAsset, k: nat)
    requires
        issue_records(s, op, k) is Ok,
    ensures
        issue_records(s, op, k).unwrap().txos.len() == s.txos.len() + k,
    decreases k,
{
    if k > 0 {
        lemma_issue_records_len(s, op, (k - 1) as nat);
    }
}

proof fn lemma_op_output_count(s: EffectView, txn: &Transaction, checks: Seq<OpChecks>, i: usize)
    requires
        i < txn.operations@.len(),
        op_rule(s, txn, checks, i) is Ok,
    ensures
        op_rule(s, txn, checks, i).unwrap().txos.len() == s.txos.len() + declared_outputs(&txn.operations@[i as int]),
{
    match &txn.operations@[i as int] {
        Operation::IssueAsset(op) => {
            let s1 = EffectView {
                asset_types_involved: crate::tables::set_add(s.asset_types_involved, op.code),
                new_issuance_nums: s.new_issuance_nums.push((op.code, op.seq_num)),
                issuance_keys: if has_key(s.issuance_keys, op.code) {
                    s.issuance_keys
                } else {
                    s.issuance_keys.push((op.code, op.signer))
                },
                ..s
            };
            lemma_issue_records_len(s1, op, op.records@.len());
        },
        Operation::TransferAsset(op) => {
            let body = &op.transfer;
            let (ins, outs) = lien_slots(op.lien_assignments@, body.inputs@.len(), body.outputs@.len(), false, op.lien_assignments@.len()).unwrap();
            let authorized = crate::rules::transfer_authorized(s, txn, op, checks, i).unwrap();
            lemma_resolve_transfer_keeps_len(authorized, op, ins, body.inputs@.len());
            let u = resolve_transfer(authorized, op, ins, body.inputs@.len()).unwrap();
            lemma_push_outputs_len(u, body.outputs@, op.lien_assignments@, outs, body.outputs@.len());
        },
        Operation::BindAssets(op) => {
            let body = &op.transfer;
            let ins = bind_slots(op.input_liens@, body.inputs@.len(), op.input_liens@.len()).unwrap();
            let t = authorize(s, txn, checks, i, op.body_signatures@, body.inputs@, true, body.inputs@.len()).unwrap();
            lemma_resolve_bind_keeps_len(t, op, ins, body.inputs@.len());
        },
        Operation::ReleaseAssets(op) => {
            let body = &op.transfer;
            let (ins, outs) = lien_slots(op.lien_assignments@, body.inputs@.len(), body.outputs@.len(), true, op.lien_assignments@.len()).unwrap();
            let t = authorize(s, txn, checks, i, op.body_signatures@, body.inputs@, false, 1).unwrap();
            let u = resolve_one(t, op.contract, body.inputs@[0], Some(lien_of(bound_of_release(op, ins)))).unwrap();
            lemma_push_outputs_len(u, body.outputs@, op.lien_assignments@, outs, body.outputs@.len());
        },
        _ => {},
    }
}

/// A transaction's effect, when there is one, has exactly as many outputs as
/// its operations declare together.
pub proof fn effect_output_count(txn: &Transaction, checks: Seq<OpChecks>)
    requires
        txn.operations@.len() <= usize::MAX,
        effect_of(txn, checks) is Ok,
    ensures
        effect_of(txn, checks).unwrap().txos.len() == declared_upto(txn, txn.operations@.len()),
{
    lemma_output_count_upto(txn, checks, txn.operations@.len());
}

proof fn lemma_output_count_upto(txn: &Transaction, checks: Seq<OpChecks>, n: nat)
    requires
        n <= txn.operations@.len() <= usize::MAX,
        effect_upto(txn, checks, n) is Ok,
    ensures
        effect_upto(txn, checks, n).unwrap().txos.len() == declared_upto(txn, n),
    decreases n,
{
    if n > 0 {
        lemma_output_count_upto(txn, checks, (n - 1) as nat);
        let s = effect_upto(txn, checks, (n - 1) as nat).unwrap();
        lemma_op_output_count(s, txn, checks, (n - 1) as usize);
    }
}

// ---- double spend ----

proof fn lemma_spent_slot_blocks(
    s: EffectView,
    op: &TransferAsset,
    ins: Seq<Option<usize>>,
    k: nat,
    offs: u64,
    m: nat,
)
    requires
        k < m,
        op.inputs@[k as int] == TxoRef::Relative(offs),
        offs < s.txos.len(),
        s.txos[s.txos.len() - 1 - offs] is None,
    ensures
        resolve_transfer(s, op, ins, m) is None,
    decreases m,
{
    if m == k + 1 {
        if resolve_transfer(s, op, ins, k) is Some {
            lemma_resolve_transfer_keeps_len(s, op, ins, k);
        }
    } else {
        lemma_spent_slot_blocks(s, op, ins, k, offs, (m - 1) as nat);
    }
}

/// A transfer fails when one of its inputs names, by relative position, an
/// output that was already spent earlier in the transaction.
pub proof fn double_spend_rejected(
    s: EffectView,
    txn: &Transaction,
    op: &TransferAsset,
    checks: Seq<OpChecks>,
    i: usize,
    k: int,
    offs: u64,
)
    requires
        0 <= k < op.inputs@.len(),
        op.inputs@[k] == TxoRef::Relative(offs),
        offs < s.txos.len(),
        s.txos[s.txos.len() - 1 - offs] is None,
    ensures
        transfer_rule(s, txn, op, checks, i) is Err,
{
    let body = &op.transfer;
    if op.inputs@.len() == body.inputs@.len() && op.outputs@.len() == body.outputs@.len() {
        match lien_slots(op.lien_assignments@, body.inputs@.len(), body.outputs@.len(), false, op.lien_assignments@.len()) {
            None => {},
            Some((ins, outs)) => match crate::rules::transfer_authorized(s, txn, op, checks, i) {
                Err(_) => {},
                Ok(t) => lemma_spent_slot_blocks(t, op, ins, k as nat, offs, body.inputs@.len()),
            },
        }
    }
}

// ---- replay ----

/// A transaction whose replay token is already in the block is rejected.
pub proof fn replay_rejected(b: BlockView, e: EffectView, txn: Transaction, txos: Vec<Option<TxOutput>>)
    requires
        replay_conflict(b, txn.no_replay_token),
    ensures
        admission(b, e, txn, txos) is Err,
{
}

/// Once a transaction is in the block, no transaction with the same replay
/// token gets in.
pub proof fn replay_token_admitted_once(
    b0: BlockView,
    e1: EffectView,
    t1: Transaction,
    x1: Vec<Option<TxOutput>>,
    b1: BlockView,
    e2: EffectView,
    t2: Transaction,
    x2: Vec<Option<TxOutput>>,
)
    requires
        admission(b0, e1, t1, x1) == Ok::<BlockView, AdmissionError>(b1),
        t2.no_replay_token == t1.no_replay_token,
    ensures
        admission(b1, e2, t2, x2) is Err,
{
    assert(b1.txns[b1.txns.len() - 1] == t1);
    assert(replay_conflict(b1, t2.no_replay_token));
}

// ---- issuance ----

proof fn lemma_upsert_value(t: Seq<(u64, u64)>, k: u64, v: u64)
    ensures
        has_key(upsert(t, k, v), k),
        value_at(upsert(t, k, v), k) == v,
{
    lemma_key_index_bounds(t, k);
    let u = upsert(t, k, v);
    if has_key(t, k) {
        let i = key_index(t, k);
        lemma_key_index_last(t, k, t.len() as nat);
        lemma_key_index_at(u, k, i, u.len() as nat);
    } else {
        assert(u.last() == (k, v));
    }
}

/// Past the index found, no entry has the key.
proof fn lemma_key_index_last(t: Seq<(u64, u64)>, k: u64, n: nat)
    requires
        n == t.len(),
    ensures
        forall|j: int| key_index(t, k) < j < t.len() ==> #[trigger] t[j].0 != k,
    decreases n,
{
    if t.len() > 0 && t.last().0 != k {
        let d = t.drop_last();
        lemma_key_index_bounds(t, k);
        lemma_key_index_last(d, k, d.len() as nat);
        assert forall|j: int| key_index(t, k) < j < t.len() implies #[trigger] t[j].0 != k by {
            if j < t.len() - 1 {
                assert(t[j] == d[j]);
            }
        }
    }
}

/// An entry with the key and none after it is the one found.
proof fn lemma_key_index_at(t: Seq<(u64, u64)>, k: u64, i: int, n: nat)
    requires
        n == t.len(),
        0 <= i < t.len(),
        t[i].0 == k,
        forall|j: int| i < j < t.len() ==> #[trigger] t[j].0 != k,
    ensures
        key_index(t, k) == i,
    decreases n,
{
    if i < t.len() - 1 {
        let d = t.drop_last();
        assert(t.last() == t[t.len() - 1]);
        assert forall|j: int| i < j < d.len() implies #[trigger] d[j].0 != k by {
            assert(d[j] == t[j]);
        }
        lemma_key_index_at(d, k, i, d.len() as nat);
    }
}

/// The plaintext units among `records`.
pub open spec fn plain_total(records: Seq<TxOutput>) -> int
    decreases records.len(),
{
    if records.len() == 0 {
        0
    } else {
        plain_total(records.drop_last()) + match records.last().record.amount {
            XfrAmount::NonConfidential(a) => a as int,
            XfrAmount::Confidential(_) => 0,
        }
    }
}

proof fn lemma_issue_records_effects(s: EffectView, op: &IssueAsset, k: nat)
    requires
        k <= op.records@.len(),
        issue_records(s, op, k) is Ok,
    ensures
        issued(issue_records(s, op, k).unwrap(), op.code) == issued(s, op.code) + plain_total(
            op.records@.subrange(0, k as int),
        ),
        issue_records(s, op, k).unwrap().new_issuance_nums == s.new_issuance_nums,
    decreases k,
{
    if k == 0 {
        assert(op.records@.subrange(0, 0).len() == 0);
    } else {
        lemma_issue_records_effects(s, op, (k - 1) as nat);
        let t = issue_records(s, op, (k - 1) as nat).unwrap();
        assert(op.records@.subrange(0, k as int).drop_last() =~= op.records@.subrange(0, k - 1));
        let out = op.records@[k - 1];
        match out.record.amount {
            XfrAmount::NonConfidential(a) => {
                lemma_upsert_value(t.issuance_amounts, op.code, (issued(t, op.code) + a) as u64);
            },
            XfrAmount::Confidential(_) => {},
        }
    }
}

/// An issuance adds its plaintext units to the asset's issued total.
pub proof fn issuance_adds_amounts(s0: EffectView, op: &IssueAsset, checks: Seq<OpChecks>, i: int, s1: EffectView)
    requires
        issue_rule(s0, op, checks, i) == Ok::<EffectView, EffectError>(s1),
    ensures
        issued(s1, op.code) == issued(s0, op.code) + plain_total(op.records@),
        has_key(s1.new_issuance_nums, op.code),
        value_at(s1.new_issuance_nums, op.code) == op.seq_num,
{
    let code = op.code;
    let nums = s0.new_issuance_nums.push((code, op.seq_num));
    let sa = EffectView {
        asset_types_involved: crate::tables::set_add(s0.asset_types_involved, code),
        new_issuance_nums: nums,
        issuance_keys: if has_key(s0.issuance_keys, code) {
            s0.issuance_keys
        } else {
            s0.issuance_keys.push((code, op.signer))
        },
        ..s0
    };
    lemma_issue_records_effects(sa, op, op.records@.len());
    assert(op.records@.subrange(0, op.records@.len() as int) =~= op.records@);
    assert(nums.last() == (code, op.seq_num));
}

/// Two issuances of one asset in a row: the second must carry a larger
/// sequence number, and the issued total grows by both.
pub proof fn issuance_order_and_sum(
    s0: EffectView,
    op1: &IssueAsset,
    op2: &IssueAsset,
    checks: Seq<OpChecks>,
    i: int,
    j: int,
    s1: EffectView,
)
    requires
        issue_rule(s0, op1, checks, i) == Ok::<EffectView, EffectError>(s1),
        op2.code == op1.code,
    ensures
        op2.seq_num <= op1.seq_num ==> issue_rule(s1, op2, checks, j) == Err::<EffectView, EffectError>(
            EffectError::Inputs,
        ),
        issue_rule(s1, op2, checks, j) is Ok ==> issued(issue_rule(s1, op2, checks, j).unwrap(), op1.code)
            == issued(s0, op1.code) + plain_total(op1.records@) + plain_total(op2.records@),
{
    issuance_adds_amounts(s0, op1, checks, i, s1);
    if issue_rule(s1, op2, checks, j) is Ok {
        issuance_adds_amounts(s1, op2, checks, j, issue_rule(s1, op2, checks, j).unwrap());
    }
}

// ---- determinism ----

/// The same transaction with the same verifier answers gives the same result.
pub proof fn recomputation_agrees(t1: &Transaction, c1: Seq<OpChecks>, t2: &Transaction, c2: Seq<OpChecks>)
    requires
        *t1 == *t2,
        c1 == c2,
    ensures
        effect_of(t1, c1) == effect_of(t2, c2),
{
}

// ---- bind and release ----

/// The outputs that a bind locks.
pub open spec fn bound_outputs(op: &BindAssets) -> Seq<TxOutput> {
    bound_of_bind(op, bind_slots(op.input_liens@, op.transfer.inputs@.len(), op.input_liens@.len()).unwrap())
}

/// The outputs that a release unlocks.
pub open spec fn released_outputs(op: &ReleaseAssets) -> Seq<TxOutput> {
    bound_of_release(
        op,
        lien_slots(
            op.lien_assignments@,
            op.transfer.inputs@.len(),
            op.transfer.outputs@.len(),
            true,
            op.lien_assignments@.len(),
        ).unwrap().0,
    )
}

/// Releasing the contract that a bind just made gives back exactly the
/// records and liens that the bind locked, and spends the contract record.
pub proof fn bind_release_round_trip(
    s0: EffectView,
    s1: EffectView,
    s2: EffectView,
    txn: &Transaction,
    bop: &BindAssets,
    rop: &ReleaseAssets,
    checks: Seq<OpChecks>,
    i: usize,
    j: usize,
)
    requires
        bind_rule(s0, txn, bop, checks, i) == Ok::<EffectView, EffectError>(s1),
        release_rule(s1, txn, rop, checks, j) == Ok::<EffectView, EffectError>(s2),
        rop.contract == TxoRef::Relative(0),
    ensures
        released_outputs(rop) == bound_outputs(bop),
        rop.transfer.inputs@[0] == bop.transfer.outputs@[0],
        s2.txos[s1.txos.len() - 1] is None,
{
    let n = bop.transfer.inputs@.len();
    let ins = bind_slots(bop.input_liens@, n, bop.input_liens@.len()).unwrap();
    let t = authorize(s0, txn, checks, i, bop.body_signatures@, bop.transfer.inputs@, true, n).unwrap();
    lemma_resolve_bind_keeps_len(t, bop, ins, n);
    let (rins, routs) = lien_slots(rop.lien_assignments@, rop.transfer.inputs@.len(), rop.transfer.outputs@.len(), true, rop.lien_assignments@.len()).unwrap();
    let rt = authorize(s1, txn, checks, j, rop.body_signatures@, rop.transfer.inputs@, false, 1).unwrap();
    let last = s1.txos[s1.txos.len() - 1];
    assert(last == Some(TxOutput { id: None, record: bop.transfer.outputs@[0], lien: Some(lien_of(bound_outputs(bop))) }));
    assert(rt.txos == s1.txos);
    lemma_lien_of_injective(bound_of_release(rop, rins), bound_outputs(bop));
    let u = resolve_one(rt, rop.contract, rop.transfer.inputs@[0], Some(lien_of(bound_of_release(rop, rins)))).unwrap();
    lemma_push_outputs_slot(u, rop.transfer.outputs@, rop.lien_assignments@, routs, rop.transfer.outputs@.len(), s1.txos.len() - 1);
}

proof fn lemma_push_outputs_slot(
    s: EffectView,
    outputs: Seq<AssetRecord>,
    assigns: Seq<LienAssignment>,
    outs: Seq<Option<usize>>,
    k: nat,
    ix: int,
)
    requires
        0 <= ix < s.txos.len(),
    ensures
        push_outputs(s, outputs, assigns, outs, k).txos[ix] == s.txos[ix],
    decreases k,
{
    if k > 0 {
        lemma_push_outputs_slot(s, outputs, assigns, outs, (k - 1) as nat, ix);
        lemma_push_outputs_len(s, outputs, assigns, outs, (k - 1) as nat);
    }
}

/// No two transactions of the block share a replay token, and the block's
/// token list follows its transactions.
pub open spec fn tokens_unique(b: BlockView) -> bool {
    &&& b.no_replay_tokens.len() == b.txns.len()
    &&& forall|j: int| 0 <= j < b.txns.len() ==> #[trigger] b.no_replay_tokens[j] == b.txns[j].no_replay_token
    &&& forall|j1: int, j2: int|
        0 <= j1 < b.txns.len() && 0 <= j2 < b.txns.len() && j1 != j2 ==> #[trigger] b.txns[j1].no_replay_token
            != #[trigger] b.txns[j2].no_replay_token
}

/// Admission keeps replay tokens unique within the block.
pub proof fn admission_keeps_tokens_unique(
    b: BlockView,
    e: EffectView,
    txn: Transaction,
    txos: Vec<Option<TxOutput>>,
    b1: BlockView,
)
    requires
        tokens_unique(b),
        admission(b, e, txn, txos) == Ok::<BlockView, AdmissionError>(b1),
    ensures
        tokens_unique(b1),
{
    assert(!replay_conflict(b, txn.no_replay_token));
    assert forall|j1: int, j2: int|
        0 <= j1 < b1.txns.len() && 0 <= j2 < b1.txns.len() && j1 != j2 implies #[trigger] b1.txns[j1].no_replay_token
            != #[trigger] b1.txns[j2].no_replay_token by {
        if j1 < b.txns.len() && j2 < b.txns.len() {
            assert(b1.txns[j1] == b.txns[j1]);
            assert(b1.txns[j2] == b.txns[j2]);
        } else if j1 < b.txns.len() {
            assert(b1.txns[j1] == b.txns[j1]);
        } else {
            assert(b1.txns[j2] == b.txns[j2]);
        }
    }
    assert forall|j: int| 0 <= j < b1.txns.len() implies #[trigger] b1.no_replay_tokens[j] == b1.txns[j].no_replay_token by {
        if j < b.txns.len() {
            assert(b1.txns[j] == b.txns[j]);
            assert(b1.no_replay_tokens[j] == b.no_replay_tokens[j]);
        }
    }
}

// ---- issuance order across a transaction ----

proof fn lemma_resolve_transfer_keeps_nums(s: EffectView, op: &TransferAsset, ins: Seq<Option<usize>>, k: nat)
    requires
        resolve_transfer(s, op, ins, k) is Some,
    ensures
        resolve_transfer(s, op, ins, k).unwrap().new_issuance_nums == s.new_issuance_nums,
    decreases k,
{
    if k > 0 {
        lemma_resolve_transfer_keeps_nums(s, op, ins, (k - 1) as nat);
    }
}

proof fn lemma_resolve_bind_keeps_nums(s: EffectView, op: &BindAssets, ins: Seq<Option<usize>>, k: nat)
    requires
        resolve_bind(s, op, ins, k) is Some,
    ensures
        resolve_bind(s, op, ins, k).unwrap().new_issuance_nums == s.new_issuance_nums,
    decreases k,
{
    if k > 0 {
        lemma_resolve_bind_keeps_nums(s, op, ins, (k - 1) as nat);
    }
}

proof fn lemma_push_outputs_keeps_nums(
    s: EffectView,
    outputs: Seq<AssetRecord>,
    assigns: Seq<LienAssignment>,
    outs: Seq<Option<usize>>,
    k: nat,
)
    ensures
        push_outputs(s, outputs, assigns, outs, k).new_issuance_nums == s.new_issuance_nums,
    decreases k,
{
    if k > 0 {
        lemma_push_outputs_keeps_nums(s, outputs, assigns, outs, (k - 1) as nat);
    }
}

/// The latest sequence number used for a code never goes down.
proof fn lemma_op_keeps_last_num(s: EffectView, txn: &Transaction, checks: Seq<OpChecks>, i: usize, code: u64)
    requires
        i < txn.operations@.len(),
        op_rule(s, txn, checks, i) is Ok,
        has_key(s.new_issuance_nums, code),
    ensures
        has_key(op_rule(s, txn, checks, i).unwrap().new_issuance_nums, code),
        value_at(op_rule(s, txn, checks, i).unwrap().new_issuance_nums, code) >= value_at(s.new_issuance_nums, code),
{
    let t = op_rule(s, txn, checks, i).unwrap();
    match &txn.operations@[i as int] {
        Operation::IssueAsset(op) => {
            issuance_adds_amounts(s, op, checks, i as int, t);
            let nums = s.new_issuance_nums.push((op.code, op.seq_num));
            let sa = EffectView {
                asset_types_involved: crate::tables::set_add(s.asset_types_involved, op.code),
                new_issuance_nums: nums,
                issuance_keys: if has_key(s.issuance_keys, op.code) {
                    s.issuance_keys
                } else {
                    s.issuance_keys.push((op.code, op.signer))
                },
                ..s
            };
            lemma_issue_records_effects(sa, op, op.records@.len());
            lemma_key_index_bounds(s.new_issuance_nums, code);
            if op.code != code {
                assert(nums.drop_last() =~= s.new_issuance_nums);
                assert(key_index(nums, code) == key_index(s.new_issuance_nums, code));
                assert(nums[key_index(nums, code)] == s.new_issuance_nums[key_index(s.new_issuance_nums, code)]);
            }
        },
        Operation::TransferAsset(op) => {
            let body = &op.transfer;
            let (ins, outs) = lien_slots(op.lien_assignments@, body.inputs@.len(), body.outputs@.len(), false, op.lien_assignments@.len()).unwrap();
            let authorized = crate::rules::transfer_authorized(s, txn, op, checks, i).unwrap();
            lemma_resolve_transfer_keeps_nums(authorized, op, ins, body.inputs@.len());
            let u = resolve_transfer(authorized, op, ins, body.inputs@.len()).unwrap();
            lemma_push_outputs_keeps_nums(u, body.outputs@, op.lien_assignments@, outs, body.outputs@.len());
        },
        Operation::BindAssets(op) => {
            let body = &op.transfer;
            let ins = bind_slots(op.input_liens@, body.inputs@.len(), op.input_liens@.len()).unwrap();
            let a = authorize(s, txn, checks, i, op.body_signatures@, body.inputs@, true, body.inputs@.len()).unwrap();
            lemma_resolve_bind_keeps_nums(a, op, ins, body.inputs@.len());
        },
        Operation::ReleaseAssets(op) => {
            let body = &op.transfer;
            let (ins, outs) = lien_slots(op.lien_assignments@, body.inputs@.len(), body.outputs@.len(), true, op.lien_assignments@.len()).unwrap();
            let a = authorize(s, txn, checks, i, op.body_signatures@, body.inputs@, false, 1).unwrap();
            let u = resolve_one(a, op.contract, body.inputs@[0], Some(lien_of(bound_of_release(op, ins)))).unwrap();
            lemma_push_outputs_keeps_nums(u, body.outputs@, op.lien_assignments@, outs, body.outputs@.len());
        },
        _ => {},
    }
}

proof fn lemma_last_num_from(txn: &Transaction, checks: Seq<OpChecks>, m: nat, n: nat, code: u64)
    requires
        m <= n <= txn.operations@.len() <= usize::MAX,
        effect_upto(txn, checks, n) is Ok,
        effect_upto(txn, checks, m) is Ok,
        has_key(effect_upto(txn, checks, m).unwrap().new_issuance_nums, code),
    ensures
        has_key(effect_upto(txn, checks, n).unwrap().new_issuance_nums, code),
        value_at(effect_upto(txn, checks, n).unwrap().new_issuance_nums, code) >= value_at(
            effect_upto(txn, checks, m).unwrap().new_issuance_nums,
            code,
        ),
    decreases n - m,
{
    if m < n {
        if effect_upto(txn, checks, (n - 1) as nat) is Err {
            assert(effect_upto(txn, checks, n) is Err);
        }
        lemma_last_num_from(txn, checks, m, (n - 1) as nat, code);
        lemma_op_keeps_last_num(effect_upto(txn, checks, (n - 1) as nat).unwrap(), txn, checks, (n - 1) as usize, code);
    }
}

/// Within one transaction, a later issuance of an asset whose sequence
/// number is not above an earlier one's makes the transaction fail.
pub proof fn issuance_sequence_increases(txn: &Transaction, checks: Seq<OpChecks>, i: usize, j: usize)
    requires
        i < j < txn.operations@.len() <= usize::MAX,
        txn.operations@[i as int] is IssueAsset,
        txn.operations@[j as int] is IssueAsset,
        txn.operations@[i as int]->IssueAsset_0.code == txn.operations@[j as int]->IssueAsset_0.code,
        txn.operations@[j as int]->IssueAsset_0.seq_num <= txn.operations@[i as int]->IssueAsset_0.seq_num,
    ensures
        effect_of(txn, checks) is Err,
{
    let a = &txn.operations@[i as int]->IssueAsset_0;
    let n = txn.operations@.len();
    if effect_upto(txn, checks, (j + 1) as nat) is Ok {
        if effect_upto(txn, checks, (i + 1) as nat) is Err {
            match effect_upto(txn, checks, (i + 1) as nat) {
                Err(e) => lemma_effect_fails_on(txn, checks, e, (i + 1) as nat, (j + 1) as nat),
                Ok(_) => {},
            }
        }
        if effect_upto(txn, checks, j as nat) is Err {
            assert(effect_upto(txn, checks, (j + 1) as nat) is Err);
        }
        let s0 = effect_upto(txn, checks, i as nat).unwrap();
        let s1 = effect_upto(txn, checks, (i + 1) as nat).unwrap();
        issuance_adds_amounts(s0, a, checks, i as int, s1);
        lemma_last_num_from(txn, checks, (i + 1) as nat, j as nat, a.code);
    }
    match effect_upto(txn, checks, (j + 1) as nat) {
        Err(e) => lemma_effect_fails_on(txn, checks, e, (j + 1) as nat, n),
        Ok(_) => {},
    }
}

// ---- double spend across a transaction ----

proof fn lemma_resolve_bind_keeps_spent(s: EffectView, op: &BindAssets, ins: Seq<Option<usize>>, k: nat, ix: int)
    requires
        resolve_bind(s, op, ins, k) is Some,
        0 <= ix < s.txos.len(),
        s.txos[ix] is None,
    ensures
        resolve_bind(s, op, ins, k).unwrap().txos.len() == s.txos.len(),
        resolve_bind(s, op, ins, k).unwrap().txos[ix] is None,
    decreases k,
{
    if k > 0 {
        lemma_resolve_bind_keeps_spent(s, op, ins, (k - 1) as nat, ix);
    }
}

/// An output spent stays spent whatever operation follows.
proof fn lemma_op_keeps_spent(s: EffectView, txn: &Transaction, checks: Seq<OpChecks>, i: usize, ix: int)
    requires
        i < txn.operations@.len(),
        op_rule(s, txn, checks, i) is Ok,
        0 <= ix < s.txos.len(),
        s.txos[ix] is None,
    ensures
        op_rule(s, txn, checks, i).unwrap().txos[ix] is None,
{
    match &txn.operations@[i as int] {
        Operation::IssueAsset(op) => {
            let sa = EffectView {
                asset_types_involved: crate::tables::set_add(s.asset_types_involved, op.code),
                new_issuance_nums: s.new_issuance_nums.push((op.code, op.seq_num)),
                issuance_keys: if has_key(s.issuance_keys, op.code) {
                    s.issuance_keys
                } else {
                    s.issuance_keys.push((op.code, op.signer))
                },
                ..s
            };
            lemma_issue_records_keeps_prefix(sa, op, op.records@.len(), ix);
        },
        Operation::TransferAsset(op) => {
            let body = &op.transfer;
            let (ins, outs) = lien_slots(op.lien_assignments@, body.inputs@.len(), body.outputs@.len(), false, op.lien_assignments@.len()).unwrap();
            let authorized = crate::rules::transfer_authorized(s, txn, op, checks, i).unwrap();
            lemma_resolve_transfer_keeps_len(authorized, op, ins, body.inputs@.len());
            let u = resolve_transfer(authorized, op, ins, body.inputs@.len()).unwrap();
            lemma_push_outputs_slot(u, body.outputs@, op.lien_assignments@, outs, body.outputs@.len(), ix);
        },
        Operation::BindAssets(op) => {
            let body = &op.transfer;
            let ins = bind_slots(op.input_liens@, body.inputs@.len(), op.input_liens@.len()).unwrap();
            let a = authorize(s, txn, checks, i, op.body_signatures@, body.inputs@, true, body.inputs@.len()).unwrap();
            lemma_resolve_bind_keeps_spent(a, op, ins, body.inputs@.len(), ix);
        },
        Operation::ReleaseAssets(op) => {
            let body = &op.transfer;
            let (ins, outs) = lien_slots(op.lien_assignments@, body.inputs@.len(), body.outputs@.len(), true, op.lien_assignments@.len()).unwrap();
            let a = authorize(s, txn, checks, i, op.body_signatures@, body.inputs@, false, 1).unwrap();
            let u = resolve_one(a, op.contract, body.inputs@[0], Some(lien_of(bound_of_release(op, ins)))).unwrap();
            lemma_push_outputs_slot(u, body.outputs@, op.lien_assignments@, outs, body.outputs@.len(), ix);
        },
        _ => {},
    }
}

proof fn lemma_issue_records_keeps_prefix(s: EffectView, op: &IssueAsset, k: nat, ix: int)
    requires
        issue_records(s, op, k) is Ok,
        0 <= ix < s.txos.len(),
    ensures
        issue_records(s, op, k).unwrap().txos[ix] == s.txos[ix],
    decreases k,
{
    if k > 0 {
        lemma_issue_records_keeps_prefix(s, op, (k - 1) as nat, ix);
        lemma_issue_records_len(s, op, (k - 1) as nat);
    }
}

proof fn lemma_spent_from(txn: &Transaction, checks: Seq<OpChecks>, m: nat, n: nat, ix: int)
    requires
        m <= n <= txn.operations@.len() <= usize::MAX,
        effect_upto(txn, checks, n) is Ok,
        effect_upto(txn, checks, m) is Ok,
        0 <= ix < effect_upto(txn, checks, m).unwrap().txos.len(),
        effect_upto(txn, checks, m).unwrap().txos[ix] is None,
    ensures
        effect_upto(txn, checks, n).unwrap().txos[ix] is None,
    decreases n - m,
{
    if m < n {
        if effect_upto(txn, checks, (n - 1) as nat) is Err {
            assert(effect_upto(txn, checks, n) is Err);
        }
        lemma_spent_from(txn, checks, m, (n - 1) as nat, ix);
        let s = effect_upto(txn, checks, (n - 1) as nat).unwrap();
        lemma_output_count_upto(txn, checks, m);
        lemma_output_count_upto(txn, checks, (n - 1) as nat);
        lemma_declared_mono(txn, m, (n - 1) as nat);
        lemma_op_keeps_spent(s, txn, checks, (n - 1) as usize, ix);
    }
}

proof fn lemma_declared_mono(txn: &Transaction, m: nat, n: nat)
    requires
        m <= n,
    ensures
        declared_upto(txn, m) <= declared_upto(txn, n),
    decreases n - m,
{
    if m < n {
        lemma_declared_mono(txn, m, (n - 1) as nat);
    }
}

/// After a transfer, each output it named by relative position is spent.
proof fn lemma_transfer_spends(s: EffectView, op: &TransferAsset, ins: Seq<Option<usize>>, k: nat, m: nat, offs: u64)
    requires
        k < m,
        op.inputs@[k as int] == TxoRef::Relative(offs),
        resolve_transfer(s, op, ins, m) is Some,
    ensures
        offs < s.txos.len(),
        resolve_transfer(s, op, ins, m).unwrap().txos[s.txos.len() - 1 - offs] is None,
    decreases m,
{
    lemma_resolve_transfer_keeps_len(s, op, ins, m);
    if m == k + 1 {
        lemma_resolve_transfer_keeps_len(s, op, ins, k);
    } else {
        lemma_transfer_spends(s, op, ins, k, (m - 1) as nat, offs);
        let t = resolve_transfer(s, op, ins, (m - 1) as nat).unwrap();
        lemma_resolve_one_keeps_len(t, op.inputs@[m - 1], op.transfer.inputs@[m - 1], crate::rules::slot_lien(op.lien_assignments@, ins[m - 1]));
    }
}

/// Within one transaction, two transfers that name the same output by
/// relative position make the transaction fail. The position that input
/// `k` of operation `i` names is counted from the outputs declared before it.
pub proof fn double_spend_in_transaction_rejected(
    txn: &Transaction,
    checks: Seq<OpChecks>,
    i: usize,
    ki: int,
    j: usize,
    kj: int,
)
    requires
        i < j < txn.operations@.len() <= usize::MAX,
        txn.operations@[i as int] is TransferAsset,
        txn.operations@[j as int] is TransferAsset,
        0 <= ki < txn.operations@[i as int]->TransferAsset_0.inputs@.len(),
        0 <= kj < txn.operations@[j as int]->TransferAsset_0.inputs@.len(),
        txn.operations@[i as int]->TransferAsset_0.inputs@[ki] is Relative,
        txn.operations@[j as int]->TransferAsset_0.inputs@[kj] is Relative,
        declared_upto(txn, i as nat) - 1 - txn.operations@[i as int]->TransferAsset_0.inputs@[ki]->Relative_0
            == declared_upto(txn, j as nat) - 1 - txn.operations@[j as int]->TransferAsset_0.inputs@[kj]->Relative_0,
    ensures
        effect_of(txn, checks) is Err,
{
    let a = &txn.operations@[i as int]->TransferAsset_0;
    let b = &txn.operations@[j as int]->TransferAsset_0;
    let oa = a.inputs@[ki]->Relative_0;
    let ob = b.inputs@[kj]->Relative_0;
    let n = txn.operations@.len();
    if effect_upto(txn, checks, (j + 1) as nat) is Ok {
        if effect_upto(txn, checks, (i + 1) as nat) is Err {
            match effect_upto(txn, checks, (i + 1) as nat) {
                Err(e) => lemma_effect_fails_on(txn, checks, e, (i + 1) as nat, (j + 1) as nat),
                Ok(_) => {},
            }
        }
        if effect_upto(txn, checks, j as nat) is Err {
            assert(effect_upto(txn, checks, (j + 1) as nat) is Err);
        }
        let s0 = effect_upto(txn, checks, i as nat).unwrap();
        lemma_output_count_upto(txn, checks, i as nat);
        lemma_output_count_upto(txn, checks, j as nat);
        // the transfer at i spends the position
        let body = &a.transfer;
        let (ins, outs) = lien_slots(a.lien_assignments@, body.inputs@.len(), body.outputs@.len(), false, a.lien_assignments@.len()).unwrap();
        let authorized = crate::rules::transfer_authorized(s0, txn, a, checks, i).unwrap();
        lemma_transfer_spends(authorized, a, ins, ki as nat, body.inputs@.len(), oa);
        let u = resolve_transfer(authorized, a, ins, body.inputs@.len()).unwrap();
        let ix = s0.txos.len() - 1 - oa;
        lemma_resolve_transfer_keeps_len(authorized, a, ins, body.inputs@.len());
        assert(authorized.txos == s0.txos);
        lemma_push_outputs_slot(u, body.outputs@, a.lien_assignments@, outs, body.outputs@.len(), ix);
        lemma_output_count_upto(txn, checks, (i + 1) as nat);
        lemma_spent_from(txn, checks, (i + 1) as nat, j as nat, ix);
        let sj = effect_upto(txn, checks, j as nat).unwrap();
        double_spend_rejected(sj, txn, b, checks, j, kj, ob);
    }
    match effect_upto(txn, checks, (j + 1) as nat) {
        Err(e) => lemma_effect_fails_on(txn, checks, e, (j + 1) as nat, n),
        Ok(_) => {},
    }
}

// ---- distinct keys ----

/// No two entries share a key.
pub open spec fn keys_distinct<V>(s: Seq<(u64, V)>) -> bool {
    forall|a: int, b: int| 0 <= a < b < s.len() ==> #[trigger] s[a].0 != #[trigger] s[b].0
}

proof fn lemma_push_fresh_key<V>(s: Seq<(u64, V)>, k: u64, v: V)
    requires
        keys_distinct(s),
        !has_key(s, k),
    ensures
        keys_distinct(s.push((k, v))),
{
    lemma_key_index_bounds(s, k);
    let t = s.push((k, v));
    assert forall|a: int, b: int| 0 <= a < b < t.len() implies #[trigger] t[a].0 != #[trigger] t[b].0 by {
        if b < s.len() {
            assert(t[a] == s[a] && t[b] == s[b]);
        } else {
            assert(t[a] == s[a]);
        }
    }
}

proof fn lemma_resolve_one_distinct(s: EffectView, r: TxoRef, record: AssetRecord, lien: Option<crate::model::Lien>)
    requires
        keys_distinct(s.input_txos),
        resolve_one(s, r, record, lien) is Some,
    ensures
        keys_distinct(resolve_one(s, r, record, lien).unwrap().input_txos),
{
    match r {
        TxoRef::Absolute(sid) => lemma_push_fresh_key(s.input_txos, sid, TxOutput { id: None, record, lien }),
        TxoRef::Relative(_) => {},
    }
}

proof fn lemma_resolve_transfer_distinct(s: EffectView, op: &TransferAsset, ins: Seq<Option<usize>>, k: nat)
    requires
        keys_distinct(s.input_txos),
        resolve_transfer(s, op, ins, k) is Some,
    ensures
        keys_distinct(resolve_transfer(s, op, ins, k).unwrap().input_txos),
    decreases k,
{
    if k > 0 {
        lemma_resolve_transfer_distinct(s, op, ins, (k - 1) as nat);
        let t = resolve_transfer(s, op, ins, (k - 1) as nat).unwrap();
        lemma_resolve_one_distinct(t, op.inputs@[k - 1], op.transfer.inputs@[k - 1], crate::rules::slot_lien(op.lien_assignments@, ins[k - 1]));
    }
}

proof fn lemma_resolve_bind_distinct(s: EffectView, op: &BindAssets, ins: Seq<Option<usize>>, k: nat)
    requires
        keys_distinct(s.input_txos),
        resolve_bind(s, op, ins, k) is Some,
    ensures
        keys_distinct(resolve_bind(s, op, ins, k).unwrap().input_txos),
    decreases k,
{
    if k > 0 {
        lemma_resolve_bind_distinct(s, op, ins, (k - 1) as nat);
        let t = resolve_bind(s, op, ins, (k - 1) as nat).unwrap();
        if k - 1 == 0 {
            lemma_resolve_one_distinct(t, op.contract, op.transfer.inputs@[0], None);
        } else {
            lemma_resolve_one_distinct(t, op.inputs@[k - 2], op.transfer.inputs@[k - 1], crate::rules::bind_slot_lien(op.input_liens@, ins[k - 1]));
        }
    }
}






proof fn lemma_concat_distinct<V>(a: Seq<(u64, V)>, b: Seq<(u64, V)>)
    requires
        keys_distinct(a),
        keys_distinct(b),
        forall|i: int| 0 <= i < b.len() ==> !has_key(a, #[trigger] b[i].0),
    ensures
        keys_distinct(a + b),
{
    let c = a + b;
    assert forall|x: int, y: int| 0 <= x < y < c.len() implies #[trigger] c[x].0 != #[trigger] c[y].0 by {
        if y >= a.len() && x < a.len() {
            lemma_key_index_bounds(a, b[y - a.len()].0);
            assert(c[y] == b[y - a.len()]);
            assert(c[x] == a[x]);
        } else if y >= a.len() {
            assert(c[y] == b[y - a.len()]);
            assert(c[x] == b[x - a.len()]);
        } else {
            assert(c[y] == a[y]);
            assert(c[x] == a[x]);
        }
    }
}

/// Admission keeps the block's consumed ledger outputs and defined asset
/// codes each named once, given an effect that names each once.
pub proof fn admission_keeps_claims_distinct(
    b: BlockView,
    e: EffectView,
    txn: Transaction,
    txos: Vec<Option<TxOutput>>,
    b1: BlockView,
)
    requires
        keys_distinct(b.input_txos),
        keys_distinct(b.new_asset_codes),
        keys_distinct(e.input_txos),
        keys_distinct(e.new_asset_codes),
        admission(b, e, txn, txos) == Ok::<BlockView, AdmissionError>(b1),
    ensures
        keys_distinct(b1.input_txos),
        keys_distinct(b1.new_asset_codes),
{
    assert(!crate::block::input_conflict(b, e));
    assert(!crate::block::code_conflict(b, e));
    assert forall|i: int| 0 <= i < e.new_asset_codes.len() implies !has_key(b.new_asset_codes, #[trigger] e.new_asset_codes[i].0) by {
        assert(!crate::block::code_claimed(b, e.new_asset_codes[i].0));
    }
    lemma_concat_distinct(b.input_txos, e.input_txos);
    lemma_concat_distinct(b.new_asset_codes, e.new_asset_codes);
}









// ---- every keyed table of an effect has distinct keys ----

/// The keyed tables of an effect each hold a key at most once.
pub open spec fn tables_distinct(s: EffectView) -> bool {
    &&& keys_distinct(s.input_txos)
    &&& keys_distinct(s.new_asset_codes)
    &&& keys_distinct(s.issuance_keys)
    &&& keys_distinct(s.issuance_amounts)
    &&& keys_distinct(s.tracing_policies)
    &&& keys_distinct(s.debt_effects)
    &&& keys_distinct(s.air_updates)
}

/// The keyed tables other than the consumed outputs are unchanged.
pub open spec fn keyed_frame(s: EffectView, t: EffectView) -> bool {
    &&& t.new_asset_codes == s.new_asset_codes
    &&& t.issuance_keys == s.issuance_keys
    &&& t.issuance_amounts == s.issuance_amounts
    &&& t.tracing_policies == s.tracing_policies
    &&& t.debt_effects == s.debt_effects
    &&& t.air_updates == s.air_updates
}

proof fn lemma_upsert_distinct<V>(t: Seq<(u64, V)>, k: u64, v: V)
    requires
        keys_distinct(t),
    ensures
        keys_distinct(upsert(t, k, v)),
{
    lemma_key_index_bounds(t, k);
    if has_key(t, k) {
        let i = key_index(t, k);
        let u = upsert(t, k, v);
        assert forall|a: int, b: int| 0 <= a < b < u.len() implies #[trigger] u[a].0 != #[trigger] u[b].0 by {
            assert(u[a].0 == t[a].0 && u[b].0 == t[b].0);
        }
    } else {
        lemma_push_fresh_key(t, k, v);
    }
}

proof fn lemma_resolve_transfer_frame(s: EffectView, op: &TransferAsset, ins: Seq<Option<usize>>, k: nat)
    requires
        resolve_transfer(s, op, ins, k) is Some,
    ensures
        keyed_frame(s, resolve_transfer(s, op, ins, k).unwrap()),
    decreases k,
{
    if k > 0 {
        lemma_resolve_transfer_frame(s, op, ins, (k - 1) as nat);
    }
}

proof fn lemma_resolve_bind_frame(s: EffectView, op: &BindAssets, ins: Seq<Option<usize>>, k: nat)
    requires
        resolve_bind(s, op, ins, k) is Some,
    ensures
        keyed_frame(s, resolve_bind(s, op, ins, k).unwrap()),
    decreases k,
{
    if k > 0 {
        lemma_resolve_bind_frame(s, op, ins, (k - 1) as nat);
    }
}

proof fn lemma_push_outputs_frame(
    s: EffectView,
    outputs: Seq<AssetRecord>,
    assigns: Seq<LienAssignment>,
    outs: Seq<Option<usize>>,
    k: nat,
)
    ensures
        keyed_frame(s, push_outputs(s, outputs, assigns, outs, k)),
        push_outputs(s, outputs, assigns, outs, k).input_txos == s.input_txos,
    decreases k,
{
    if k > 0 {
        lemma_push_outputs_frame(s, outputs, assigns, outs, (k - 1) as nat);
    }
}

proof fn lemma_issue_records_distinct(s: EffectView, op: &IssueAsset, k: nat)
    requires
        tables_distinct(s),
        issue_records(s, op, k) is Ok,
    ensures
        tables_distinct(issue_records(s, op, k).unwrap()),
    decreases k,
{
    if k > 0 {
        lemma_issue_records_distinct(s, op, (k - 1) as nat);
        let t = issue_records(s, op, (k - 1) as nat).unwrap();
        match op.records@[k - 1].record.amount {
            XfrAmount::NonConfidential(a) => lemma_upsert_distinct(t.issuance_amounts, op.code, (issued(t, op.code) + a) as u64),
            XfrAmount::Confidential(_) => {},
        }
    }
}

proof fn lemma_trace_stage_distinct(tp: Seq<(u64, u64)>, pairs: Seq<(u64, AssetRecord)>, k: nat)
    requires
        keys_distinct(tp),
        crate::rules::trace_stage(tp, pairs, k) is Some,
    ensures
        keys_distinct(crate::rules::trace_stage(tp, pairs, k).unwrap()),
    decreases k,
{
    if k > 0 {
        lemma_trace_stage_distinct(tp, pairs, (k - 1) as nat);
        let t = crate::rules::trace_stage(tp, pairs, (k - 1) as nat).unwrap();
        match pairs[k - 1].1.asset_type.code() {
            Some(c) => lemma_upsert_distinct(t, c, pairs[k - 1].0),
            None => {},
        }
    }
}

proof fn lemma_op_tables_distinct(s: EffectView, txn: &Transaction, checks: Seq<OpChecks>, i: usize)
    requires
        i < txn.operations@.len(),
        op_rule(s, txn, checks, i) is Ok,
        tables_distinct(s),
    ensures
        tables_distinct(op_rule(s, txn, checks, i).unwrap()),
{
    match &txn.operations@[i as int] {
        Operation::DefineAsset(op) => {
            lemma_push_fresh_key(s.new_asset_codes, op.asset.code, op.asset);
            lemma_upsert_distinct(s.issuance_keys, op.asset.code, op.asset.issuer);
        },
        Operation::IssueAsset(op) => {
            let sa = EffectView {
                asset_types_involved: crate::tables::set_add(s.asset_types_involved, op.code),
                new_issuance_nums: s.new_issuance_nums.push((op.code, op.seq_num)),
                issuance_keys: if has_key(s.issuance_keys, op.code) {
                    s.issuance_keys
                } else {
                    s.issuance_keys.push((op.code, op.signer))
                },
                ..s
            };
            if !has_key(s.issuance_keys, op.code) {
                lemma_push_fresh_key(s.issuance_keys, op.code, op.signer);
            }
            lemma_issue_records_distinct(sa, op, op.records@.len());
        },
        Operation::TransferAsset(op) => {
            let body = &op.transfer;
            let (ins, outs) = lien_slots(op.lien_assignments@, body.inputs@.len(), body.outputs@.len(), false, op.lien_assignments@.len()).unwrap();
            let authorized = crate::rules::transfer_authorized(s, txn, op, checks, i).unwrap();
            match op.transfer_type {
                crate::model::TransferType::DebtSwap => {
                    let d = crate::rules::debt_of(checks, i as int).unwrap();
                    lemma_push_fresh_key(s.debt_effects, d.debt_type, d.effect);
                },
                crate::model::TransferType::Standard => {
                    let a = authorize(s, txn, checks, i, op.body_signatures@, body.inputs@, false, body.inputs@.len()).unwrap();
                    lemma_trace_stage_distinct(a.tracing_policies, crate::rules::trace_pairs(body), crate::rules::trace_pairs(body).len());
                },
            }
            lemma_resolve_transfer_distinct(authorized, op, ins, body.inputs@.len());
            lemma_resolve_transfer_frame(authorized, op, ins, body.inputs@.len());
            let u = resolve_transfer(authorized, op, ins, body.inputs@.len()).unwrap();
            lemma_push_outputs_frame(u, body.outputs@, op.lien_assignments@, outs, body.outputs@.len());
        },
        Operation::BindAssets(op) => {
            let body = &op.transfer;
            let ins = bind_slots(op.input_liens@, body.inputs@.len(), op.input_liens@.len()).unwrap();
            let a = authorize(s, txn, checks, i, op.body_signatures@, body.inputs@, true, body.inputs@.len()).unwrap();
            lemma_resolve_bind_distinct(a, op, ins, body.inputs@.len());
            lemma_resolve_bind_frame(a, op, ins, body.inputs@.len());
        },
        Operation::ReleaseAssets(op) => {
            let body = &op.transfer;
            let (ins, outs) = lien_slots(op.lien_assignments@, body.inputs@.len(), body.outputs@.len(), true, op.lien_assignments@.len()).unwrap();
            let a = authorize(s, txn, checks, i, op.body_signatures@, body.inputs@, false, 1).unwrap();
            lemma_resolve_one_distinct(a, op.contract, body.inputs@[0], Some(lien_of(bound_of_release(op, ins))));
            let u = resolve_one(a, op.contract, body.inputs@[0], Some(lien_of(bound_of_release(op, ins)))).unwrap();
            lemma_push_outputs_frame(u, body.outputs@, op.lien_assignments@, outs, body.outputs@.len());
        },
        Operation::AIRAssign(op) => {
            lemma_upsert_distinct(s.air_updates, op.addr, op.data);
        },
        _ => {},
    }
}

proof fn lemma_tables_distinct_upto(txn: &Transaction, checks: Seq<OpChecks>, n: nat)
    requires
        n <= txn.operations@.len() <= usize::MAX,
        effect_upto(txn, checks, n) is Ok,
    ensures
        tables_distinct(effect_upto(txn, checks, n).unwrap()),
    decreases n,
{
    if n > 0 {
        lemma_tables_distinct_upto(txn, checks, (n - 1) as nat);
        lemma_op_tables_distinct(effect_upto(txn, checks, (n - 1) as nat).unwrap(), txn, checks, (n - 1) as usize);
    }
}

/// Each keyed table of an effect names a key at most once: consumed ledger
/// outputs, defined codes, issuing keys, issued totals, tracing policies,
/// debt-swap effects and identity-registry updates.
pub proof fn effect_tables_distinct(txn: &Transaction, checks: Seq<OpChecks>)
    requires
        txn.operations@.len() <= usize::MAX,
        effect_of(txn, checks) is Ok,
    ensures
        tables_distinct(effect_of(txn, checks).unwrap()),
{
    lemma_tables_distinct_upto(txn, checks, txn.operations@.len());
}

// ---- spent outputs, whoever spent them ----

/// An output that is spent after operations `0..m`, by whatever operation,
/// cannot be named again by a later transfer: the transaction fails. The
/// position an input names is counted from the outputs declared before its
/// operation.
pub proof fn spent_output_not_spent_again(
    txn: &Transaction,
    checks: Seq<OpChecks>,
    m: nat,
    ix: int,
    j: usize,
    kj: int,
)
    requires
        m <= j < txn.operations@.len() <= usize::MAX,
        effect_upto(txn, checks, m) is Ok,
        0 <= ix < effect_upto(txn, checks, m).unwrap().txos.len(),
        effect_upto(txn, checks, m).unwrap().txos[ix] is None,
        txn.operations@[j as int] is TransferAsset,
        0 <= kj < txn.operations@[j as int]->TransferAsset_0.inputs@.len(),
        txn.operations@[j as int]->TransferAsset_0.inputs@[kj] is Relative,
        declared_upto(txn, j as nat) - 1 - txn.operations@[j as int]->TransferAsset_0.inputs@[kj]->Relative_0 == ix,
    ensures
        effect_of(txn, checks) is Err,
{
    let b = &txn.operations@[j as int]->TransferAsset_0;
    let n = txn.operations@.len();
    if effect_upto(txn, checks, (j + 1) as nat) is Ok {
        if effect_upto(txn, checks, j as nat) is Err {
            assert(effect_upto(txn, checks, (j + 1) as nat) is Err);
        }
        lemma_spent_from(txn, checks, m, j as nat, ix);
        lemma_output_count_upto(txn, checks, j as nat);
        let sj = effect_upto(txn, checks, j as nat).unwrap();
        double_spend_rejected(sj, txn, b, checks, j, kj, b.inputs@[kj]->Relative_0);
    }
    match effect_upto(txn, checks, (j + 1) as nat) {
        Err(e) => lemma_effect_fails_on(txn, checks, e, (j + 1) as nat, n),
        Ok(_) => {},
    }
}

// ---- outputs are only ever spent, never rewritten ----

proof fn lemma_resolve_transfer_kept_or_spent(s: EffectView, op: &TransferAsset, ins: Seq<Option<usize>>, k: nat, ix: int)
    requires
        resolve_transfer(s, op, ins, k) is Some,
        0 <= ix < s.txos.len(),
    ensures
        resolve_transfer(s, op, ins, k).unwrap().txos.len() == s.txos.len(),
        resolve_transfer(s, op, ins, k).unwrap().txos[ix] == s.txos[ix]
            || resolve_transfer(s, op, ins, k).unwrap().txos[ix] is None,
    decreases k,
{
    if k > 0 {
        lemma_resolve_transfer_kept_or_spent(s, op, ins, (k - 1) as nat, ix);
        lemma_resolve_transfer_keeps_len(s, op, ins, (k - 1) as nat);
    }
}

proof fn lemma_resolve_bind_kept_or_spent(s: EffectView, op: &BindAssets, ins: Seq<Option<usize>>, k: nat, ix: int)
    requires
        resolve_bind(s, op, ins, k) is Some,
        0 <= ix < s.txos.len(),
    ensures
        resolve_bind(s, op, ins, k).unwrap().txos.len() == s.txos.len(),
        resolve_bind(s, op, ins, k).unwrap().txos[ix] == s.txos[ix]
            || resolve_bind(s, op, ins, k).unwrap().txos[ix] is None,
    decreases k,
{
    if k > 0 {
        lemma_resolve_bind_kept_or_spent(s, op, ins, (k - 1) as nat, ix);
    }
}

proof fn lemma_op_kept_or_spent(s: EffectView, txn: &Transaction, checks: Seq<OpChecks>, i: usize, ix: int)
    requires
        i < txn.operations@.len(),
        op_rule(s, txn, checks, i) is Ok,
        0 <= ix < s.txos.len(),
    ensures
        op_rule(s, txn, checks, i).unwrap().txos[ix] == s.txos[ix] || op_rule(s, txn, checks, i).unwrap().txos[ix] is None,
{
    match &txn.operations@[i as int] {
        Operation::IssueAsset(op) => {
            let sa = EffectView {
                asset_types_involved: crate::tables::set_add(s.asset_types_involved, op.code),
                new_issuance_nums: s.new_issuance_nums.push((op.code, op.seq_num)),
                issuance_keys: if has_key(s.issuance_keys, op.code) {
                    s.issuance_keys
                } else {
                    s.issuance_keys.push((op.code, op.signer))
                },
                ..s
            };
            lemma_issue_records_keeps_prefix(sa, op, op.records@.len(), ix);
        },
        Operation::TransferAsset(op) => {
            let body = &op.transfer;
            let (ins, outs) = lien_slots(op.lien_assignments@, body.inputs@.len(), body.outputs@.len(), false, op.lien_assignments@.len()).unwrap();
            let authorized = crate::rules::transfer_authorized(s, txn, op, checks, i).unwrap();
            lemma_resolve_transfer_kept_or_spent(authorized, op, ins, body.inputs@.len(), ix);
            let u = resolve_transfer(authorized, op, ins, body.inputs@.len()).unwrap();
            lemma_push_outputs_slot(u, body.outputs@, op.lien_assignments@, outs, body.outputs@.len(), ix);
        },
        Operation::BindAssets(op) => {
            let body = &op.transfer;
            let ins = bind_slots(op.input_liens@, body.inputs@.len(), op.input_liens@.len()).unwrap();
            let a = authorize(s, txn, checks, i, op.body_signatures@, body.inputs@, true, body.inputs@.len()).unwrap();
            lemma_resolve_bind_kept_or_spent(a, op, ins, body.inputs@.len(), ix);
        },
        Operation::ReleaseAssets(op) => {
            let body = &op.transfer;
            let (ins, outs) = lien_slots(op.lien_assignments@, body.inputs@.len(), body.outputs@.len(), true, op.lien_assignments@.len()).unwrap();
            let a = authorize(s, txn, checks, i, op.body_signatures@, body.inputs@, false, 1).unwrap();
            let u = resolve_one(a, op.contract, body.inputs@[0], Some(lien_of(bound_of_release(op, ins)))).unwrap();
            lemma_push_outputs_slot(u, body.outputs@, op.lien_assignments@, outs, body.outputs@.len(), ix);
        },
        _ => {},
    }
}

proof fn lemma_kept_or_spent_from(txn: &Transaction, checks: Seq<OpChecks>, m: nat, n: nat, ix: int)
    requires
        m <= n <= txn.operations@.len() <= usize::MAX,
        effect_upto(txn, checks, n) is Ok,
        effect_upto(txn, checks, m) is Ok,
        0 <= ix < effect_upto(txn, checks, m).unwrap().txos.len(),
    ensures
        effect_upto(txn, checks, n).unwrap().txos[ix] == effect_upto(txn, checks, m).unwrap().txos[ix]
            || effect_upto(txn, checks, n).unwrap().txos[ix] is None,
    decreases n - m,
{
    if m < n {
        if effect_upto(txn, checks, (n - 1) as nat) is Err {
            assert(effect_upto(txn, checks, n) is Err);
        }
        lemma_kept_or_spent_from(txn, checks, m, (n - 1) as nat, ix);
        let s = effect_upto(txn, checks, (n - 1) as nat).unwrap();
        lemma_output_count_upto(txn, checks, m);
        lemma_output_count_upto(txn, checks, (n - 1) as nat);
        lemma_declared_mono(txn, m, (n - 1) as nat);
        if s.txos[ix] is None {
            lemma_op_keeps_spent(s, txn, checks, (n - 1) as usize, ix);
        } else {
            lemma_op_kept_or_spent(s, txn, checks, (n - 1) as usize, ix);
        }
    }
}

/// The output a bind makes: its contract record under a lien over what it binds.
pub open spec fn bind_output(op: &BindAssets) -> TxOutput {
    TxOutput { id: None, record: op.transfer.outputs@[0], lien: Some(lien_of(bound_outputs(op))) }
}

/// A release anywhere later in the transaction whose contract names the
/// output of a bind gives back exactly the records and liens that the bind
/// locked, and its contract record is the bind's.
pub proof fn bind_release_round_trip_in_transaction(txn: &Transaction, checks: Seq<OpChecks>, b: usize, r: usize)
    requires
        b < r < txn.operations@.len() <= usize::MAX,
        txn.operations@[b as int] is BindAssets,
        txn.operations@[r as int] is ReleaseAssets,
        txn.operations@[r as int]->ReleaseAssets_0.contract is Relative,
        declared_upto(txn, r as nat) - 1 - txn.operations@[r as int]->ReleaseAssets_0.contract->Relative_0
            == declared_upto(txn, b as nat),
        effect_of(txn, checks) is Ok,
    ensures
        released_outputs(&txn.operations@[r as int]->ReleaseAssets_0) == bound_outputs(
            &txn.operations@[b as int]->BindAssets_0,
        ),
        txn.operations@[r as int]->ReleaseAssets_0.transfer.inputs@[0]
            == txn.operations@[b as int]->BindAssets_0.transfer.outputs@[0],
{
    let bop = &txn.operations@[b as int]->BindAssets_0;
    let rop = &txn.operations@[r as int]->ReleaseAssets_0;
    let n = txn.operations@.len();
    lemma_effect_ok_prefix(txn, checks, (r + 1) as nat, n);
    lemma_effect_ok_prefix(txn, checks, (b + 1) as nat, (r + 1) as nat);
    lemma_effect_ok_prefix(txn, checks, r as nat, (r + 1) as nat);
    lemma_effect_ok_prefix(txn, checks, b as nat, (b + 1) as nat);
    let s0 = effect_upto(txn, checks, b as nat).unwrap();
    let s1 = effect_upto(txn, checks, (b + 1) as nat).unwrap();
    lemma_output_count_upto(txn, checks, b as nat);
    lemma_output_count_upto(txn, checks, (b + 1) as nat);
    let ix = s0.txos.len() as int;
    // the bind leaves its output at position `ix`
    let nb = bop.transfer.inputs@.len();
    let ins = bind_slots(bop.input_liens@, nb, bop.input_liens@.len()).unwrap();
    let t = authorize(s0, txn, checks, b, bop.body_signatures@, bop.transfer.inputs@, true, nb).unwrap();
    lemma_resolve_bind_keeps_len(t, bop, ins, nb);
    assert(s1.txos[ix] == Some(bind_output(bop)));
    // it is still there, or spent, when the release runs
    lemma_kept_or_spent_from(txn, checks, (b + 1) as nat, r as nat, ix);
    let sr = effect_upto(txn, checks, r as nat).unwrap();
    lemma_output_count_upto(txn, checks, r as nat);
    let (rins, routs) = lien_slots(rop.lien_assignments@, rop.transfer.inputs@.len(), rop.transfer.outputs@.len(), true, rop.lien_assignments@.len()).unwrap();
    let rt = authorize(sr, txn, checks, r, rop.body_signatures@, rop.transfer.inputs@, false, 1).unwrap();
    assert(rt.txos == sr.txos);
    assert(sr.txos[ix] == Some(bind_output(bop)));
    lemma_lien_of_injective(bound_of_release(rop, rins), bound_outputs(bop));
}

proof fn lemma_effect_ok_prefix(txn: &Transaction, checks: Seq<OpChecks>, k: nat, m: nat)
    requires
        k <= m,
        effect_upto(txn, checks, m) is Ok,
    ensures
        effect_upto(txn, checks, k) is Ok,
{
    match effect_upto(txn, checks, k) {
        Err(e) => lemma_effect_fails_on(txn, checks, e, k, m),
        Ok(_) => {},
    }
}

/// Conversely, a contract that still holds a bind's output passes the
/// release's lien check when the release names the bound records again.
pub proof fn release_lien_check_passes(s: EffectView, bop: &BindAssets, rop: &ReleaseAssets, offs: u64)
    requires
        rop.contract == TxoRef::Relative(offs),
        offs < s.txos.len(),
        s.txos[s.txos.len() - 1 - offs] == Some(bind_output(bop)),
        rop.transfer.inputs@.len() >= 1,
        rop.transfer.inputs@[0] == bop.transfer.outputs@[0],
        released_outputs(rop) == bound_outputs(bop),
    ensures
        resolve_one(s, rop.contract, rop.transfer.inputs@[0], Some(lien_of(released_outputs(rop)))) is Some,
{
}

// ---- the rules, stated directly ----

/// A code defined earlier in the transaction cannot be defined again.
pub proof fn second_definition_fails(s: EffectView, op: &crate::model::DefineAsset, checks: Seq<OpChecks>, i: int)
    requires
        has_key(s.new_asset_codes, op.asset.code),
    ensures
        crate::rules::define_rule(s, op, checks, i) is Err,
{
}

/// A transfer whose declared output records differ from its body's fails.
pub proof fn mismatched_outputs_fail(
    s: EffectView,
    txn: &Transaction,
    op: &TransferAsset,
    checks: Seq<OpChecks>,
    i: usize,
    j: int,
)
    requires
        0 <= j < op.outputs@.len(),
        j < op.transfer.outputs@.len(),
        op.outputs@[j].record != op.transfer.outputs@[j],
    ensures
        transfer_rule(s, txn, op, checks, i) == Err::<EffectView, EffectError>(EffectError::Inputs),
{
    assert(!crate::rules::outputs_match(op));
}

proof fn lemma_lien_slots_guard(assigns: Seq<LienAssignment>, n_in: nat, n_out: nat, k: nat, m: nat)
    requires
        k < m,
        assigns[k as int].input_idx == 0,
    ensures
        lien_slots(assigns, n_in, n_out, true, m) is None,
    decreases m,
{
    if m > k + 1 {
        lemma_lien_slots_guard(assigns, n_in, n_out, k, (m - 1) as nat);
    }
}

/// A release cannot put a lien on its contract input.
pub proof fn release_lien_on_contract_fails(
    s: EffectView,
    txn: &Transaction,
    op: &ReleaseAssets,
    checks: Seq<OpChecks>,
    i: usize,
    k: int,
)
    requires
        0 <= k < op.lien_assignments@.len(),
        op.lien_assignments@[k].input_idx == 0,
    ensures
        release_rule(s, txn, op, checks, i) is Err,
{
    lemma_lien_slots_guard(op.lien_assignments@, op.transfer.inputs@.len(), op.transfer.outputs@.len(), k as nat, op.lien_assignments@.len());
}

// ---- well-formed issuances succeed ----

/// Every record is a simple plaintext output of the issued code, owned by
/// the signer, and there are as many as declared.
pub open spec fn simple_issuance(op: &IssueAsset) -> bool {
    &&& op.num_outputs == op.records@.len()
    &&& forall|k: int|
        0 <= k < op.records@.len() ==> {
            let o = #[trigger] op.records@[k];
            &&& o.id is None
            &&& o.lien is None
            &&& o.record.public_key == op.signer
            &&& o.record.asset_type == crate::model::XfrAssetType::NonConfidential(op.code)
            &&& o.record.amount is NonConfidential
        }
}

proof fn lemma_plain_total_prefix(records: Seq<TxOutput>, k: nat)
    requires
        k <= records.len(),
    ensures
        plain_total(records.subrange(0, k as int)) <= plain_total(records),
        0 <= plain_total(records.subrange(0, k as int)),
    decreases records.len() - k,
{
    if k < records.len() {
        lemma_plain_total_prefix(records, (k + 1) as nat);
        assert(records.subrange(0, (k + 1) as int).drop_last() =~= records.subrange(0, k as int));
        lemma_plain_total_nonneg(records.subrange(0, k as int));
    } else {
        assert(records.subrange(0, k as int) =~= records);
        lemma_plain_total_nonneg(records);
    }
}

proof fn lemma_plain_total_nonneg(records: Seq<TxOutput>)
    ensures
        0 <= plain_total(records),
    decreases records.len(),
{
    if records.len() > 0 {
        lemma_plain_total_nonneg(records.drop_last());
    }
}

proof fn lemma_simple_records_succeed(s: EffectView, op: &IssueAsset, k: nat)
    requires
        simple_issuance(op),
        k <= op.records@.len(),
        issued(s, op.code) + plain_total(op.records@) <= u64::MAX,
    ensures
        issue_records(s, op, k) is Ok,
    decreases k,
{
    if k > 0 {
        lemma_simple_records_succeed(s, op, (k - 1) as nat);
        lemma_issue_records_effects(s, op, (k - 1) as nat);
        lemma_plain_total_prefix(op.records@, k);
        assert(op.records@.subrange(0, k as int).drop_last() =~= op.records@.subrange(0, k - 1));
        let o = op.records@[k - 1];
        assert(op.records@.subrange(0, k as int).last() == o);
    }
}

/// Two simple issuances of one code by its issuer, the second with the
/// larger sequence number, both succeed when the issued total fits, and the
/// total grows by both.
pub proof fn increasing_issuances_succeed(
    s: EffectView,
    op1: &IssueAsset,
    op2: &IssueAsset,
    checks: Seq<OpChecks>,
    i: int,
    j: int,
)
    requires
        simple_issuance(op1),
        simple_issuance(op2),
        op1.code == op2.code,
        op1.signer == op2.signer,
        op1.seq_num < op2.seq_num,
        crate::rules::sig_ok(checks, i),
        crate::rules::sig_ok(checks, j),
        !has_key(s.new_issuance_nums, op1.code) || value_at(s.new_issuance_nums, op1.code) < op1.seq_num,
        !has_key(s.issuance_keys, op1.code) || value_at(s.issuance_keys, op1.code) == op1.signer,
        issued(s, op1.code) + plain_total(op1.records@) + plain_total(op2.records@) <= u64::MAX,
    ensures
        issue_rule(s, op1, checks, i) is Ok,
        issue_rule(issue_rule(s, op1, checks, i).unwrap(), op2, checks, j) is Ok,
        issued(issue_rule(issue_rule(s, op1, checks, i).unwrap(), op2, checks, j).unwrap(), op1.code)
            == issued(s, op1.code) + plain_total(op1.records@) + plain_total(op2.records@),
{
    let code = op1.code;
    lemma_plain_total_nonneg(op1.records@);
    lemma_plain_total_nonneg(op2.records@);
    let sa = EffectView {
        asset_types_involved: crate::tables::set_add(s.asset_types_involved, code),
        new_issuance_nums: s.new_issuance_nums.push((code, op1.seq_num)),
        issuance_keys: if has_key(s.issuance_keys, code) {
            s.issuance_keys
        } else {
            s.issuance_keys.push((code, op1.signer))
        },
        ..s
    };
    lemma_simple_records_succeed(sa, op1, op1.records@.len());
    let s1 = issue_rule(s, op1, checks, i).unwrap();
    issuance_adds_amounts(s, op1, checks, i, s1);
    lemma_issue_records_keys(sa, op1, op1.records@.len());
    // the issuing key is now recorded as op1's signer
    if !has_key(s.issuance_keys, code) {
        lemma_upsert_push_absent(s.issuance_keys, code, op1.signer);
    }
    assert(has_key(s1.issuance_keys, code) && value_at(s1.issuance_keys, code) == op1.signer);
    let sb = EffectView {
        asset_types_involved: crate::tables::set_add(s1.asset_types_involved, code),
        new_issuance_nums: s1.new_issuance_nums.push((code, op2.seq_num)),
        issuance_keys: s1.issuance_keys,
        ..s1
    };
    lemma_simple_records_succeed(sb, op2, op2.records@.len());
    issuance_adds_amounts(s1, op2, checks, j, issue_rule(s1, op2, checks, j).unwrap());
}

proof fn lemma_upsert_push_absent(t: Seq<(u64, u64)>, k: u64, v: u64)
    requires
        !has_key(t, k),
    ensures
        has_key(t.push((k, v)), k),
        value_at(t.push((k, v)), k) == v,
{
    assert(t.push((k, v)).last() == (k, v));
}

proof fn lemma_issue_records_keys(s: EffectView, op: &IssueAsset, k: nat)
    requires
        issue_records(s, op, k) is Ok,
    ensures
        issue_records(s, op, k).unwrap().issuance_keys == s.issuance_keys,
    decreases k,
{
    if k > 0 {
        lemma_issue_records_keys(s, op, (k - 1) as nat);
    }
}

/// A transaction of two simple issuances of one code by one key, with
/// increasing sequence numbers and valid signatures, has an effect; its
/// issued total is the sum of both.
pub proof fn two_issuance_transaction_succeeds(txn: &Transaction, checks: Seq<OpChecks>)
    requires
        txn.operations@.len() == 2,
        txn.operations@[0] is IssueAsset,
        txn.operations@[1] is IssueAsset,
        simple_issuance(&txn.operations@[0]->IssueAsset_0),
        simple_issuance(&txn.operations@[1]->IssueAsset_0),
        txn.operations@[0]->IssueAsset_0.code == txn.operations@[1]->IssueAsset_0.code,
        txn.operations@[0]->IssueAsset_0.signer == txn.operations@[1]->IssueAsset_0.signer,
        txn.operations@[0]->IssueAsset_0.seq_num < txn.operations@[1]->IssueAsset_0.seq_num,
        crate::rules::sig_ok(checks, 0),
        crate::rules::sig_ok(checks, 1),
        plain_total(txn.operations@[0]->IssueAsset_0.records@) + plain_total(
            txn.operations@[1]->IssueAsset_0.records@,
        ) <= u64::MAX,
    ensures
        effect_of(txn, checks) is Ok,
        issued(effect_of(txn, checks).unwrap(), txn.operations@[0]->IssueAsset_0.code) == plain_total(
            txn.operations@[0]->IssueAsset_0.records@,
        ) + plain_total(txn.operations@[1]->IssueAsset_0.records@),
{
    let op1 = &txn.operations@[0]->IssueAsset_0;
    let op2 = &txn.operations@[1]->IssueAsset_0;
    let e = crate::rules::empty_view();
    assert(!has_key(e.issuance_amounts, op1.code));
    increasing_issuances_succeed(e, op1, op2, checks, 0, 1);
    assert(effect_upto(txn, checks, 0) == Ok::<EffectView, EffectError>(e));
    assert(op_rule(e, txn, checks, 0) == issue_rule(e, op1, checks, 0));
    assert(effect_upto(txn, checks, 1) == issue_rule(e, op1, checks, 0));
    let s1 = issue_rule(e, op1, checks, 0).unwrap();
    assert(op_rule(s1, txn, checks, 1) == issue_rule(s1, op2, checks, 1));
    assert(effect_upto(txn, checks, 2) == issue_rule(issue_rule(e, op1, checks, 0).unwrap(), op2, checks, 1));
}

} // verus!
