//! What each operation requires and what it adds, over a model of the
//! transaction-local accumulators.
use vstd::prelude::*;
use crate::model::{
    AirAssign, AssetDefinition, AssetRecord, BindAssets, BodySignature, DebtSwap, DefineAsset,
    InputLien, IssueAsset, KvUpdate, Lien, LienAssignment, OpChecks, Operation, ReleaseAssets,
    Transaction, TransferAsset, TransferType, TxOutput, TxoRef, UpdateMemo, XfrAmount,
    XfrAssetType, XfrBody, lien_of,
};
use crate::tables::{has_key, set_add, set_union, upsert, value_at};

verus! {

/// Why a transaction has no effect.
#[derive(Clone, Copy, Debug, PartialEq, Eq, Structural)]
pub enum EffectError {
    /// A malformed or inconsistent operation.
    Inputs,
    /// A signature, proof or commitment did not verify.
    Crypto,
    /// A policy rejected the transaction.
    Policy,
    /// A plaintext issuance total does not fit in 64 bits.
    IssuanceOverflow,
}

/// The accumulators, as values.
pub struct EffectView {
    pub txos: Seq<Option<TxOutput>>,
    pub input_txos: Seq<(u64, TxOutput)>,
    pub internally_spent_txos: Seq<TxOutput>,
    pub new_asset_codes: Seq<(u64, AssetDefinition)>,
    pub new_issuance_nums: Seq<(u64, u64)>,
    pub issuance_keys: Seq<(u64, u64)>,
    pub issuance_amounts: Seq<(u64, u64)>,
    pub confidential_issuance_types: Seq<u64>,
    pub cosig_slots: Seq<(usize, usize)>,
    pub cosig_keys: Seq<(usize, usize, u64)>,
    pub debt_effects: Seq<(u64, u64)>,
    pub confidential_transfer_inputs: Seq<u64>,
    pub tracing_policies: Seq<(u64, u64)>,
    pub asset_types_involved: Seq<u64>,
    pub air_updates: Seq<(u64, u64)>,
    pub kv_updates: Seq<KvUpdate>,
    pub memo_updates: Seq<(u64, u64, u64)>,
}

pub open spec fn empty_view() -> EffectView {
    EffectView {
        txos: Seq::empty(),
        input_txos: Seq::empty(),
        internally_spent_txos: Seq::empty(),
        new_asset_codes: Seq::empty(),
        new_issuance_nums: Seq::empty(),
        issuance_keys: Seq::empty(),
        issuance_amounts: Seq::empty(),
        confidential_issuance_types: Seq::empty(),
        cosig_slots: Seq::empty(),
        cosig_keys: Seq::empty(),
        debt_effects: Seq::empty(),
        confidential_transfer_inputs: Seq::empty(),
        tracing_policies: Seq::empty(),
        asset_types_involved: Seq::empty(),
        air_updates: Seq::empty(),
        kv_updates: Seq::empty(),
        memo_updates: Seq::empty(),
    }
}

// ---- verifier outcomes ----

pub open spec fn sig_ok(checks: Seq<OpChecks>, i: int) -> bool {
    0 <= i < checks.len() && checks[i].signature_valid
}

pub open spec fn proof_ok(checks: Seq<OpChecks>, i: int) -> bool {
    0 <= i < checks.len() && checks[i].proof_valid
}

pub open spec fn policy_ok(checks: Seq<OpChecks>, i: int) -> bool {
    0 <= i < checks.len() && checks[i].policy_passed
}

pub open spec fn body_sig_ok(checks: Seq<OpChecks>, i: int, k: int) -> bool {
    0 <= i < checks.len() && 0 <= k < checks[i].body_signatures_valid@.len()
        && checks[i].body_signatures_valid@[k]
}

pub open spec fn debt_of(checks: Seq<OpChecks>, i: int) -> Option<DebtSwap> {
    if 0 <= i < checks.len() {
        checks[i].debt_swap
    } else {
        None
    }
}

pub open spec fn is_custom(txn: &Transaction, code: u64) -> bool {
    exists|j: int| 0 <= j < txn.policy_options@.len() && #[trigger] txn.policy_options@[j].0 == code
}

// ---- shared stages ----

/// Body signatures `0..k`: each must verify; one naming an input records a
/// co-signer of `(op_idx, input)`, any other adds its key to the signers.
pub open spec fn sig_stage(
    sigs: Seq<BodySignature>,
    checks: Seq<OpChecks>,
    op_idx: usize,
    slots: Seq<(usize, usize)>,
    keys: Seq<(usize, usize, u64)>,
    k: nat,
) -> Option<(Seq<(usize, usize)>, Seq<(usize, usize, u64)>, Seq<u64>)>
    decreases k,
{
    if k == 0 {
        Some((slots, keys, Seq::empty()))
    } else {
        match sig_stage(sigs, checks, op_idx, slots, keys, (k - 1) as nat) {
            None => None,
            Some((a, b, c)) => {
                let sig = sigs[k - 1];
                if !body_sig_ok(checks, op_idx as int, k - 1) {
                    None
                } else {
                    match sig.input_idx {
                        Some(ii) => Some(
                            (set_add(a, (op_idx, ii)), set_add(b, (op_idx, ii, sig.address)), c),
                        ),
                        None => Some((a, b, set_add(c, sig.address))),
                    }
                }
            },
        }
    }
}

/// Inputs `0..k`: each not under a custom policy must be owned by a signer,
/// and gets a co-signer slot. With `strict`, only input 0 may be under a
/// custom policy.
pub open spec fn owner_stage(
    txn: &Transaction,
    op_idx: usize,
    records: Seq<AssetRecord>,
    signers: Seq<u64>,
    slots: Seq<(usize, usize)>,
    strict: bool,
    k: nat,
) -> Option<Seq<(usize, usize)>>
    decreases k,
{
    if k == 0 {
        Some(slots)
    } else {
        match owner_stage(txn, op_idx, records, signers, slots, strict, (k - 1) as nat) {
            None => None,
            Some(sl) => {
                let r = records[k - 1];
                if r.asset_type.code() is Some && is_custom(txn, r.asset_type.code().unwrap()) {
                    if strict && k - 1 != 0 {
                        None
                    } else {
                        Some(sl)
                    }
                } else if !signers.contains(r.public_key) {
                    None
                } else {
                    Some(set_add(sl, (op_idx, (k - 1) as usize)))
                }
            },
        }
    }
}

/// The (policy, record) pairs of a transfer body, inputs first.
pub open spec fn trace_pairs(body: &XfrBody) -> Seq<(u64, AssetRecord)> {
    let m_in = min_len(body.inputs_tracing_policies@.len(), body.inputs@.len());
    let m_out = min_len(body.outputs_tracing_policies@.len(), body.outputs@.len());
    Seq::new(
        m_in + m_out,
        |k: int|
            if k < m_in {
                (body.inputs_tracing_policies@[k], body.inputs@[k])
            } else {
                (body.outputs_tracing_policies@[k - m_in], body.outputs@[k - m_in])
            },
    )
}

pub open spec fn min_len(a: nat, b: nat) -> nat {
    if a < b {
        a
    } else {
        b
    }
}

/// Each plaintext asset type keeps one tracing policy for the transaction.
pub open spec fn trace_stage(tp: Seq<(u64, u64)>, pairs: Seq<(u64, AssetRecord)>, k: nat) -> Option<
    Seq<(u64, u64)>,
>
    decreases k,
{
    if k == 0 {
        Some(tp)
    } else {
        match trace_stage(tp, pairs, (k - 1) as nat) {
            None => None,
            Some(t) => {
                let (pol, rec) = pairs[k - 1];
                match rec.asset_type.code() {
                    None => Some(t),
                    Some(code) => if has_key(t, code) && value_at(t, code) != pol {
                        None
                    } else {
                        Some(upsert(t, code, pol))
                    },
                }
            },
        }
    }
}

/// The plaintext asset codes of `records`, each once, in order of appearance.
pub open spec fn plain_codes(records: Seq<AssetRecord>) -> Seq<u64>
    decreases records.len(),
{
    if records.len() == 0 {
        Seq::empty()
    } else {
        let prev = plain_codes(records.drop_last());
        match records.last().asset_type.code() {
            Some(c) => set_add(prev, c),
            None => prev,
        }
    }
}

/// Lien assignments `0..k` placed on free input and output slots; a slot
/// holds the index of its assignment. With `guard`, input 0 takes none.
pub open spec fn lien_slots(
    assigns: Seq<LienAssignment>,
    n_in: nat,
    n_out: nat,
    guard: bool,
    k: nat,
) -> Option<(Seq<Option<usize>>, Seq<Option<usize>>)>
    decreases k,
{
    if k == 0 {
        Some((Seq::new(n_in, |j: int| None), Seq::new(n_out, |j: int| None)))
    } else {
        match lien_slots(assigns, n_in, n_out, guard, (k - 1) as nat) {
            None => None,
            Some((ins, outs)) => {
                let a = assigns[k - 1];
                if guard && a.input_idx == 0 {
                    None
                } else if a.input_idx < n_in && a.output_idx < n_out && ins[a.input_idx as int] is None
                    && outs[a.output_idx as int] is None {
                    Some(
                        (
                            ins.update(a.input_idx as int, Some((k - 1) as usize)),
                            outs.update(a.output_idx as int, Some((k - 1) as usize)),
                        ),
                    )
                } else {
                    None
                }
            },
        }
    }
}

/// Bound-input liens `0..k` placed on free input slots, past the contract.
pub open spec fn bind_slots(liens: Seq<InputLien>, n: nat, k: nat) -> Option<Seq<Option<usize>>>
    decreases k,
{
    if k == 0 {
        Some(Seq::new(n, |j: int| None))
    } else {
        match bind_slots(liens, n, (k - 1) as nat) {
            None => None,
            Some(ins) => {
                let idx = 1 + liens[k - 1].input_idx;
                if idx < n && ins[idx] is None {
                    Some(ins.update(idx, Some((k - 1) as usize)))
                } else {
                    None
                }
            },
        }
    }
}

pub open spec fn slot_lien(assigns: Seq<LienAssignment>, slot: Option<usize>) -> Option<Lien> {
    match slot {
        None => None,
        Some(j) => Some(assigns[j as int].lien),
    }
}

pub open spec fn bind_slot_lien(liens: Seq<InputLien>, slot: Option<usize>) -> Option<Lien> {
    match slot {
        None => None,
        Some(j) => Some(liens[j as int].lien),
    }
}

/// Consumes the output that `r` names, which must hold `record` under `lien`.
pub open spec fn resolve_one(s: EffectView, r: TxoRef, record: AssetRecord, lien: Option<Lien>) -> Option<
    EffectView,
> {
    match r {
        TxoRef::Relative(offs) => {
            if offs >= s.txos.len() {
                None
            } else {
                let ix = s.txos.len() - 1 - offs;
                match s.txos[ix] {
                    None => None,
                    Some(t) => if t.record != record || t.lien != lien {
                        None
                    } else {
                        Some(
                            EffectView {
                                internally_spent_txos: s.internally_spent_txos.push(t),
                                txos: s.txos.update(ix, None),
                                ..s
                            },
                        )
                    },
                }
            }
        },
        TxoRef::Absolute(sid) => {
            if has_key(s.input_txos, sid) {
                None
            } else {
                Some(
                    EffectView {
                        input_txos: s.input_txos.push(
                            (sid, TxOutput { id: None, record, lien }),
                        ),
                        ..s
                    },
                )
            }
        },
    }
}

/// Resolves the input references of a transfer, `0..k`.
pub open spec fn resolve_transfer(s: EffectView, op: &TransferAsset, ins: Seq<Option<usize>>, k: nat) -> Option<
    EffectView,
>
    decreases k,
{
    if k == 0 {
        Some(s)
    } else {
        match resolve_transfer(s, op, ins, (k - 1) as nat) {
            None => None,
            Some(t) => resolve_one(
                t,
                op.inputs@[k - 1],
                op.transfer.inputs@[k - 1],
                slot_lien(op.lien_assignments@, ins[k - 1]),
            ),
        }
    }
}

/// Resolves the contract and then the bound inputs of a bind, `0..k`.
pub open spec fn resolve_bind(s: EffectView, op: &BindAssets, ins: Seq<Option<usize>>, k: nat) -> Option<
    EffectView,
>
    decreases k,
{
    if k == 0 {
        Some(s)
    } else {
        match resolve_bind(s, op, ins, (k - 1) as nat) {
            None => None,
            Some(t) => if k - 1 == 0 {
                resolve_one(t, op.contract, op.transfer.inputs@[0], None)
            } else {
                resolve_one(
                    t,
                    op.inputs@[k - 2],
                    op.transfer.inputs@[k - 1],
                    bind_slot_lien(op.input_liens@, ins[k - 1]),
                )
            },
        }
    }
}

/// Appends outputs `0..k` with their liens, noting their plaintext types.
pub open spec fn push_outputs(
    s: EffectView,
    outputs: Seq<AssetRecord>,
    assigns: Seq<LienAssignment>,
    outs: Seq<Option<usize>>,
    k: nat,
) -> EffectView
    decreases k,
{
    if k == 0 {
        s
    } else {
        let t = push_outputs(s, outputs, assigns, outs, (k - 1) as nat);
        let rec = outputs[k - 1];
        let inv = match rec.asset_type.code() {
            Some(c) => set_add(t.asset_types_involved, c),
            None => t.asset_types_involved,
        };
        EffectView {
            asset_types_involved: inv,
            txos: t.txos.push(Some(TxOutput { id: None, record: rec, lien: slot_lien(assigns, outs[k - 1]) })),
            ..t
        }
    }
}

pub open spec fn has_confidential(outputs: Seq<AssetRecord>) -> bool {
    exists|j: int| 0 <= j < outputs.len() && #[trigger] outputs[j].asset_type is Confidential
}

/// Records the plaintext input types; with a confidential output they are
/// also marked as inputs of a confidential transfer.
pub open spec fn note_input_types(s: EffectView, input_types: Seq<u64>, conf: bool) -> EffectView {
    EffectView {
        asset_types_involved: set_union(s.asset_types_involved, input_types),
        confidential_transfer_inputs: if conf {
            set_union(s.confidential_transfer_inputs, input_types)
        } else {
            s.confidential_transfer_inputs
        },
        ..s
    }
}

/// Signature, owner and proof checks of a standard transfer, bind or release.
pub open spec fn authorize(
    s: EffectView,
    txn: &Transaction,
    checks: Seq<OpChecks>,
    op_idx: usize,
    sigs: Seq<BodySignature>,
    records: Seq<AssetRecord>,
    strict: bool,
    count: nat,
) -> Result<EffectView, EffectError> {
    match sig_stage(sigs, checks, op_idx, s.cosig_slots, s.cosig_keys, sigs.len()) {
        None => Err(EffectError::Inputs),
        Some((slots, keys, signers)) => match owner_stage(txn, op_idx, records, signers, slots, strict, count) {
            None => Err(EffectError::Inputs),
            Some(slots2) => if !proof_ok(checks, op_idx as int) {
                Err(EffectError::Crypto)
            } else {
                Ok(EffectView { cosig_slots: slots2, cosig_keys: keys, ..s })
            },
        },
    }
}

// ---- operations ----

/// Defining an asset: signed by its signer, a code not yet defined or issued
/// in this transaction, and a passing policy init check if it has a policy.
pub open spec fn define_rule(s: EffectView, op: &DefineAsset, checks: Seq<OpChecks>, i: int) -> Result<
    EffectView,
    EffectError,
> {
    let code = op.asset.code;
    if !sig_ok(checks, i) {
        Err(EffectError::Crypto)
    } else if has_key(s.new_asset_codes, code) || has_key(s.new_issuance_nums, code) {
        Err(EffectError::Inputs)
    } else if op.asset.policy is Some && !policy_ok(checks, i) {
        Err(EffectError::Policy)
    } else {
        Ok(
            EffectView {
                issuance_keys: upsert(s.issuance_keys, code, op.asset.issuer),
                new_asset_codes: s.new_asset_codes.push((code, op.asset)),
                ..s
            },
        )
    }
}

/// The issued total of `code` so far.
pub open spec fn issued(s: EffectView, code: u64) -> int {
    if has_key(s.issuance_amounts, code) {
        value_at(s.issuance_amounts, code) as int
    } else {
        0
    }
}

pub open spec fn issue_one(s: EffectView, code: u64, signer: u64, out: TxOutput) -> Result<
    EffectView,
    EffectError,
> {
    if out.record.public_key != signer || out.id is Some || out.lien is Some
        || out.record.asset_type != XfrAssetType::NonConfidential(code) {
        Err(EffectError::Inputs)
    } else {
        let s1 = EffectView { txos: s.txos.push(Some(out)), ..s };
        match out.record.amount {
            XfrAmount::NonConfidential(a) => if issued(s, code) + a > u64::MAX {
                Err(EffectError::IssuanceOverflow)
            } else {
                Ok(
                    EffectView {
                        issuance_amounts: upsert(
                            s.issuance_amounts,
                            code,
                            (issued(s, code) + a) as u64,
                        ),
                        ..s1
                    },
                )
            },
            XfrAmount::Confidential(_) => Ok(
                EffectView {
                    confidential_issuance_types: set_add(s.confidential_issuance_types, code),
                    ..s1
                },
            ),
        }
    }
}

pub open spec fn issue_records(s: EffectView, op: &IssueAsset, k: nat) -> Result<EffectView, EffectError>
    decreases k,
{
    if k == 0 {
        Ok(s)
    } else {
        match issue_records(s, op, (k - 1) as nat) {
            Err(e) => Err(e),
            Ok(t) => issue_one(t, op.code, op.signer, op.records@[k - 1]),
        }
    }
}

/// Issuing: as many records as declared, a sequence number above the last one
/// of this code, a valid signature by the code's issuer (the first issuance
/// may name it), and simple plaintext-typed records owned by the signer.
pub open spec fn issue_rule(s: EffectView, op: &IssueAsset, checks: Seq<OpChecks>, i: int) -> Result<
    EffectView,
    EffectError,
> {
    let code = op.code;
    if op.num_outputs != op.records@.len() {
        Err(EffectError::Inputs)
    } else if has_key(s.new_issuance_nums, code) && op.seq_num <= value_at(s.new_issuance_nums, code) {
        Err(EffectError::Inputs)
    } else if !sig_ok(checks, i) {
        Err(EffectError::Crypto)
    } else if has_key(s.issuance_keys, code) && value_at(s.issuance_keys, code) != op.signer {
        Err(EffectError::Inputs)
    } else {
        let s1 = EffectView {
            asset_types_involved: set_add(s.asset_types_involved, code),
            new_issuance_nums: s.new_issuance_nums.push((code, op.seq_num)),
            issuance_keys: if has_key(s.issuance_keys, code) {
                s.issuance_keys
            } else {
                s.issuance_keys.push((code, op.signer))
            },
            ..s
        };
        issue_records(s1, op, op.records@.len())
    }
}

/// The middle of a transfer: a debt swap records its effect once per debt
/// code; a standard transfer is authorized and keeps one tracing policy per
/// plaintext asset type.
pub open spec fn transfer_authorized(
    s: EffectView,
    txn: &Transaction,
    op: &TransferAsset,
    checks: Seq<OpChecks>,
    i: usize,
) -> Result<EffectView, EffectError> {
    let body = &op.transfer;
    match op.transfer_type {
        TransferType::DebtSwap => match debt_of(checks, i as int) {
            None => Err(EffectError::Policy),
            Some(d) => if has_key(s.debt_effects, d.debt_type) {
                Err(EffectError::Inputs)
            } else {
                Ok(EffectView { debt_effects: s.debt_effects.push((d.debt_type, d.effect)), ..s })
            },
        },
        TransferType::Standard => match authorize(s, txn, checks, i, op.body_signatures@, body.inputs@, false, body.inputs@.len()) {
            Err(e) => Err(e),
            Ok(t) => match trace_stage(t.tracing_policies, trace_pairs(body), trace_pairs(body).len()) {
                None => Err(EffectError::Inputs),
                Some(tp) => Ok(EffectView { tracing_policies: tp, ..t }),
            },
        },
    }
}

pub open spec fn outputs_match(op: &TransferAsset) -> bool {
    forall|j: int| 0 <= j < op.outputs@.len() ==> #[trigger] op.outputs@[j].record == op.transfer.outputs@[j]
}

/// Transferring: body counts match, declared outputs equal the body's, liens
/// only on standard transfers and on free slots; a debt swap records its
/// effect once per code, a standard transfer is authorized and keeps one
/// tracing policy per plaintext type; then inputs are consumed and outputs made.
pub open spec fn transfer_rule(
    s: EffectView,
    txn: &Transaction,
    op: &TransferAsset,
    checks: Seq<OpChecks>,
    i: usize,
) -> Result<EffectView, EffectError> {
    let body = &op.transfer;
    let n_in = body.inputs@.len();
    let n_out = body.outputs@.len();
    if op.inputs@.len() != n_in || op.outputs@.len() != n_out {
        Err(EffectError::Inputs)
    } else if !outputs_match(op) {
        Err(EffectError::Inputs)
    } else if op.lien_assignments@.len() > 0 && op.transfer_type != TransferType::Standard {
        Err(EffectError::Inputs)
    } else {
        match lien_slots(op.lien_assignments@, n_in, n_out, false, op.lien_assignments@.len()) {
            None => Err(EffectError::Inputs),
            Some((ins, outs)) => {
                let authorized = transfer_authorized(s, txn, op, checks, i);
                match authorized {
                    Err(e) => Err(e),
                    Ok(t) => match resolve_transfer(t, op, ins, n_in) {
                        None => Err(EffectError::Inputs),
                        Some(u) => Ok(
                            note_input_types(
                                push_outputs(u, body.outputs@, op.lien_assignments@, outs, n_out),
                                plain_codes(body.inputs@),
                                has_confidential(body.outputs@),
                            ),
                        ),
                    },
                }
            },
        }
    }
}

/// The outputs that a bind locks, or a release unlocks: inputs past the
/// contract, each with the lien its slot holds.
pub open spec fn bound_of_bind(op: &BindAssets, ins: Seq<Option<usize>>) -> Seq<TxOutput> {
    Seq::new(
        (op.transfer.inputs@.len() - 1) as nat,
        |k: int|
            TxOutput {
                id: None,
                record: op.transfer.inputs@[k + 1],
                lien: bind_slot_lien(op.input_liens@, ins[k + 1]),
            },
    )
}

pub open spec fn bound_of_release(op: &ReleaseAssets, ins: Seq<Option<usize>>) -> Seq<TxOutput> {
    Seq::new(
        (op.transfer.inputs@.len() - 1) as nat,
        |k: int|
            TxOutput {
                id: None,
                record: op.transfer.inputs@[k + 1],
                lien: slot_lien(op.lien_assignments@, ins[k + 1]),
            },
    )
}

/// Binding: input 0 is the contract, whose plaintext type the first output
/// keeps; that output carries a lien over the bound inputs.
pub open spec fn bind_rule(
    s: EffectView,
    txn: &Transaction,
    op: &BindAssets,
    checks: Seq<OpChecks>,
    i: usize,
) -> Result<EffectView, EffectError> {
    let body = &op.transfer;
    let n = body.inputs@.len();
    if 1 + op.inputs@.len() != n {
        Err(EffectError::Inputs)
    } else if body.outputs@.len() == 0 {
        Err(EffectError::Inputs)
    } else if body.inputs@[0].asset_type.code() is None || body.inputs@[0].asset_type
        != body.outputs@[0].asset_type {
        Err(EffectError::Inputs)
    } else {
        match bind_slots(op.input_liens@, n, op.input_liens@.len()) {
            None => Err(EffectError::Inputs),
            Some(ins) => match authorize(s, txn, checks, i, op.body_signatures@, body.inputs@, true, n) {
                Err(e) => Err(e),
                Ok(t) => match resolve_bind(t, op, ins, n) {
                    None => Err(EffectError::Inputs),
                    Some(u) => {
                        let out = body.outputs@[0];
                        let v = EffectView {
                            asset_types_involved: set_add(
                                u.asset_types_involved,
                                out.asset_type.code().unwrap(),
                            ),
                            txos: u.txos.push(
                                Some(
                                    TxOutput {
                                        id: None,
                                        record: out,
                                        lien: Some(lien_of(bound_of_bind(op, ins))),
                                    },
                                ),
                            ),
                            ..u
                        };
                        Ok(note_input_types(v, plain_codes(body.inputs@), false))
                    },
                },
            },
        }
    }
}

/// Releasing: the contract (input 0) must carry a plaintext type (otherwise an
/// ordinary failure) and hold the lien over the released inputs.
pub open spec fn release_rule(
    s: EffectView,
    txn: &Transaction,
    op: &ReleaseAssets,
    checks: Seq<OpChecks>,
    i: usize,
) -> Result<EffectView, EffectError> {
    let body = &op.transfer;
    let n = body.inputs@.len();
    let n_out = body.outputs@.len();
    if n == 0 {
        Err(EffectError::Inputs)
    } else if op.num_outputs != n_out {
        Err(EffectError::Inputs)
    } else {
        match lien_slots(op.lien_assignments@, n, n_out, true, op.lien_assignments@.len()) {
            None => Err(EffectError::Inputs),
            Some((ins, outs)) => if body.inputs@[0].asset_type.code() is None {
                Err(EffectError::Inputs)
            } else {
                match authorize(s, txn, checks, i, op.body_signatures@, body.inputs@, false, 1) {
                    Err(e) => Err(e),
                    Ok(t) => match resolve_one(
                        t,
                        op.contract,
                        body.inputs@[0],
                        Some(lien_of(bound_of_release(op, ins))),
                    ) {
                        None => Err(EffectError::Inputs),
                        Some(u) => Ok(
                            note_input_types(
                                push_outputs(u, body.outputs@, op.lien_assignments@, outs, n_out),
                                plain_codes(body.inputs@),
                                has_confidential(body.outputs@),
                            ),
                        ),
                    },
                }
            },
        }
    }
}

/// An identity-registry assignment: the transaction's token, a valid signature
/// and commitment; the address then maps to the commitment.
pub open spec fn air_rule(s: EffectView, txn: &Transaction, op: AirAssign, checks: Seq<OpChecks>, i: int) -> Result<
    EffectView,
    EffectError,
> {
    if op.no_replay_token != txn.no_replay_token {
        Err(EffectError::Inputs)
    } else if !sig_ok(checks, i) || !proof_ok(checks, i) {
        Err(EffectError::Crypto)
    } else {
        Ok(EffectView { air_updates: upsert(s.air_updates, op.addr, op.data), ..s })
    }
}

/// A memo update: the transaction's token and a valid signature; whether the
/// signer issues the asset is decided outside the transaction.
pub open spec fn memo_rule(s: EffectView, txn: &Transaction, op: UpdateMemo, checks: Seq<OpChecks>, i: int) -> Result<
    EffectView,
    EffectError,
> {
    if op.no_replay_token != txn.no_replay_token {
        Err(EffectError::Inputs)
    } else if !sig_ok(checks, i) {
        Err(EffectError::Crypto)
    } else {
        Ok(
            EffectView {
                memo_updates: s.memo_updates.push((op.asset_type, op.signer, op.new_memo)),
                ..s
            },
        )
    }
}

/// Index of the latest update of `key`, or -1.
pub open spec fn kv_last(s: Seq<KvUpdate>, key: u64) -> int
    decreases s.len(),
{
    if s.len() == 0 {
        -1
    } else if s.last().key == key {
        s.len() - 1
    } else {
        kv_last(s.drop_last(), key)
    }
}

/// A key-value update: after a prior update of the key in this transaction,
/// the next generation, and, where that update stored a value, its owner's
/// signature; a new value must be signed by its own owner. Generations are compared without wrapping.
pub open spec fn kv_rule(s: EffectView, op: KvUpdate, checks: Seq<OpChecks>, i: int) -> Result<
    EffectView,
    EffectError,
> {
    let j = kv_last(s.kv_updates, op.key);
    let prior_owner = if j >= 0 {
        s.kv_updates[j].value
    } else {
        None
    };
    if j >= 0 && s.kv_updates[j].generation + 1 != op.generation {
        Err(EffectError::Inputs)
    } else if prior_owner is Some && !(sig_ok(checks, i) && op.signer == prior_owner.unwrap().owner) {
        Err(EffectError::Crypto)
    } else if op.value is Some && !(sig_ok(checks, i) && op.signer == op.value.unwrap().owner) {
        Err(EffectError::Crypto)
    } else {
        Ok(EffectView { kv_updates: s.kv_updates.push(op), ..s })
    }
}

/// One operation, by kind.
pub open spec fn op_rule(s: EffectView, txn: &Transaction, checks: Seq<OpChecks>, i: usize) -> Result<
    EffectView,
    EffectError,
> {
    match &txn.operations@[i as int] {
        Operation::DefineAsset(op) => define_rule(s, op, checks, i as int),
        Operation::IssueAsset(op) => issue_rule(s, op, checks, i as int),
        Operation::TransferAsset(op) => transfer_rule(s, txn, op, checks, i),
        Operation::AIRAssign(op) => air_rule(s, txn, *op, checks, i as int),
        Operation::UpdateMemo(op) => memo_rule(s, txn, *op, checks, i as int),
        Operation::BindAssets(op) => bind_rule(s, txn, op, checks, i),
        Operation::ReleaseAssets(op) => release_rule(s, txn, op, checks, i),
        Operation::KVStoreUpdate(op) => kv_rule(s, *op, checks, i as int),
    }
}

/// The accumulators after operations `0..n`, or the first failure.
pub open spec fn effect_upto(txn: &Transaction, checks: Seq<OpChecks>, n: nat) -> Result<
    EffectView,
    EffectError,
>
    decreases n,
{
    if n == 0 {
        Ok(empty_view())
    } else {
        match effect_upto(txn, checks, (n - 1) as nat) {
            Err(e) => Err(e),
            Ok(s) => op_rule(s, txn, checks, (n - 1) as usize),
        }
    }
}

/// The effect of a whole transaction, given the verifiers' answers.
pub open spec fn effect_of(txn: &Transaction, checks: Seq<OpChecks>) -> Result<EffectView, EffectError> {
    effect_upto(txn, checks, txn.operations@.len())
}

} // verus!
