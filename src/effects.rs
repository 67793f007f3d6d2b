//! Computing the effect of a transaction.
use vstd::prelude::*;
use crate::model::{
    AirAssign, AssetDefinition, AssetRecord, BindAssets, BodySignature, DefineAsset, InputLien,
    IssueAsset, KvUpdate, Lien, LienAssignment, OpChecks, Operation, ReleaseAssets, Transaction,
    TransferAsset, TransferType, TxOutput, TxoRef, UpdateMemo, XfrAmount, XfrAssetType, XfrBody,
    copy_lien, copy_output, definitions_eq, keyed_outputs_eq, kv_updates_eq, lien_of, opt_lien_eq,
    opt_outputs_eq, outputs_eq,
};
use crate::rules::{
    EffectError, EffectView, air_rule, authorize, bind_rule, bind_slot_lien, bind_slots,
    body_sig_ok, bound_of_bind, bound_of_release, define_rule, effect_of, effect_upto,
    empty_view, has_confidential, is_custom, issue_one, issue_records, issue_rule, issued, kv_last,
    kv_rule, lien_slots, memo_rule, note_input_types, op_rule, outputs_match, owner_stage,
    plain_codes, policy_ok, proof_ok, push_outputs, release_rule, resolve_bind, resolve_one,
    resolve_transfer, sig_ok, sig_stage, slot_lien, trace_pairs, trace_stage, transfer_rule,
    min_len,
};
use crate::tables::{
    add_pair, add_triple, add_u64, cosigners_eq, pairs_eq, slots_eq, triples_eq, u64s_eq, find_key, has_key, lemma_key_index_bounds, union_into, upsert, upsert_u64, value_at, contains_u64,
};

verus! {

/// The accumulators while a transaction's operations are checked.
pub struct EffectAccumulator {
    pub txos: Vec<Option<TxOutput>>,
    pub input_txos: Vec<(u64, TxOutput)>,
    pub internally_spent_txos: Vec<TxOutput>,
    pub new_asset_codes: Vec<(u64, AssetDefinition)>,
    pub new_issuance_nums: Vec<(u64, u64)>,
    pub issuance_keys: Vec<(u64, u64)>,
    pub issuance_amounts: Vec<(u64, u64)>,
    pub confidential_issuance_types: Vec<u64>,
    pub cosig_slots: Vec<(usize, usize)>,
    pub cosig_keys: Vec<(usize, usize, u64)>,
    pub debt_effects: Vec<(u64, u64)>,
    pub confidential_transfer_inputs: Vec<u64>,
    pub tracing_policies: Vec<(u64, u64)>,
    pub asset_types_involved: Vec<u64>,
    pub air_updates: Vec<(u64, u64)>,
    pub kv_updates: Vec<KvUpdate>,
    pub memo_updates: Vec<(u64, u64, u64)>,
}

impl EffectAccumulator {
    pub open spec fn view(&self) -> EffectView {
        EffectView {
            txos: self.txos@,
            input_txos: self.input_txos@,
            internally_spent_txos: self.internally_spent_txos@,
            new_asset_codes: self.new_asset_codes@,
            new_issuance_nums: self.new_issuance_nums@,
            issuance_keys: self.issuance_keys@,
            issuance_amounts: self.issuance_amounts@,
            confidential_issuance_types: self.confidential_issuance_types@,
            cosig_slots: self.cosig_slots@,
            cosig_keys: self.cosig_keys@,
            debt_effects: self.debt_effects@,
            confidential_transfer_inputs: self.confidential_transfer_inputs@,
            tracing_policies: self.tracing_policies@,
            asset_types_involved: self.asset_types_involved@,
            air_updates: self.air_updates@,
            kv_updates: self.kv_updates@,
            memo_updates: self.memo_updates@,
        }
    }

    pub fn new() -> (r: Self)
        ensures
            r@ == empty_view(),
    {
        let r = EffectAccumulator {
            txos: Vec::new(),
            input_txos: Vec::new(),
            internally_spent_txos: Vec::new(),
            new_asset_codes: Vec::new(),
            new_issuance_nums: Vec::new(),
            issuance_keys: Vec::new(),
            issuance_amounts: Vec::new(),
            confidential_issuance_types: Vec::new(),
            cosig_slots: Vec::new(),
            cosig_keys: Vec::new(),
            debt_effects: Vec::new(),
            confidential_transfer_inputs: Vec::new(),
            tracing_policies: Vec::new(),
            asset_types_involved: Vec::new(),
            air_updates: Vec::new(),
            kv_updates: Vec::new(),
            memo_updates: Vec::new(),
        };
        proof {
            assert(r@.txos =~= Seq::empty());
        }
        r
    }
}

// ---- verifier outcomes ----

fn sig_flag(checks: &Vec<OpChecks>, i: usize) -> (r: bool)
    ensures
        r == sig_ok(checks@, i as int),
{
    i < checks.len() && checks[i].signature_valid
}

fn proof_flag(checks: &Vec<OpChecks>, i: usize) -> (r: bool)
    ensures
        r == proof_ok(checks@, i as int),
{
    i < checks.len() && checks[i].proof_valid
}

fn policy_flag(checks: &Vec<OpChecks>, i: usize) -> (r: bool)
    ensures
        r == policy_ok(checks@, i as int),
{
    i < checks.len() && checks[i].policy_passed
}

fn body_flag(checks: &Vec<OpChecks>, i: usize, k: usize) -> (r: bool)
    ensures
        r == body_sig_ok(checks@, i as int, k as int),
{
    i < checks.len() && k < checks[i].body_signatures_valid.len()
        && checks[i].body_signatures_valid[k]
}

fn custom_policy(txn: &Transaction, code: u64) -> (r: bool)
    ensures
        r == is_custom(txn, code),
{
    let mut j: usize = 0;
    while j < txn.policy_options.len()
        invariant
            j <= txn.policy_options@.len(),
            forall|m: int| 0 <= m < j ==> txn.policy_options@[m].0 != code,
        decreases txn.policy_options@.len() - j,
    {
        if txn.policy_options[j].0 == code {
            return true;
        }
        j = j + 1;
    }
    false
}

// ---- shared stages ----

proof fn lemma_sig_stage_fails_on(
    sigs: Seq<BodySignature>,
    checks: Seq<OpChecks>,
    op_idx: usize,
    slots: Seq<(usize, usize)>,
    keys: Seq<(usize, usize, u64)>,
    k: nat,
    m: nat,
)
    requires
        sig_stage(sigs, checks, op_idx, slots, keys, k) is None,
        k <= m,
    ensures
        sig_stage(sigs, checks, op_idx, slots, keys, m) is None,
    decreases m - k,
{
    if k < m {
        lemma_sig_stage_fails_on(sigs, checks, op_idx, slots, keys, k, (m - 1) as nat);
    }
}

fn sig_stage_exec(
    sigs: &Vec<BodySignature>,
    checks: &Vec<OpChecks>,
    op_idx: usize,
    slots: &mut Vec<(usize, usize)>,
    keys: &mut Vec<(usize, usize, u64)>,
) -> (r: Option<Vec<u64>>)
    ensures
        match r {
            Some(c) => sig_stage(sigs@, checks@, op_idx, old(slots)@, old(keys)@, sigs@.len())
                == Some((final(slots)@, final(keys)@, c@)),
            None => sig_stage(sigs@, checks@, op_idx, old(slots)@, old(keys)@, sigs@.len()) is None,
        },
{
    let ghost s0 = slots@;
    let ghost k0 = keys@;
    let mut signers: Vec<u64> = Vec::new();
    let mut k: usize = 0;
    proof {
        assert(signers@ =~= Seq::empty());
    }
    while k < sigs.len()
        invariant
            k <= sigs@.len(),
            s0 == old(slots)@,
            k0 == old(keys)@,
            sig_stage(sigs@, checks@, op_idx, s0, k0, k as nat) == Some((slots@, keys@, signers@)),
        decreases sigs@.len() - k,
    {
        if !body_flag(checks, op_idx, k) {
            proof {
                lemma_sig_stage_fails_on(sigs@, checks@, op_idx, s0, k0, (k + 1) as nat, sigs@.len());
            }
            return None;
        }
        let sig = sigs[k];
        match sig.input_idx {
            Some(ii) => {
                add_pair(slots, (op_idx, ii));
                add_triple(keys, (op_idx, ii, sig.address));
            },
            None => {
                add_u64(&mut signers, sig.address);
            },
        }
        k = k + 1;
    }
    Some(signers)
}

proof fn lemma_owner_stage_fails_on(
    txn: &Transaction,
    op_idx: usize,
    records: Seq<AssetRecord>,
    signers: Seq<u64>,
    slots: Seq<(usize, usize)>,
    strict: bool,
    k: nat,
    m: nat,
)
    requires
        owner_stage(txn, op_idx, records, signers, slots, strict, k) is None,
        k <= m,
    ensures
        owner_stage(txn, op_idx, records, signers, slots, strict, m) is None,
    decreases m - k,
{
    if k < m {
        lemma_owner_stage_fails_on(txn, op_idx, records, signers, slots, strict, k, (m - 1) as nat);
    }
}

fn owner_stage_exec(
    txn: &Transaction,
    op_idx: usize,
    records: &Vec<AssetRecord>,
    signers: &Vec<u64>,
    slots: &mut Vec<(usize, usize)>,
    strict: bool,
    count: usize,
) -> (r: bool)
    requires
        count <= records@.len(),
    ensures
        r ==> owner_stage(txn, op_idx, records@, signers@, old(slots)@, strict, count as nat)
            == Some(final(slots)@),
        !r ==> owner_stage(txn, op_idx, records@, signers@, old(slots)@, strict, count as nat) is None,
{
    let ghost s0 = slots@;
    let mut k: usize = 0;
    while k < count
        invariant
            k <= count <= records@.len(),
            s0 == old(slots)@,
            owner_stage(txn, op_idx, records@, signers@, s0, strict, k as nat) == Some(slots@),
        decreases count - k,
    {
        let r = records[k];
        let custom = match r.asset_type.get_asset_type() {
            Some(code) => custom_policy(txn, code),
            None => false,
        };
        if custom {
            if strict && k != 0 {
                proof {
                    lemma_owner_stage_fails_on(txn, op_idx, records@, signers@, s0, strict, (k + 1) as nat, count as nat);
                }
                return false;
            }
        } else if !contains_u64(signers, r.public_key) {
            proof {
                lemma_owner_stage_fails_on(txn, op_idx, records@, signers@, s0, strict, (k + 1) as nat, count as nat);
            }
            return false;
        } else {
            add_pair(slots, (op_idx, k));
        }
        k = k + 1;
    }
    true
}

proof fn lemma_trace_stage_fails_on(tp: Seq<(u64, u64)>, pairs: Seq<(u64, AssetRecord)>, k: nat, m: nat)
    requires
        trace_stage(tp, pairs, k) is None,
        k <= m,
    ensures
        trace_stage(tp, pairs, m) is None,
    decreases m - k,
{
    if k < m {
        lemma_trace_stage_fails_on(tp, pairs, k, (m - 1) as nat);
    }
}

/// One (policy, record) pair of the tracing check.
fn trace_one(tp: &mut Vec<(u64, u64)>, pol: u64, rec: AssetRecord) -> (r: bool)
    ensures
        match rec.asset_type.code() {
            None => r && final(tp)@ == old(tp)@,
            Some(code) => if has_key(old(tp)@, code) && value_at(old(tp)@, code) != pol {
                !r
            } else {
                r && final(tp)@ == upsert(old(tp)@, code, pol)
            },
        },
{
    match rec.asset_type.get_asset_type() {
        None => true,
        Some(code) => {
            match find_key(tp, code) {
                Some(j) => {
                    proof {
                        lemma_key_index_bounds(tp@, code);
                    }
                    if tp[j].1 != pol {
                        return false;
                    }
                },
                None => {},
            }
            upsert_u64(tp, code, pol);
            true
        },
    }
}

fn trace_exec(tp: &mut Vec<(u64, u64)>, body: &XfrBody) -> (r: bool)
    ensures
        r ==> trace_stage(old(tp)@, trace_pairs(body), trace_pairs(body).len()) == Some(final(tp)@),
        !r ==> trace_stage(old(tp)@, trace_pairs(body), trace_pairs(body).len()) is None,
{
    let ghost t0 = tp@;
    let ghost pairs = trace_pairs(body);
    let m_in = if body.inputs_tracing_policies.len() < body.inputs.len() {
        body.inputs_tracing_policies.len()
    } else {
        body.inputs.len()
    };
    let m_out = if body.outputs_tracing_policies.len() < body.outputs.len() {
        body.outputs_tracing_policies.len()
    } else {
        body.outputs.len()
    };
    let mut k: usize = 0;
    while k < m_in
        invariant
            k <= m_in,
            m_in == min_len(body.inputs_tracing_policies@.len(), body.inputs@.len()),
            pairs == trace_pairs(body),
            t0 == old(tp)@,
            trace_stage(t0, pairs, k as nat) == Some(tp@),
        decreases m_in - k,
    {
        if !trace_one(tp, body.inputs_tracing_policies[k], body.inputs[k]) {
            proof {
                lemma_trace_stage_fails_on(t0, pairs, (k + 1) as nat, pairs.len());
            }
            return false;
        }
        k = k + 1;
    }
    let mut j: usize = 0;
    while j < m_out
        invariant
            j <= m_out,
            m_in == min_len(body.inputs_tracing_policies@.len(), body.inputs@.len()),
            m_out == min_len(body.outputs_tracing_policies@.len(), body.outputs@.len()),
            pairs == trace_pairs(body),
            pairs.len() == m_in + m_out,
            t0 == old(tp)@,
            trace_stage(t0, pairs, (m_in + j) as nat) == Some(tp@),
        decreases m_out - j,
    {
        if !trace_one(tp, body.outputs_tracing_policies[j], body.outputs[j]) {
            proof {
                lemma_trace_stage_fails_on(t0, pairs, (m_in + j + 1) as nat, pairs.len());
            }
            return false;
        }
        j = j + 1;
    }
    true
}

fn none_slots(n: usize) -> (r: Vec<Option<usize>>)
    ensures
        r@ == Seq::new(n as nat, |j: int| None::<usize>),
{
    let mut v: Vec<Option<usize>> = Vec::new();
    let mut k: usize = 0;
    while k < n
        invariant
            k <= n,
            v@ == Seq::new(k as nat, |j: int| None::<usize>),
        decreases n - k,
    {
        v.push(None);
        k = k + 1;
        proof {
            assert(v@ =~= Seq::new(k as nat, |j: int| None::<usize>));
        }
    }
    v
}

proof fn lemma_lien_slots_fail_on(
    assigns: Seq<LienAssignment>,
    n_in: nat,
    n_out: nat,
    guard: bool,
    k: nat,
    m: nat,
)
    requires
        lien_slots(assigns, n_in, n_out, guard, k) is None,
        k <= m,
    ensures
        lien_slots(assigns, n_in, n_out, guard, m) is None,
    decreases m - k,
{
    if k < m {
        lemma_lien_slots_fail_on(assigns, n_in, n_out, guard, k, (m - 1) as nat);
    }
}

fn lien_slots_exec(assigns: &Vec<LienAssignment>, n_in: usize, n_out: usize, guard: bool) -> (r: Option<
    (Vec<Option<usize>>, Vec<Option<usize>>),
>)
    ensures
        match r {
            Some((a, b)) => lien_slots(assigns@, n_in as nat, n_out as nat, guard, assigns@.len())
                == Some((a@, b@)),
            None => lien_slots(assigns@, n_in as nat, n_out as nat, guard, assigns@.len()) is None,
        },
{
    let mut ins = none_slots(n_in);
    let mut outs = none_slots(n_out);
    let mut k: usize = 0;
    while k < assigns.len()
        invariant
            k <= assigns@.len(),
            ins@.len() == n_in,
            outs@.len() == n_out,
            lien_slots(assigns@, n_in as nat, n_out as nat, guard, k as nat) == Some((ins@, outs@)),
        decreases assigns@.len() - k,
    {
        let ii = assigns[k].input_idx;
        let oi = assigns[k].output_idx;
        if guard && ii == 0 {
            proof {
                lemma_lien_slots_fail_on(assigns@, n_in as nat, n_out as nat, guard, (k + 1) as nat, assigns@.len());
            }
            return None;
        }
        if ii < ins.len() && oi < outs.len() && ins[ii].is_none() && outs[oi].is_none() {
            ins.set(ii, Some(k));
            outs.set(oi, Some(k));
        } else {
            proof {
                lemma_lien_slots_fail_on(assigns@, n_in as nat, n_out as nat, guard, (k + 1) as nat, assigns@.len());
            }
            return None;
        }
        k = k + 1;
    }
    Some((ins, outs))
}

proof fn lemma_bind_slots_fail_on(liens: Seq<InputLien>, n: nat, k: nat, m: nat)
    requires
        bind_slots(liens, n, k) is None,
        k <= m,
    ensures
        bind_slots(liens, n, m) is None,
    decreases m - k,
{
    if k < m {
        lemma_bind_slots_fail_on(liens, n, k, (m - 1) as nat);
    }
}

fn bind_slots_exec(liens: &Vec<InputLien>, n: usize) -> (r: Option<Vec<Option<usize>>>)
    ensures
        match r {
            Some(a) => bind_slots(liens@, n as nat, liens@.len()) == Some(a@),
            None => bind_slots(liens@, n as nat, liens@.len()) is None,
        },
{
    let mut ins = none_slots(n);
    let mut k: usize = 0;
    while k < liens.len()
        invariant
            k <= liens@.len(),
            ins@.len() == n,
            bind_slots(liens@, n as nat, k as nat) == Some(ins@),
        decreases liens@.len() - k,
    {
        let ii = liens[k].input_idx;
        if n > 0 && ii < n - 1 && ins[ii + 1].is_none() {
            ins.set(ii + 1, Some(k));
        } else {
            proof {
                lemma_bind_slots_fail_on(liens@, n as nat, (k + 1) as nat, liens@.len());
            }
            return None;
        }
        k = k + 1;
    }
    Some(ins)
}

fn slot_lien_exec(assigns: &Vec<LienAssignment>, slot: Option<usize>) -> (r: Option<Lien>)
    requires
        slot matches Some(j) ==> j < assigns@.len(),
    ensures
        r == slot_lien(assigns@, slot),
{
    match slot {
        None => None,
        Some(j) => Some(copy_lien(&assigns[j].lien)),
    }
}

fn bind_slot_lien_exec(liens: &Vec<InputLien>, slot: Option<usize>) -> (r: Option<Lien>)
    requires
        slot matches Some(j) ==> j < liens@.len(),
    ensures
        r == bind_slot_lien(liens@, slot),
{
    match slot {
        None => None,
        Some(j) => Some(copy_lien(&liens[j].lien)),
    }
}

/// Every slot of `lien_slots` names an existing assignment.
proof fn lemma_lien_slots_in_range(
    assigns: Seq<LienAssignment>,
    n_in: nat,
    n_out: nat,
    guard: bool,
    k: nat,
)
    requires
        k <= assigns.len(),
        lien_slots(assigns, n_in, n_out, guard, k) is Some,
    ensures
        ({
            let (ins, outs) = lien_slots(assigns, n_in, n_out, guard, k).unwrap();
            &&& ins.len() == n_in
            &&& outs.len() == n_out
            &&& forall|j: int| 0 <= j < n_in ==> (#[trigger] ins[j] matches Some(x) ==> x < k)
            &&& forall|j: int| 0 <= j < n_out ==> (#[trigger] outs[j] matches Some(x) ==> x < k)
        }),
    decreases k,
{
    if k > 0 {
        lemma_lien_slots_in_range(assigns, n_in, n_out, guard, (k - 1) as nat);
    }
}

proof fn lemma_bind_slots_in_range(liens: Seq<InputLien>, n: nat, k: nat)
    requires
        k <= liens.len(),
        bind_slots(liens, n, k) is Some,
    ensures
        bind_slots(liens, n, k).unwrap().len() == n,
        forall|j: int|
            0 <= j < n ==> (#[trigger] bind_slots(liens, n, k).unwrap()[j] matches Some(x) ==> x < k),
    decreases k,
{
    if k > 0 {
        lemma_bind_slots_in_range(liens, n, (k - 1) as nat);
    }
}

// ---- consuming inputs, producing outputs ----

fn resolve_one_exec(acc: &mut EffectAccumulator, r: TxoRef, record: AssetRecord, lien: Option<Lien>) -> (ok: bool)
    ensures
        ok ==> resolve_one(old(acc)@, r, record, lien) == Some(final(acc)@),
        !ok ==> resolve_one(old(acc)@, r, record, lien) is None,
{
    match r {
        TxoRef::Relative(offs) => {
            if offs >= acc.txos.len() as u64 {
                return false;
            }
            let ix = acc.txos.len() - 1 - offs as usize;
            match &acc.txos[ix] {
                None => {
                    return false;
                },
                Some(t) => {
                    if t.record != record || !opt_lien_eq(&t.lien, &lien) {
                        return false;
                    }
                    let spent = copy_output(t);
                    acc.internally_spent_txos.push(spent);
                },
            }
            acc.txos.set(ix, None);
            true
        },
        TxoRef::Absolute(sid) => {
            if find_key(&acc.input_txos, sid).is_some() {
                return false;
            }
            acc.input_txos.push((sid, TxOutput { id: None, record, lien }));
            true
        },
    }
}

proof fn lemma_resolve_transfer_fails_on(
    s: EffectView,
    op: &TransferAsset,
    ins: Seq<Option<usize>>,
    k: nat,
    m: nat,
)
    requires
        resolve_transfer(s, op, ins, k) is None,
        k <= m,
    ensures
        resolve_transfer(s, op, ins, m) is None,
    decreases m - k,
{
    if k < m {
        lemma_resolve_transfer_fails_on(s, op, ins, k, (m - 1) as nat);
    }
}

fn resolve_transfer_exec(acc: &mut EffectAccumulator, op: &TransferAsset, ins: &Vec<Option<usize>>) -> (ok: bool)
    requires
        op.inputs@.len() == op.transfer.inputs@.len(),
        ins@.len() == op.inputs@.len(),
        forall|j: int| 0 <= j < ins@.len() ==> (#[trigger] ins@[j] matches Some(x) ==> x < op.lien_assignments@.len()),
    ensures
        ok ==> resolve_transfer(old(acc)@, op, ins@, op.inputs@.len()) == Some(final(acc)@),
        !ok ==> resolve_transfer(old(acc)@, op, ins@, op.inputs@.len()) is None,
{
    let ghost s0 = acc@;
    let mut k: usize = 0;
    while k < op.inputs.len()
        invariant
            k <= op.inputs@.len(),
            op.inputs@.len() == op.transfer.inputs@.len(),
            ins@.len() == op.inputs@.len(),
            forall|j: int| 0 <= j < ins@.len() ==> (#[trigger] ins@[j] matches Some(x) ==> x < op.lien_assignments@.len()),
            s0 == old(acc)@,
            resolve_transfer(s0, op, ins@, k as nat) == Some(acc@),
        decreases op.inputs@.len() - k,
    {
        let lien = slot_lien_exec(&op.lien_assignments, ins[k]);
        if !resolve_one_exec(acc, op.inputs[k], op.transfer.inputs[k], lien) {
            proof {
                lemma_resolve_transfer_fails_on(s0, op, ins@, (k + 1) as nat, op.inputs@.len());
            }
            return false;
        }
        k = k + 1;
    }
    true
}

proof fn lemma_resolve_bind_fails_on(s: EffectView, op: &BindAssets, ins: Seq<Option<usize>>, k: nat, m: nat)
    requires
        resolve_bind(s, op, ins, k) is None,
        k <= m,
    ensures
        resolve_bind(s, op, ins, m) is None,
    decreases m - k,
{
    if k < m {
        lemma_resolve_bind_fails_on(s, op, ins, k, (m - 1) as nat);
    }
}

fn resolve_bind_exec(acc: &mut EffectAccumulator, op: &BindAssets, ins: &Vec<Option<usize>>) -> (ok: bool)
    requires
        1 + op.inputs@.len() == op.transfer.inputs@.len(),
        ins@.len() == op.transfer.inputs@.len(),
        forall|j: int| 0 <= j < ins@.len() ==> (#[trigger] ins@[j] matches Some(x) ==> x < op.input_liens@.len()),
    ensures
        ok ==> resolve_bind(old(acc)@, op, ins@, op.transfer.inputs@.len()) == Some(final(acc)@),
        !ok ==> resolve_bind(old(acc)@, op, ins@, op.transfer.inputs@.len()) is None,
{
    let ghost s0 = acc@;
    let n = op.transfer.inputs.len();
    let mut k: usize = 0;
    while k < n
        invariant
            k <= n,
            n == op.transfer.inputs@.len(),
            1 + op.inputs@.len() == n,
            ins@.len() == n,
            forall|j: int| 0 <= j < ins@.len() ==> (#[trigger] ins@[j] matches Some(x) ==> x < op.input_liens@.len()),
            s0 == old(acc)@,
            resolve_bind(s0, op, ins@, k as nat) == Some(acc@),
        decreases n - k,
    {
        let ok = if k == 0 {
            resolve_one_exec(acc, op.contract, op.transfer.inputs[0], None)
        } else {
            let lien = bind_slot_lien_exec(&op.input_liens, ins[k]);
            resolve_one_exec(acc, op.inputs[k - 1], op.transfer.inputs[k], lien)
        };
        if !ok {
            proof {
                lemma_resolve_bind_fails_on(s0, op, ins@, (k + 1) as nat, n as nat);
            }
            return false;
        }
        k = k + 1;
    }
    true
}

fn push_outputs_exec(
    acc: &mut EffectAccumulator,
    outputs: &Vec<AssetRecord>,
    assigns: &Vec<LienAssignment>,
    outs: &Vec<Option<usize>>,
)
    requires
        outs@.len() == outputs@.len(),
        forall|j: int| 0 <= j < outs@.len() ==> (#[trigger] outs@[j] matches Some(x) ==> x < assigns@.len()),
    ensures
        final(acc)@ == push_outputs(old(acc)@, outputs@, assigns@, outs@, outputs@.len()),
{
    let ghost s0 = acc@;
    let mut k: usize = 0;
    while k < outputs.len()
        invariant
            k <= outputs@.len(),
            outs@.len() == outputs@.len(),
            forall|j: int| 0 <= j < outs@.len() ==> (#[trigger] outs@[j] matches Some(x) ==> x < assigns@.len()),
            s0 == old(acc)@,
            acc@ == push_outputs(s0, outputs@, assigns@, outs@, k as nat),
        decreases outputs@.len() - k,
    {
        let rec = outputs[k];
        match rec.asset_type.get_asset_type() {
            Some(c) => add_u64(&mut acc.asset_types_involved, c),
            None => {},
        }
        let lien = slot_lien_exec(assigns, outs[k]);
        acc.txos.push(Some(TxOutput { id: None, record: rec, lien }));
        k = k + 1;
    }
}

fn plain_codes_exec(records: &Vec<AssetRecord>) -> (r: Vec<u64>)
    ensures
        r@ == plain_codes(records@),
{
    let mut v: Vec<u64> = Vec::new();
    let mut k: usize = 0;
    proof {
        assert(records@.subrange(0, 0) =~= Seq::<AssetRecord>::empty());
        assert(v@ =~= Seq::<u64>::empty());
    }
    while k < records.len()
        invariant
            k <= records@.len(),
            v@ == plain_codes(records@.subrange(0, k as int)),
        decreases records@.len() - k,
    {
        proof {
            assert(records@.subrange(0, k + 1).drop_last() =~= records@.subrange(0, k as int));
        }
        match records[k].asset_type.get_asset_type() {
            Some(c) => add_u64(&mut v, c),
            None => {},
        }
        k = k + 1;
    }
    proof {
        assert(records@.subrange(0, k as int) =~= records@);
    }
    v
}

fn has_confidential_exec(outputs: &Vec<AssetRecord>) -> (r: bool)
    ensures
        r == has_confidential(outputs@),
{
    let mut k: usize = 0;
    while k < outputs.len()
        invariant
            k <= outputs@.len(),
            forall|j: int| 0 <= j < k ==> !(outputs@[j].asset_type is Confidential),
        decreases outputs@.len() - k,
    {
        if let XfrAssetType::Confidential(_) = outputs[k].asset_type {
            return true;
        }
        k = k + 1;
    }
    false
}

fn note_input_types_exec(acc: &mut EffectAccumulator, input_types: &Vec<u64>, conf: bool)
    ensures
        final(acc)@ == note_input_types(old(acc)@, input_types@, conf),
{
    union_into(&mut acc.asset_types_involved, input_types);
    if conf {
        union_into(&mut acc.confidential_transfer_inputs, input_types);
    }
}

fn authorize_exec(
    acc: &mut EffectAccumulator,
    txn: &Transaction,
    checks: &Vec<OpChecks>,
    op_idx: usize,
    sigs: &Vec<BodySignature>,
    records: &Vec<AssetRecord>,
    strict: bool,
    count: usize,
) -> (r: Result<(), EffectError>)
    requires
        count <= records@.len(),
    ensures
        match r {
            Ok(_) => authorize(old(acc)@, txn, checks@, op_idx, sigs@, records@, strict, count as nat)
                == Ok::<EffectView, EffectError>(final(acc)@),
            Err(e) => authorize(old(acc)@, txn, checks@, op_idx, sigs@, records@, strict, count as nat)
                == Err::<EffectView, EffectError>(e),
        },
{
    let signers = match sig_stage_exec(sigs, checks, op_idx, &mut acc.cosig_slots, &mut acc.cosig_keys) {
        None => {
            return Err(EffectError::Inputs);
        },
        Some(c) => c,
    };
    if !owner_stage_exec(txn, op_idx, records, &signers, &mut acc.cosig_slots, strict, count) {
        return Err(EffectError::Inputs);
    }
    if !proof_flag(checks, op_idx) {
        return Err(EffectError::Crypto);
    }
    Ok(())
}

// ---- operations ----

fn define_exec(acc: &mut EffectAccumulator, op: &DefineAsset, checks: &Vec<OpChecks>, i: usize) -> (r: Result<(), EffectError>)
    ensures
        match r {
            Ok(_) => define_rule(old(acc)@, op, checks@, i as int) == Ok::<EffectView, EffectError>(final(acc)@),
            Err(e) => define_rule(old(acc)@, op, checks@, i as int) == Err::<EffectView, EffectError>(e),
        },
{
    let code = op.asset.code;
    if !sig_flag(checks, i) {
        return Err(EffectError::Crypto);
    }
    if find_key(&acc.new_asset_codes, code).is_some() || find_key(&acc.new_issuance_nums, code).is_some() {
        return Err(EffectError::Inputs);
    }
    if op.asset.policy.is_some() && !policy_flag(checks, i) {
        return Err(EffectError::Policy);
    }
    upsert_u64(&mut acc.issuance_keys, code, op.asset.issuer);
    acc.new_asset_codes.push((code, op.asset));
    Ok(())
}

fn issue_one_exec(acc: &mut EffectAccumulator, code: u64, signer: u64, out: &TxOutput) -> (r: Result<(), EffectError>)
    ensures
        match r {
            Ok(_) => issue_one(old(acc)@, code, signer, *out) == Ok::<EffectView, EffectError>(final(acc)@),
            Err(e) => issue_one(old(acc)@, code, signer, *out) == Err::<EffectView, EffectError>(e),
        },
{
    if out.record.public_key != signer || out.id.is_some() || out.lien.is_some()
        || out.record.asset_type != XfrAssetType::NonConfidential(code) {
        return Err(EffectError::Inputs);
    }
    match out.record.amount {
        XfrAmount::NonConfidential(a) => {
            let cur = match find_key(&acc.issuance_amounts, code) {
                Some(j) => {
                    proof {
                        lemma_key_index_bounds(acc.issuance_amounts@, code);
                    }
                    acc.issuance_amounts[j].1
                },
                None => 0,
            };
            assert(cur == issued(acc@, code));
            if a > u64::MAX - cur {
                return Err(EffectError::IssuanceOverflow);
            }
            upsert_u64(&mut acc.issuance_amounts, code, cur + a);
        },
        XfrAmount::Confidential(_) => {
            add_u64(&mut acc.confidential_issuance_types, code);
        },
    }
    acc.txos.push(Some(copy_output(out)));
    Ok(())
}

proof fn lemma_issue_records_fails_on(s: EffectView, op: &IssueAsset, e: EffectError, k: nat, m: nat)
    requires
        issue_records(s, op, k) == Err::<EffectView, EffectError>(e),
        k <= m,
    ensures
        issue_records(s, op, m) == Err::<EffectView, EffectError>(e),
    decreases m - k,
{
    if k < m {
        lemma_issue_records_fails_on(s, op, e, k, (m - 1) as nat);
    }
}

fn issue_exec(acc: &mut EffectAccumulator, op: &IssueAsset, checks: &Vec<OpChecks>, i: usize) -> (r: Result<(), EffectError>)
    ensures
        match r {
            Ok(_) => issue_rule(old(acc)@, op, checks@, i as int) == Ok::<EffectView, EffectError>(final(acc)@),
            Err(e) => issue_rule(old(acc)@, op, checks@, i as int) == Err::<EffectView, EffectError>(e),
        },
{
    let code = op.code;
    if op.num_outputs != op.records.len() {
        return Err(EffectError::Inputs);
    }
    match find_key(&acc.new_issuance_nums, code) {
        Some(j) => {
            proof {
                lemma_key_index_bounds(acc.new_issuance_nums@, code);
            }
            if op.seq_num <= acc.new_issuance_nums[j].1 {
                return Err(EffectError::Inputs);
            }
        },
        None => {},
    }
    if !sig_flag(checks, i) {
        return Err(EffectError::Crypto);
    }
    match find_key(&acc.issuance_keys, code) {
        Some(j) => {
            proof {
                lemma_key_index_bounds(acc.issuance_keys@, code);
            }
            if acc.issuance_keys[j].1 != op.signer {
                return Err(EffectError::Inputs);
            }
        },
        None => {
            acc.issuance_keys.push((code, op.signer));
        },
    }
    add_u64(&mut acc.asset_types_involved, code);
    acc.new_issuance_nums.push((code, op.seq_num));
    let ghost s1 = acc@;
    proof {
        assert(issue_rule(old(acc)@, op, checks@, i as int) == issue_records(s1, op, op.records@.len()));
    }
    let mut k: usize = 0;
    while k < op.records.len()
        invariant
            k <= op.records@.len(),
            code == op.code,
            issue_rule(old(acc)@, op, checks@, i as int) == issue_records(s1, op, op.records@.len()),
            issue_records(s1, op, k as nat) == Ok::<EffectView, EffectError>(acc@),
        decreases op.records@.len() - k,
    {
        let ghost before = acc@;
        match issue_one_exec(acc, code, op.signer, &op.records[k]) {
            Ok(_) => {},
            Err(e) => {
                proof {
                    assert(issue_records(s1, op, (k + 1) as nat) == issue_one(before, code, op.signer, op.records@[k as int]));
                    lemma_issue_records_fails_on(s1, op, e, (k + 1) as nat, op.records@.len());
                }
                return Err(e);
            },
        }
        k = k + 1;
    }
    Ok(())
}

fn transfer_exec(
    acc: &mut EffectAccumulator,
    txn: &Transaction,
    op: &TransferAsset,
    checks: &Vec<OpChecks>,
    i: usize,
) -> (r: Result<(), EffectError>)
    ensures
        match r {
            Ok(_) => transfer_rule(old(acc)@, txn, op, checks@, i) == Ok::<EffectView, EffectError>(final(acc)@),
            Err(e) => transfer_rule(old(acc)@, txn, op, checks@, i) == Err::<EffectView, EffectError>(e),
        },
{
    let body = &op.transfer;
    let n_in = body.inputs.len();
    let n_out = body.outputs.len();
    if op.inputs.len() != n_in || op.outputs.len() != n_out {
        return Err(EffectError::Inputs);
    }
    let mut j: usize = 0;
    while j < n_out
        invariant
            j <= n_out,
            n_out == op.transfer.outputs@.len(),
            op.outputs@.len() == n_out,
            forall|m: int| 0 <= m < j ==> #[trigger] op.outputs@[m].record == op.transfer.outputs@[m],
        decreases n_out - j,
    {
        if op.outputs[j].record != op.transfer.outputs[j] {
            proof {
                assert(!outputs_match(op));
            }
            return Err(EffectError::Inputs);
        }
        j = j + 1;
    }
    if op.lien_assignments.len() > 0 && op.transfer_type != TransferType::Standard {
        return Err(EffectError::Inputs);
    }
    let (ins, outs) = match lien_slots_exec(&op.lien_assignments, n_in, n_out, false) {
        None => {
            return Err(EffectError::Inputs);
        },
        Some(p) => p,
    };
    proof {
        lemma_lien_slots_in_range(op.lien_assignments@, n_in as nat, n_out as nat, false, op.lien_assignments@.len());
    }
    match op.transfer_type {
        TransferType::DebtSwap => {
            let d = if i < checks.len() {
                checks[i].debt_swap
            } else {
                None
            };
            match d {
                None => {
                    return Err(EffectError::Policy);
                },
                Some(d) => {
                    if find_key(&acc.debt_effects, d.debt_type).is_some() {
                        return Err(EffectError::Inputs);
                    }
                    acc.debt_effects.push((d.debt_type, d.effect));
                },
            }
        },
        TransferType::Standard => {
            match authorize_exec(acc, txn, checks, i, &op.body_signatures, &body.inputs, false, n_in) {
                Err(e) => {
                    return Err(e);
                },
                Ok(_) => {},
            }
            if !trace_exec(&mut acc.tracing_policies, body) {
                return Err(EffectError::Inputs);
            }
        },
    }
    if !resolve_transfer_exec(acc, op, &ins) {
        return Err(EffectError::Inputs);
    }
    let input_types = plain_codes_exec(&body.inputs);
    let conf = has_confidential_exec(&body.outputs);
    push_outputs_exec(acc, &body.outputs, &op.lien_assignments, &outs);
    note_input_types_exec(acc, &input_types, conf);
    Ok(())
}

/// The outputs a bind locks, built from its body and lien slots.
fn bound_of_bind_exec(op: &BindAssets, ins: &Vec<Option<usize>>) -> (r: Lien)
    requires
        op.transfer.inputs@.len() >= 1,
        ins@.len() == op.transfer.inputs@.len(),
        forall|j: int| 0 <= j < ins@.len() ==> (#[trigger] ins@[j] matches Some(x) ==> x < op.input_liens@.len()),
    ensures
        r == lien_of(bound_of_bind(op, ins@)),
{
    let ghost bound = bound_of_bind(op, ins@);
    let n = op.transfer.inputs.len();
    let mut l = Lien::Empty;
    let mut k: usize = n;
    proof {
        assert(bound.subrange(n - 1, n - 1) =~= Seq::<TxOutput>::empty());
    }
    while k > 1
        invariant
            1 <= k <= n,
            n == op.transfer.inputs@.len(),
            ins@.len() == n,
            forall|j: int| 0 <= j < ins@.len() ==> (#[trigger] ins@[j] matches Some(x) ==> x < op.input_liens@.len()),
            bound == bound_of_bind(op, ins@),
            l == lien_of(bound.subrange(k - 1, n - 1)),
        decreases k,
    {
        let lien = bind_slot_lien_exec(&op.input_liens, ins[k - 1]);
        let head = TxOutput { id: None, record: op.transfer.inputs[k - 1], lien };
        proof {
            let sub = bound.subrange(k - 2, n - 1);
            assert(sub[0] == head);
            assert(sub.subrange(1, sub.len() as int) =~= bound.subrange(k - 1, n - 1));
        }
        l = Lien::Bound(Box::new(head), Box::new(l));
        k = k - 1;
    }
    proof {
        assert(bound.subrange(0, n - 1) =~= bound);
    }
    l
}

fn bound_of_release_exec(op: &ReleaseAssets, ins: &Vec<Option<usize>>) -> (r: Lien)
    requires
        op.transfer.inputs@.len() >= 1,
        ins@.len() == op.transfer.inputs@.len(),
        forall|j: int| 0 <= j < ins@.len() ==> (#[trigger] ins@[j] matches Some(x) ==> x < op.lien_assignments@.len()),
    ensures
        r == lien_of(bound_of_release(op, ins@)),
{
    let ghost bound = bound_of_release(op, ins@);
    let n = op.transfer.inputs.len();
    let mut l = Lien::Empty;
    let mut k: usize = n;
    proof {
        assert(bound.subrange(n - 1, n - 1) =~= Seq::<TxOutput>::empty());
    }
    while k > 1
        invariant
            1 <= k <= n,
            n == op.transfer.inputs@.len(),
            ins@.len() == n,
            forall|j: int| 0 <= j < ins@.len() ==> (#[trigger] ins@[j] matches Some(x) ==> x < op.lien_assignments@.len()),
            bound == bound_of_release(op, ins@),
            l == lien_of(bound.subrange(k - 1, n - 1)),
        decreases k,
    {
        let lien = slot_lien_exec(&op.lien_assignments, ins[k - 1]);
        let head = TxOutput { id: None, record: op.transfer.inputs[k - 1], lien };
        proof {
            let sub = bound.subrange(k - 2, n - 1);
            assert(sub[0] == head);
            assert(sub.subrange(1, sub.len() as int) =~= bound.subrange(k - 1, n - 1));
        }
        l = Lien::Bound(Box::new(head), Box::new(l));
        k = k - 1;
    }
    proof {
        assert(bound.subrange(0, n - 1) =~= bound);
    }
    l
}

fn bind_exec(
    acc: &mut EffectAccumulator,
    txn: &Transaction,
    op: &BindAssets,
    checks: &Vec<OpChecks>,
    i: usize,
) -> (r: Result<(), EffectError>)
    ensures
        match r {
            Ok(_) => bind_rule(old(acc)@, txn, op, checks@, i) == Ok::<EffectView, EffectError>(final(acc)@),
            Err(e) => bind_rule(old(acc)@, txn, op, checks@, i) == Err::<EffectView, EffectError>(e),
        },
{
    let body = &op.transfer;
    let n = body.inputs.len();
    if op.inputs.len() >= n || op.inputs.len() + 1 != n {
        return Err(EffectError::Inputs);
    }
    if body.outputs.len() == 0 {
        return Err(EffectError::Inputs);
    }
    if body.inputs[0].asset_type.get_asset_type().is_none() || body.inputs[0].asset_type != body.outputs[0].asset_type {
        return Err(EffectError::Inputs);
    }
    let ins = match bind_slots_exec(&op.input_liens, n) {
        None => {
            return Err(EffectError::Inputs);
        },
        Some(a) => a,
    };
    proof {
        lemma_bind_slots_in_range(op.input_liens@, n as nat, op.input_liens@.len());
    }
    match authorize_exec(acc, txn, checks, i, &op.body_signatures, &body.inputs, true, n) {
        Err(e) => {
            return Err(e);
        },
        Ok(_) => {},
    }
    let lien = bound_of_bind_exec(op, &ins);
    if !resolve_bind_exec(acc, op, &ins) {
        return Err(EffectError::Inputs);
    }
    let out = body.outputs[0];
    match out.asset_type.get_asset_type() {
        Some(c) => add_u64(&mut acc.asset_types_involved, c),
        None => {},
    }
    acc.txos.push(Some(TxOutput { id: None, record: out, lien: Some(lien) }));
    let input_types = plain_codes_exec(&body.inputs);
    note_input_types_exec(acc, &input_types, false);
    Ok(())
}

fn release_exec(
    acc: &mut EffectAccumulator,
    txn: &Transaction,
    op: &ReleaseAssets,
    checks: &Vec<OpChecks>,
    i: usize,
) -> (r: Result<(), EffectError>)
    ensures
        match r {
            Ok(_) => release_rule(old(acc)@, txn, op, checks@, i) == Ok::<EffectView, EffectError>(final(acc)@),
            Err(e) => release_rule(old(acc)@, txn, op, checks@, i) == Err::<EffectView, EffectError>(e),
        },
{
    let body = &op.transfer;
    let n = body.inputs.len();
    let n_out = body.outputs.len();
    if n == 0 {
        return Err(EffectError::Inputs);
    }
    if op.num_outputs != n_out {
        return Err(EffectError::Inputs);
    }
    let (ins, outs) = match lien_slots_exec(&op.lien_assignments, n, n_out, true) {
        None => {
            return Err(EffectError::Inputs);
        },
        Some(p) => p,
    };
    proof {
        lemma_lien_slots_in_range(op.lien_assignments@, n as nat, n_out as nat, true, op.lien_assignments@.len());
    }
    if body.inputs[0].asset_type.get_asset_type().is_none() {
        return Err(EffectError::Inputs);
    }
    match authorize_exec(acc, txn, checks, i, &op.body_signatures, &body.inputs, false, 1) {
        Err(e) => {
            return Err(e);
        },
        Ok(_) => {},
    }
    let lien = bound_of_release_exec(op, &ins);
    if !resolve_one_exec(acc, op.contract, body.inputs[0], Some(lien)) {
        return Err(EffectError::Inputs);
    }
    let input_types = plain_codes_exec(&body.inputs);
    let conf = has_confidential_exec(&body.outputs);
    push_outputs_exec(acc, &body.outputs, &op.lien_assignments, &outs);
    note_input_types_exec(acc, &input_types, conf);
    Ok(())
}

fn air_exec(acc: &mut EffectAccumulator, txn: &Transaction, op: &AirAssign, checks: &Vec<OpChecks>, i: usize) -> (r: Result<(), EffectError>)
    ensures
        match r {
            Ok(_) => air_rule(old(acc)@, txn, *op, checks@, i as int) == Ok::<EffectView, EffectError>(final(acc)@),
            Err(e) => air_rule(old(acc)@, txn, *op, checks@, i as int) == Err::<EffectView, EffectError>(e),
        },
{
    if op.no_replay_token != txn.no_replay_token {
        return Err(EffectError::Inputs);
    }
    if !sig_flag(checks, i) || !proof_flag(checks, i) {
        return Err(EffectError::Crypto);
    }
    upsert_u64(&mut acc.air_updates, op.addr, op.data);
    Ok(())
}

fn memo_exec(acc: &mut EffectAccumulator, txn: &Transaction, op: &UpdateMemo, checks: &Vec<OpChecks>, i: usize) -> (r: Result<(), EffectError>)
    ensures
        match r {
            Ok(_) => memo_rule(old(acc)@, txn, *op, checks@, i as int) == Ok::<EffectView, EffectError>(final(acc)@),
            Err(e) => memo_rule(old(acc)@, txn, *op, checks@, i as int) == Err::<EffectView, EffectError>(e),
        },
{
    if op.no_replay_token != txn.no_replay_token {
        return Err(EffectError::Inputs);
    }
    if !sig_flag(checks, i) {
        return Err(EffectError::Crypto);
    }
    acc.memo_updates.push((op.asset_type, op.signer, op.new_memo));
    Ok(())
}

fn kv_last_exec(v: &Vec<KvUpdate>, key: u64) -> (r: Option<usize>)
    ensures
        match r {
            Some(j) => kv_last(v@, key) == j as int && j < v@.len(),
            None => kv_last(v@, key) == -1,
        },
{
    let mut i: usize = v.len();
    proof {
        assert(v@.subrange(0, i as int) =~= v@);
    }
    while i > 0
        invariant
            i <= v@.len(),
            kv_last(v@, key) == kv_last(v@.subrange(0, i as int), key),
        decreases i,
    {
        if v[i - 1].key == key {
            return Some(i - 1);
        }
        proof {
            assert(v@.subrange(0, i as int).drop_last() =~= v@.subrange(0, i - 1));
        }
        i = i - 1;
    }
    None
}

fn kv_exec(acc: &mut EffectAccumulator, op: &KvUpdate, checks: &Vec<OpChecks>, i: usize) -> (r: Result<(), EffectError>)
    ensures
        match r {
            Ok(_) => kv_rule(old(acc)@, *op, checks@, i as int) == Ok::<EffectView, EffectError>(final(acc)@),
            Err(e) => kv_rule(old(acc)@, *op, checks@, i as int) == Err::<EffectView, EffectError>(e),
        },
{
    let signed = sig_flag(checks, i);
    match kv_last_exec(&acc.kv_updates, op.key) {
        Some(j) => {
            let prior = acc.kv_updates[j];
            if prior.generation as u128 + 1 != op.generation as u128 {
                return Err(EffectError::Inputs);
            }
            match prior.value {
                Some(ent) => {
                    if !(signed && op.signer == ent.owner) {
                        return Err(EffectError::Crypto);
                    }
                },
                None => {},
            }
        },
        None => {},
    }
    match op.value {
        Some(ent) => {
            if !(signed && op.signer == ent.owner) {
                return Err(EffectError::Crypto);
            }
        },
        None => {},
    }
    acc.kv_updates.push(*op);
    Ok(())
}

fn op_exec(acc: &mut EffectAccumulator, txn: &Transaction, checks: &Vec<OpChecks>, i: usize) -> (r: Result<(), EffectError>)
    requires
        i < txn.operations@.len(),
    ensures
        match r {
            Ok(_) => op_rule(old(acc)@, txn, checks@, i) == Ok::<EffectView, EffectError>(final(acc)@),
            Err(e) => op_rule(old(acc)@, txn, checks@, i) == Err::<EffectView, EffectError>(e),
        },
{
    match &txn.operations[i] {
        Operation::DefineAsset(op) => define_exec(acc, op, checks, i),
        Operation::IssueAsset(op) => issue_exec(acc, op, checks, i),
        Operation::TransferAsset(op) => transfer_exec(acc, txn, op, checks, i),
        Operation::AIRAssign(op) => air_exec(acc, txn, op, checks, i),
        Operation::UpdateMemo(op) => memo_exec(acc, txn, op, checks, i),
        Operation::BindAssets(op) => bind_exec(acc, txn, op, checks, i),
        Operation::ReleaseAssets(op) => release_exec(acc, txn, op, checks, i),
        Operation::KVStoreUpdate(op) => kv_exec(acc, op, checks, i),
    }
}

/// A failure stays the result as more operations follow.
pub proof fn lemma_effect_fails_on(txn: &Transaction, checks: Seq<OpChecks>, e: EffectError, k: nat, m: nat)
    requires
        effect_upto(txn, checks, k) == Err::<EffectView, EffectError>(e),
        k <= m,
    ensures
        effect_upto(txn, checks, m) == Err::<EffectView, EffectError>(e),
    decreases m - k,
{
    if k < m {
        lemma_effect_fails_on(txn, checks, e, k, (m - 1) as nat);
    }
}

/// Runs every operation of `txn` over fresh accumulators.
fn accumulate(txn: &Transaction, checks: &Vec<OpChecks>) -> (r: Result<EffectAccumulator, EffectError>)
    ensures
        match r {
            Ok(a) => effect_of(txn, checks@) == Ok::<EffectView, EffectError>(a@),
            Err(err) => effect_of(txn, checks@) == Err::<EffectView, EffectError>(err),
        },
{
    let mut acc = EffectAccumulator::new();
    let mut i: usize = 0;
    while i < txn.operations.len()
        invariant
            i <= txn.operations@.len(),
            effect_upto(txn, checks@, i as nat) == Ok::<EffectView, EffectError>(acc@),
        decreases txn.operations@.len() - i,
    {
        match op_exec(&mut acc, txn, checks, i) {
            Ok(_) => {},
            Err(e) => {
                proof {
                    lemma_effect_fails_on(txn, checks@, e, (i + 1) as nat, txn.operations@.len());
                }
                return Err(e);
            },
        }
        i = i + 1;
    }
    Ok(acc)
}

/// The checked effect of one transaction: the transaction itself and what
/// it consumes, produces, defines and updates.
pub struct TxnEffect {
    pub txn: Transaction,
    /// Outputs in order of production; those spent later in the same
    /// transaction are `None`.
    pub txos: Vec<Option<TxOutput>>,
    /// Ledger outputs consumed, by id, with the record and lien expected there.
    pub input_txos: Vec<(u64, TxOutput)>,
    /// Outputs made and spent within the transaction.
    pub internally_spent_txos: Vec<TxOutput>,
    /// Asset types defined, by code.
    pub new_asset_codes: Vec<(u64, AssetDefinition)>,
    /// Issuance sequence numbers used, in order, with their asset code.
    pub new_issuance_nums: Vec<(u64, u64)>,
    /// The key that issues each asset code.
    pub issuance_keys: Vec<(u64, u64)>,
    /// Plaintext units issued, by code.
    pub issuance_amounts: Vec<(u64, u64)>,
    /// Codes issued with a confidential amount.
    pub confidential_issuance_types: Vec<u64>,
    /// (operation, input) pairs whose co-signers are tracked.
    pub cosig_slots: Vec<(usize, usize)>,
    /// Co-signer keys of (operation, input) pairs.
    pub cosig_keys: Vec<(usize, usize, u64)>,
    /// Debt-swap effects, by debt asset code.
    pub debt_effects: Vec<(u64, u64)>,
    /// Plaintext input codes of transfers with a confidential output.
    pub confidential_transfer_inputs: Vec<u64>,
    /// The tracing policy each plaintext asset code was checked under.
    pub tracing_policies: Vec<(u64, u64)>,
    pub asset_types_involved: Vec<u64>,
    /// Identity registry updates, by address.
    pub air_updates: Vec<(u64, u64)>,
    pub kv_updates: Vec<KvUpdate>,
    /// (asset code, signer, new memo), in order.
    pub memo_updates: Vec<(u64, u64, u64)>,
}

impl TxnEffect {
    pub open spec fn view(&self) -> EffectView {
        EffectView {
            txos: self.txos@,
            input_txos: self.input_txos@,
            internally_spent_txos: self.internally_spent_txos@,
            new_asset_codes: self.new_asset_codes@,
            new_issuance_nums: self.new_issuance_nums@,
            issuance_keys: self.issuance_keys@,
            issuance_amounts: self.issuance_amounts@,
            confidential_issuance_types: self.confidential_issuance_types@,
            cosig_slots: self.cosig_slots@,
            cosig_keys: self.cosig_keys@,
            debt_effects: self.debt_effects@,
            confidential_transfer_inputs: self.confidential_transfer_inputs@,
            tracing_policies: self.tracing_policies@,
            asset_types_involved: self.asset_types_involved@,
            air_updates: self.air_updates@,
            kv_updates: self.kv_updates@,
            memo_updates: self.memo_updates@,
        }
    }

    /// Checks every operation of `txn` in order and collects what they change.
    /// `checks[i]` holds the verifiers' answers for operation `i`; a missing
    /// answer counts as a failed check. The first violated rule is the error.
    pub fn compute_effect(txn: Transaction, checks: &Vec<OpChecks>) -> (r: Result<TxnEffect, EffectError>)
        ensures
            match r {
                Ok(e) => effect_of(&txn, checks@) == Ok::<EffectView, EffectError>(e@) && e.txn == txn,
                Err(err) => effect_of(&txn, checks@) == Err::<EffectView, EffectError>(err),
            },
    {
        let acc = match accumulate(&txn, checks) {
            Err(e) => {
                return Err(e);
            },
            Ok(a) => a,
        };
        let EffectAccumulator {
            txos,
            input_txos,
            internally_spent_txos,
            new_asset_codes,
            new_issuance_nums,
            issuance_keys,
            issuance_amounts,
            confidential_issuance_types,
            cosig_slots,
            cosig_keys,
            debt_effects,
            confidential_transfer_inputs,
            tracing_policies,
            asset_types_involved,
            air_updates,
            kv_updates,
            memo_updates,
        } = acc;
        Ok(
            TxnEffect {
                txn,
                txos,
                input_txos,
                internally_spent_txos,
                new_asset_codes,
                new_issuance_nums,
                issuance_keys,
                issuance_amounts,
                confidential_issuance_types,
                cosig_slots,
                cosig_keys,
                debt_effects,
                confidential_transfer_inputs,
                tracing_policies,
                asset_types_involved,
                air_updates,
                kv_updates,
                memo_updates,
            },
        )
    }
}

// ---- the invariant check ----

/// The effect is not consistent with its transaction.
#[derive(Clone, Copy, Debug, PartialEq, Eq, Structural)]
pub struct InvariantViolation;

/// How many of the first `k` references are `Absolute(sid)`.
pub open spec fn abs_refs_in(refs: Seq<TxoRef>, sid: u64, k: nat) -> nat
    decreases k,
{
    if k == 0 {
        0
    } else {
        abs_refs_in(refs, sid, (k - 1) as nat) + if refs[k - 1] == TxoRef::Absolute(sid) {
            1nat
        } else {
            0nat
        }
    }
}

/// How many inputs of the transfers among operations `0..o` are `Absolute(sid)`.
pub open spec fn abs_refs_upto(txn: &Transaction, sid: u64, o: nat) -> nat
    decreases o,
{
    if o == 0 {
        0
    } else {
        abs_refs_upto(txn, sid, (o - 1) as nat) + match &txn.operations@[o - 1] {
            Operation::TransferAsset(t) => abs_refs_in(t.inputs@, sid, t.inputs@.len()),
            _ => 0,
        }
    }
}

/// Every transfer has one body input for each input reference.
pub open spec fn transfers_shaped(txn: &Transaction) -> bool {
    forall|o: int|
        0 <= o < txn.operations@.len() ==> match #[trigger] &txn.operations@[o] {
            Operation::TransferAsset(t) => t.inputs@.len() == t.transfer.inputs@.len(),
            _ => true,
        }
}

/// Input `k` of a transfer agrees with a consumed ledger output `(sid, rec)`:
/// a reference to `sid` carries `rec`, and a relative one does not.
pub open spec fn input_agrees(t: &TransferAsset, k: int, sid: u64, rec: AssetRecord) -> bool {
    &&& t.inputs@[k] == TxoRef::Absolute(sid) ==> t.transfer.inputs@[k] == rec
    &&& t.inputs@[k] is Relative ==> t.transfer.inputs@[k] != rec
}

/// Every input of `op`, if a transfer, agrees with `(sid, rec)`.
pub open spec fn op_agrees(op: &Operation, sid: u64, rec: AssetRecord) -> bool {
    match op {
        Operation::TransferAsset(t) => forall|k: int| 0 <= k < t.inputs@.len() ==> #[trigger] input_agrees(t, k, sid, rec),
        _ => true,
    }
}

pub open spec fn entry_accounted(txn: &Transaction, sid: u64, rec: AssetRecord) -> bool {
    &&& forall|o: int| 0 <= o < txn.operations@.len() ==> op_agrees(#[trigger] &txn.operations@[o], sid, rec)
    &&& abs_refs_upto(txn, sid, txn.operations@.len()) == 1
}

/// Every consumed ledger output is named by exactly one transfer input,
/// with the same record, and no relative input carries that record.
pub open spec fn inputs_accounted(e: &TxnEffect) -> bool {
    e.input_txos@.len() == 0 || (transfers_shaped(&e.txn) && forall|x: int|
        0 <= x < e.input_txos@.len() ==> entry_accounted(
            &e.txn,
            #[trigger] e.input_txos@[x].0,
            e.input_txos@[x].1.record,
        ))
}

proof fn lemma_abs_refs_in_mono(refs: Seq<TxoRef>, sid: u64, k: nat, m: nat)
    requires
        k <= m,
    ensures
        abs_refs_in(refs, sid, k) <= abs_refs_in(refs, sid, m),
    decreases m - k,
{
    if k < m {
        lemma_abs_refs_in_mono(refs, sid, k, (m - 1) as nat);
    }
}

proof fn lemma_abs_refs_upto_mono(txn: &Transaction, sid: u64, o: nat, m: nat)
    requires
        o <= m,
    ensures
        abs_refs_upto(txn, sid, o) <= abs_refs_upto(txn, sid, m),
    decreases m - o,
{
    if o < m {
        lemma_abs_refs_upto_mono(txn, sid, o, (m - 1) as nat);
    }
}

impl TxnEffect {
    /// The cheap check: nothing to check.
    pub fn fast_invariant_check(&self) -> (r: Result<(), InvariantViolation>)
        ensures
            r is Ok,
    {
        Ok(())
    }

    /// Checks that the consumed ledger outputs are accounted for by the
    /// transaction's transfers, and that recomputing the effect from its own
    /// transaction, with the verifiers' answers `checks`, gives it back exactly.
    pub fn deep_invariant_check(&self, checks: &Vec<OpChecks>) -> (r: Result<(), InvariantViolation>)
        ensures
            r is Ok <==> inputs_accounted(self) && effect_of(&self.txn, checks@)
                == Ok::<EffectView, EffectError>(self@),
    {
        self.check_inputs_accounted()?;
        match accumulate(&self.txn, checks) {
            Err(_) => Err(InvariantViolation),
            Ok(a) => if self.same_as(&a) {
                Ok(())
            } else {
                Err(InvariantViolation)
            },
        }
    }

    /// Whether every field equals the accumulator's.
    fn same_as(&self, a: &EffectAccumulator) -> (r: bool)
        ensures
            r == (self@ == a@),
    {
        let r = opt_outputs_eq(&self.txos, &a.txos)
            && keyed_outputs_eq(&self.input_txos, &a.input_txos)
            && outputs_eq(&self.internally_spent_txos, &a.internally_spent_txos)
            && definitions_eq(&self.new_asset_codes, &a.new_asset_codes)
            && pairs_eq(&self.new_issuance_nums, &a.new_issuance_nums)
            && pairs_eq(&self.issuance_keys, &a.issuance_keys)
            && pairs_eq(&self.issuance_amounts, &a.issuance_amounts)
            && u64s_eq(&self.confidential_issuance_types, &a.confidential_issuance_types)
            && slots_eq(&self.cosig_slots, &a.cosig_slots)
            && cosigners_eq(&self.cosig_keys, &a.cosig_keys)
            && pairs_eq(&self.debt_effects, &a.debt_effects)
            && u64s_eq(&self.confidential_transfer_inputs, &a.confidential_transfer_inputs)
            && pairs_eq(&self.tracing_policies, &a.tracing_policies)
            && u64s_eq(&self.asset_types_involved, &a.asset_types_involved)
            && pairs_eq(&self.air_updates, &a.air_updates)
            && kv_updates_eq(&self.kv_updates, &a.kv_updates)
            && triples_eq(&self.memo_updates, &a.memo_updates);
        r
    }

    /// The first half of the deep check.
    fn check_inputs_accounted(&self) -> (r: Result<(), InvariantViolation>)
        ensures
            r is Ok <==> inputs_accounted(self),
    {
        let ops = &self.txn.operations;
        let mut x: usize = 0;
        while x < self.input_txos.len()
            invariant
                x <= self.input_txos@.len(),
                ops == &self.txn.operations,
                x > 0 ==> transfers_shaped(&self.txn),
                forall|y: int|
                    0 <= y < x ==> entry_accounted(
                        &self.txn,
                        #[trigger] self.input_txos@[y].0,
                        self.input_txos@[y].1.record,
                    ),
            decreases self.input_txos@.len() - x,
        {
            let sid = self.input_txos[x].0;
            let rec = self.input_txos[x].1.record;
            let mut found = false;
            let mut o: usize = 0;
            while o < ops.len()
                invariant
                    x < self.input_txos@.len(),
                    ops == &self.txn.operations,
                    sid == self.input_txos@[x as int].0,
                    rec == self.input_txos@[x as int].1.record,
                    o <= ops@.len(),
                    x > 0 ==> transfers_shaped(&self.txn),
                    forall|y: int|
                        0 <= y < x ==> entry_accounted(
                            &self.txn,
                            #[trigger] self.input_txos@[y].0,
                            self.input_txos@[y].1.record,
                        ),
                    forall|p: int|
                        0 <= p < o ==> match #[trigger] &ops@[p] {
                            Operation::TransferAsset(t) => t.inputs@.len() == t.transfer.inputs@.len(),
                            _ => true,
                        },
                    forall|p: int| 0 <= p < o ==> op_agrees(#[trigger] &ops@[p], sid, rec),
                    abs_refs_upto(&self.txn, sid, o as nat) <= 1,
                    found == (abs_refs_upto(&self.txn, sid, o as nat) == 1),
                decreases ops@.len() - o,
            {
                match &ops[o] {
                    Operation::TransferAsset(t) => {
                        if t.inputs.len() != t.transfer.inputs.len() {
                            return Err(InvariantViolation);
                        }
                        let mut k: usize = 0;
                        while k < t.inputs.len()
                            invariant
                                x < self.input_txos@.len(),
                                sid == self.input_txos@[x as int].0,
                                rec == self.input_txos@[x as int].1.record,
                                o < ops@.len(),
                                ops == &self.txn.operations,
                                &ops@[o as int] == &Operation::TransferAsset(*t),
                                t.inputs@.len() == t.transfer.inputs@.len(),
                                k <= t.inputs@.len(),
                                forall|j: int| 0 <= j < k ==> input_agrees(t, j, sid, rec),
                                abs_refs_upto(&self.txn, sid, o as nat) + abs_refs_in(t.inputs@, sid, k as nat) <= 1,
                                found == (abs_refs_upto(&self.txn, sid, o as nat) + abs_refs_in(t.inputs@, sid, k as nat) == 1),
                            decreases t.inputs@.len() - k,
                        {
                            match t.inputs[k] {
                                TxoRef::Absolute(s) => {
                                    if s == sid {
                                        if t.transfer.inputs[k] != rec {
                                            proof {
                                                assert(!input_agrees(t, k as int, sid, rec));
                                                assert(!op_agrees(&ops@[o as int], sid, rec));
                                                assert(!entry_accounted(&self.txn, self.input_txos@[x as int].0, self.input_txos@[x as int].1.record));
                                            }
                                            return Err(InvariantViolation);
                                        }
                                        if found {
                                            proof {
                                                assert(abs_refs_in(t.inputs@, sid, (k + 1) as nat) == abs_refs_in(t.inputs@, sid, k as nat) + 1);
                                                lemma_abs_refs_in_mono(t.inputs@, sid, (k + 1) as nat, t.inputs@.len());
                                                assert(abs_refs_upto(&self.txn, sid, (o + 1) as nat) == abs_refs_upto(&self.txn, sid, o as nat) + abs_refs_in(t.inputs@, sid, t.inputs@.len()));
                                                lemma_abs_refs_upto_mono(&self.txn, sid, (o + 1) as nat, ops@.len());
                                                assert(!entry_accounted(&self.txn, self.input_txos@[x as int].0, self.input_txos@[x as int].1.record));
                                            }
                                            return Err(InvariantViolation);
                                        }
                                        found = true;
                                    }
                                },
                                TxoRef::Relative(_) => {
                                    if t.transfer.inputs[k] == rec {
                                        proof {
                                            assert(!input_agrees(t, k as int, sid, rec));
                                            assert(!op_agrees(&ops@[o as int], sid, rec));
                                            assert(!entry_accounted(&self.txn, self.input_txos@[x as int].0, self.input_txos@[x as int].1.record));
                                        }
                                        return Err(InvariantViolation);
                                    }
                                },
                            }
                            k = k + 1;
                        }
                    },
                    _ => {},
                }
                o = o + 1;
            }
            if !found {
                return Err(InvariantViolation);
            }
            x = x + 1;
        }
        Ok(())
    }
}

} // verus!
