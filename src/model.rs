//! The data a transaction carries.
//!
//! Keys, asset codes, commitments and payloads are held as opaque integers:
//! the logic only compares them. A lien holds the list of bound records
//! itself, so two liens are equal exactly when they bind the same records.
use vstd::prelude::*;

verus! {

/// An amount, in the clear or as a commitment.
#[derive(Clone, Copy, Debug, PartialEq, Eq, Structural)]
pub enum XfrAmount {
    NonConfidential(u64),
    Confidential(u64),
}

/// An asset type, in the clear (its code) or as a commitment.
#[derive(Clone, Copy, Debug, PartialEq, Eq, Structural)]
pub enum XfrAssetType {
    NonConfidential(u64),
    Confidential(u64),
}

impl XfrAssetType {
    /// The code of a non-confidential type.
    pub open spec fn code(self) -> Option<u64> {
        match self {
            XfrAssetType::NonConfidential(c) => Some(c),
            XfrAssetType::Confidential(_) => None,
        }
    }

    pub fn get_asset_type(&self) -> (r: Option<u64>)
        ensures
            r == self.code(),
    {
        match self {
            XfrAssetType::NonConfidential(c) => Some(*c),
            XfrAssetType::Confidential(_) => None,
        }
    }
}

/// An asset record: owner key, amount and type.
#[derive(Clone, Copy, Debug, PartialEq, Eq, Structural)]
pub struct AssetRecord {
    pub amount: XfrAmount,
    pub asset_type: XfrAssetType,
    pub public_key: u64,
}

/// A commitment to an ordered list of bound outputs.
#[derive(Debug, PartialEq, Eq)]
pub enum Lien {
    Empty,
    Bound(Box<TxOutput>, Box<Lien>),
}

/// An output of a transaction: a record, an optional ledger id, an optional lien.
#[derive(Debug, PartialEq, Eq)]
pub struct TxOutput {
    pub id: Option<u64>,
    pub record: AssetRecord,
    pub lien: Option<Lien>,
}

/// The lien that commits to `s`, in order.
pub open spec fn lien_of(s: Seq<TxOutput>) -> Lien
    decreases s.len(),
{
    if s.len() == 0 {
        Lien::Empty
    } else {
        Lien::Bound(Box::new(s[0]), Box::new(lien_of(s.subrange(1, s.len() as int))))
    }
}

/// Liens made from different lists differ.
pub proof fn lemma_lien_of_injective(a: Seq<TxOutput>, b: Seq<TxOutput>)
    requires
        lien_of(a) == lien_of(b),
    ensures
        a == b,
    decreases a.len(),
{
    if a.len() > 0 && b.len() > 0 {
        lemma_lien_of_injective(a.subrange(1, a.len() as int), b.subrange(1, b.len() as int));
        assert(a =~= seq![a[0]] + a.subrange(1, a.len() as int));
        assert(b =~= seq![b[0]] + b.subrange(1, b.len() as int));
    }
}

pub fn copy_lien(l: &Lien) -> (r: Lien)
    ensures
        r == *l,
    decreases l,
{
    match l {
        Lien::Empty => Lien::Empty,
        Lien::Bound(head, rest) => {
            let h = copy_output(head);
            let t = copy_lien(rest);
            Lien::Bound(Box::new(h), Box::new(t))
        },
    }
}

pub fn copy_output(o: &TxOutput) -> (r: TxOutput)
    ensures
        r == *o,
    decreases o,
{
    let lien = match &o.lien {
        None => None,
        Some(l) => Some(copy_lien(l)),
    };
    TxOutput { id: o.id, record: o.record, lien }
}

pub fn copy_opt_lien(l: &Option<Lien>) -> (r: Option<Lien>)
    ensures
        r == *l,
{
    match l {
        None => None,
        Some(x) => Some(copy_lien(x)),
    }
}

pub fn lien_eq(a: &Lien, b: &Lien) -> (r: bool)
    ensures
        r == (*a == *b),
    decreases a,
{
    match (a, b) {
        (Lien::Empty, Lien::Empty) => true,
        (Lien::Bound(ha, ta), Lien::Bound(hb, tb)) => {
            if !output_eq(ha, hb) {
                false
            } else {
                lien_eq(ta, tb)
            }
        },
        _ => false,
    }
}

pub fn opt_lien_eq(a: &Option<Lien>, b: &Option<Lien>) -> (r: bool)
    ensures
        r == (*a == *b),
{
    match (a, b) {
        (None, None) => true,
        (Some(x), Some(y)) => lien_eq(x, y),
        _ => false,
    }
}

pub fn output_eq(a: &TxOutput, b: &TxOutput) -> (r: bool)
    ensures
        r == (*a == *b),
    decreases a,
{
    if a.id != b.id || a.record != b.record {
        return false;
    }
    match (&a.lien, &b.lien) {
        (None, None) => true,
        (Some(x), Some(y)) => lien_eq(x, y),
        _ => false,
    }
}

/// A per-transaction token against replay.
#[derive(Clone, Copy, Debug, PartialEq, Eq, Structural)]
pub struct NoReplayToken {
    pub rand: u64,
    pub seq_id: u64,
}

/// A reference to an output: `Relative(k)` is the output `k` places before the
/// newest one made earlier in the same transaction; `Absolute(sid)` is an
/// output already in the ledger.
#[derive(Clone, Copy, Debug, PartialEq, Eq, Structural)]
pub enum TxoRef {
    Relative(u64),
    Absolute(u64),
}

/// The fixed properties of an asset type.
#[derive(Clone, Copy, Debug, PartialEq, Eq, Structural)]
pub struct AssetDefinition {
    pub code: u64,
    pub issuer: u64,
    pub memo: u64,
    /// A policy script, whose init check must pass when the asset is defined.
    pub policy: Option<u64>,
    pub max_units: Option<u64>,
}

#[derive(Clone, Copy, Debug, PartialEq, Eq, Structural)]
pub enum TransferType {
    Standard,
    DebtSwap,
}

/// A signature over a transfer body; `input_idx` names the input it co-signs.
#[derive(Clone, Copy, Debug, PartialEq, Eq, Structural)]
pub struct BodySignature {
    pub address: u64,
    pub input_idx: Option<usize>,
}

/// The zero-knowledge transfer body: input and output records and the tracing
/// policy that each is declared under.
#[derive(Debug)]
pub struct XfrBody {
    pub inputs: Vec<AssetRecord>,
    pub outputs: Vec<AssetRecord>,
    pub inputs_tracing_policies: Vec<u64>,
    pub outputs_tracing_policies: Vec<u64>,
}

/// Puts `lien` on input `input_idx` and output `output_idx`.
#[derive(Debug)]
pub struct LienAssignment {
    pub input_idx: usize,
    pub output_idx: usize,
    pub lien: Lien,
}

/// Puts `lien` on bound input `input_idx` (the contract not counted).
#[derive(Debug)]
pub struct InputLien {
    pub input_idx: usize,
    pub lien: Lien,
}

#[derive(Debug)]
pub struct DefineAsset {
    pub asset: AssetDefinition,
    pub signer: u64,
}

#[derive(Debug)]
pub struct IssueAsset {
    pub code: u64,
    pub seq_num: u64,
    pub num_outputs: usize,
    pub records: Vec<TxOutput>,
    pub signer: u64,
}

#[derive(Debug)]
pub struct TransferAsset {
    pub inputs: Vec<TxoRef>,
    pub outputs: Vec<TxOutput>,
    pub transfer: XfrBody,
    pub lien_assignments: Vec<LienAssignment>,
    pub transfer_type: TransferType,
    pub body_signatures: Vec<BodySignature>,
}

#[derive(Clone, Copy, Debug, PartialEq, Eq, Structural)]
pub struct AirAssign {
    pub addr: u64,
    pub data: u64,
    pub issuer_pk: u64,
    pub no_replay_token: NoReplayToken,
    pub signer: u64,
}

#[derive(Clone, Copy, Debug, PartialEq, Eq, Structural)]
pub struct UpdateMemo {
    pub asset_type: u64,
    pub new_memo: u64,
    pub no_replay_token: NoReplayToken,
    pub signer: u64,
}

/// Locks `inputs` under `contract`, which is input 0 of the transfer body.
#[derive(Debug)]
pub struct BindAssets {
    pub contract: TxoRef,
    pub inputs: Vec<TxoRef>,
    pub transfer: XfrBody,
    pub input_liens: Vec<InputLien>,
    pub body_signatures: Vec<BodySignature>,
}

/// Unlocks what `contract`, input 0 of the transfer body, holds.
#[derive(Debug)]
pub struct ReleaseAssets {
    pub contract: TxoRef,
    pub num_outputs: usize,
    pub transfer: XfrBody,
    pub lien_assignments: Vec<LienAssignment>,
    pub body_signatures: Vec<BodySignature>,
}

#[derive(Clone, Copy, Debug, PartialEq, Eq, Structural)]
pub struct KvEntry {
    pub owner: u64,
    pub data: u64,
}

/// Sets (or, with no value, clears) `key` at `generation`.
#[derive(Clone, Copy, Debug, PartialEq, Eq, Structural)]
pub struct KvUpdate {
    pub key: u64,
    pub generation: u64,
    pub value: Option<KvEntry>,
    pub signer: u64,
}

#[derive(Debug)]
pub enum Operation {
    DefineAsset(DefineAsset),
    IssueAsset(IssueAsset),
    TransferAsset(TransferAsset),
    AIRAssign(AirAssign),
    UpdateMemo(UpdateMemo),
    BindAssets(BindAssets),
    ReleaseAssets(ReleaseAssets),
    KVStoreUpdate(KvUpdate),
}

/// A transaction: operations in order, its replay token, and the asset codes
/// under a custom policy, each with the inputs of its check.
#[derive(Debug)]
pub struct Transaction {
    pub operations: Vec<Operation>,
    pub no_replay_token: NoReplayToken,
    pub policy_options: Vec<(u64, u64)>,
}

/// What the debt-swap policy computed for a transfer.
#[derive(Clone, Copy, Debug, PartialEq, Eq, Structural)]
pub struct DebtSwap {
    pub debt_type: u64,
    pub effect: u64,
}

/// What the outside verifiers answered for one operation.
///
/// `signature_valid`: the operation's signature verifies under its `signer`
/// (the key a key-value update is signed with). `body_signatures_valid[k]`:
/// body signature `k` verifies under its address. `proof_valid`: the
/// zero-knowledge transfer body, or the credential commitment, verifies.
/// `policy_passed`: the asset's policy init check passed. `debt_swap`: what
/// the debt-swap computation gave, if it succeeded.
#[derive(Debug)]
pub struct OpChecks {
    pub signature_valid: bool,
    pub body_signatures_valid: Vec<bool>,
    pub proof_valid: bool,
    pub policy_passed: bool,
    pub debt_swap: Option<DebtSwap>,
}

// ---- comparing lists ----

pub fn outputs_eq(a: &Vec<TxOutput>, b: &Vec<TxOutput>) -> (r: bool)
    ensures
        r == (a@ == b@),
{
    if a.len() != b.len() {
        return false;
    }
    let mut i: usize = 0;
    while i < a.len()
        invariant
            i <= a@.len(),
            a@.len() == b@.len(),
            forall|j: int| 0 <= j < i ==> a@[j] == b@[j],
        decreases a@.len() - i,
    {
        if !(output_eq(&a[i], &b[i])) {
            return false;
        }
        i = i + 1;
    }
    proof {
        assert(a@ =~= b@);
    }
    true
}

pub fn opt_outputs_eq(a: &Vec<Option<TxOutput>>, b: &Vec<Option<TxOutput>>) -> (r: bool)
    ensures
        r == (a@ == b@),
{
    if a.len() != b.len() {
        return false;
    }
    let mut i: usize = 0;
    while i < a.len()
        invariant
            i <= a@.len(),
            a@.len() == b@.len(),
            forall|j: int| 0 <= j < i ==> a@[j] == b@[j],
        decreases a@.len() - i,
    {
        if !(opt_output_eq(&a[i], &b[i])) {
            return false;
        }
        i = i + 1;
    }
    proof {
        assert(a@ =~= b@);
    }
    true
}

pub fn keyed_outputs_eq(a: &Vec<(u64, TxOutput)>, b: &Vec<(u64, TxOutput)>) -> (r: bool)
    ensures
        r == (a@ == b@),
{
    if a.len() != b.len() {
        return false;
    }
    let mut i: usize = 0;
    while i < a.len()
        invariant
            i <= a@.len(),
            a@.len() == b@.len(),
            forall|j: int| 0 <= j < i ==> a@[j] == b@[j],
        decreases a@.len() - i,
    {
        if !(a[i].0 == b[i].0 && output_eq(&a[i].1, &b[i].1)) {
            return false;
        }
        i = i + 1;
    }
    proof {
        assert(a@ =~= b@);
    }
    true
}

pub fn definitions_eq(a: &Vec<(u64, AssetDefinition)>, b: &Vec<(u64, AssetDefinition)>) -> (r: bool)
    ensures
        r == (a@ == b@),
{
    if a.len() != b.len() {
        return false;
    }
    let mut i: usize = 0;
    while i < a.len()
        invariant
            i <= a@.len(),
            a@.len() == b@.len(),
            forall|j: int| 0 <= j < i ==> a@[j] == b@[j],
        decreases a@.len() - i,
    {
        if !(a[i].0 == b[i].0 && a[i].1 == b[i].1) {
            return false;
        }
        i = i + 1;
    }
    proof {
        assert(a@ =~= b@);
    }
    true
}

pub fn kv_updates_eq(a: &Vec<KvUpdate>, b: &Vec<KvUpdate>) -> (r: bool)
    ensures
        r == (a@ == b@),
{
    if a.len() != b.len() {
        return false;
    }
    let mut i: usize = 0;
    while i < a.len()
        invariant
            i <= a@.len(),
            a@.len() == b@.len(),
            forall|j: int| 0 <= j < i ==> a@[j] == b@[j],
        decreases a@.len() - i,
    {
        if !(a[i] == b[i]) {
            return false;
        }
        i = i + 1;
    }
    proof {
        assert(a@ =~= b@);
    }
    true
}

pub fn opt_output_eq(a: &Option<TxOutput>, b: &Option<TxOutput>) -> (r: bool)
    ensures
        r == (*a == *b),
{
    match (a, b) {
        (None, None) => true,
        (Some(x), Some(y)) => output_eq(x, y),
        _ => false,
    }
}

} // verus!
