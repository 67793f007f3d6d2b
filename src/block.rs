//! Folding transaction effects into a block.
use vstd::prelude::*;
use crate::effects::TxnEffect;
use crate::model::{AssetDefinition, KvUpdate, NoReplayToken, Transaction, TxOutput};
use crate::rules::EffectView;
use crate::tables::{find_key, has_key, lemma_key_index_bounds, upsert, upsert_u64, value_at};

verus! {

/// The position of a transaction within its block.
#[derive(Clone, Copy, Debug, PartialEq, Eq, Structural)]
pub struct TxnTempSID(pub usize);

/// Why an effect cannot join the block.
#[derive(Clone, Copy, Debug, PartialEq, Eq, Structural)]
pub enum AdmissionError {
    /// A key-value key is already updated in the block.
    KvKey,
    /// A ledger output is already consumed in the block.
    InputTxo,
    /// An asset code is already defined or issued in the block.
    AssetCode,
    /// An asset's memo is already updated in the block.
    Memo,
    /// A transaction with the same replay token is already in the block.
    Replay,
    /// An issued total of the block would not fit in 64 bits.
    IssuanceOverflow,
}

/// The block so far, as values.
pub struct BlockView {
    pub txns: Seq<Transaction>,
    pub no_replay_tokens: Seq<NoReplayToken>,
    pub temp_sids: Seq<TxnTempSID>,
    pub txos: Seq<Vec<Option<TxOutput>>>,
    pub input_txos: Seq<(u64, TxOutput)>,
    pub new_asset_codes: Seq<(u64, AssetDefinition)>,
    pub new_issuance_nums: Seq<(u64, u64)>,
    pub issuance_amounts: Seq<(u64, u64)>,
    pub air_updates: Seq<(u64, u64)>,
    pub kv_updates: Seq<KvUpdate>,
    pub memo_updates: Seq<(u64, u64)>,
    pub pulse_count: u64,
}

/// The effects admitted to one block so far.
pub struct BlockEffect {
    /// Transactions in order of admission.
    pub txns: Vec<Transaction>,
    pub no_replay_tokens: Vec<NoReplayToken>,
    pub temp_sids: Vec<TxnTempSID>,
    /// The outputs of each transaction, aligned with `txns`.
    pub txos: Vec<Vec<Option<TxOutput>>>,
    pub input_txos: Vec<(u64, TxOutput)>,
    pub new_asset_codes: Vec<(u64, AssetDefinition)>,
    pub new_issuance_nums: Vec<(u64, u64)>,
    pub issuance_amounts: Vec<(u64, u64)>,
    pub air_updates: Vec<(u64, u64)>,
    pub kv_updates: Vec<KvUpdate>,
    /// The latest memo of each asset code, by code.
    pub memo_updates: Vec<(u64, u64)>,
    /// Heartbeats counted for consensus.
    pub pulse_count: u64,
}

// ---- admission ----

pub open spec fn kv_conflict(b: BlockView, e: EffectView) -> bool {
    exists|i: int, j: int|
        0 <= i < e.kv_updates.len() && 0 <= j < b.kv_updates.len() && #[trigger] e.kv_updates[i].key
            == #[trigger] b.kv_updates[j].key
}

pub open spec fn input_conflict(b: BlockView, e: EffectView) -> bool {
    exists|i: int| 0 <= i < e.input_txos.len() && has_key(b.input_txos, #[trigger] e.input_txos[i].0)
}

/// `code` is defined or issued in the block.
pub open spec fn code_claimed(b: BlockView, code: u64) -> bool {
    has_key(b.new_asset_codes, code) || has_key(b.new_issuance_nums, code)
}

pub open spec fn code_conflict(b: BlockView, e: EffectView) -> bool {
    (exists|i: int| 0 <= i < e.new_asset_codes.len() && code_claimed(b, #[trigger] e.new_asset_codes[i].0))
        || (exists|i: int|
        0 <= i < e.new_issuance_nums.len() && code_claimed(b, #[trigger] e.new_issuance_nums[i].0))
}

pub open spec fn memo_conflict(b: BlockView, e: EffectView) -> bool {
    exists|i: int| 0 <= i < e.memo_updates.len() && has_key(b.memo_updates, #[trigger] e.memo_updates[i].0)
}

pub open spec fn replay_conflict(b: BlockView, token: NoReplayToken) -> bool {
    exists|j: int| 0 <= j < b.txns.len() && #[trigger] b.txns[j].no_replay_token == token
}

pub open spec fn total_of(t: Seq<(u64, u64)>, code: u64) -> int {
    if has_key(t, code) {
        value_at(t, code) as int
    } else {
        0
    }
}

/// The block's issued totals with the first `k` of `add` added, or `None`
/// where a total would not fit.
pub open spec fn merge_amounts(t: Seq<(u64, u64)>, add: Seq<(u64, u64)>, k: nat) -> Option<Seq<(u64, u64)>>
    decreases k,
{
    if k == 0 {
        Some(t)
    } else {
        match merge_amounts(t, add, (k - 1) as nat) {
            None => None,
            Some(m) => {
                let (code, amt) = add[k - 1];
                if total_of(m, code) + amt > u64::MAX {
                    None
                } else {
                    Some(upsert(m, code, (total_of(m, code) + amt) as u64))
                }
            },
        }
    }
}

/// Identity-registry updates `0..k` applied in order.
pub open spec fn merge_air(t: Seq<(u64, u64)>, add: Seq<(u64, u64)>, k: nat) -> Seq<(u64, u64)>
    decreases k,
{
    if k == 0 {
        t
    } else {
        upsert(merge_air(t, add, (k - 1) as nat), add[k - 1].0, add[k - 1].1)
    }
}

/// Memo updates `0..k` applied in order; the last one of a code stays.
pub open spec fn merge_memos(t: Seq<(u64, u64)>, add: Seq<(u64, u64, u64)>, k: nat) -> Seq<(u64, u64)>
    decreases k,
{
    if k == 0 {
        t
    } else {
        upsert(merge_memos(t, add, (k - 1) as nat), add[k - 1].0, add[k - 1].2)
    }
}

/// The block after admitting an effect `e` of `txn`, whose outputs are
/// `txos`, or the first conflict.
pub open spec fn admission(b: BlockView, e: EffectView, txn: Transaction, txos: Vec<Option<TxOutput>>) -> Result<
    BlockView,
    AdmissionError,
> {
    let token = txn.no_replay_token;
    if kv_conflict(b, e) {
        Err(AdmissionError::KvKey)
    } else if input_conflict(b, e) {
        Err(AdmissionError::InputTxo)
    } else if code_conflict(b, e) {
        Err(AdmissionError::AssetCode)
    } else if memo_conflict(b, e) {
        Err(AdmissionError::Memo)
    } else if replay_conflict(b, token) {
        Err(AdmissionError::Replay)
    } else {
        match merge_amounts(b.issuance_amounts, e.issuance_amounts, e.issuance_amounts.len()) {
            None => Err(AdmissionError::IssuanceOverflow),
            Some(amounts) => Ok(
                BlockView {
                    txns: b.txns.push(txn),
                    no_replay_tokens: b.no_replay_tokens.push(token),
                    temp_sids: b.temp_sids.push(TxnTempSID(b.txns.len() as usize)),
                    txos: b.txos.push(txos),
                    input_txos: b.input_txos + e.input_txos,
                    new_asset_codes: b.new_asset_codes + e.new_asset_codes,
                    new_issuance_nums: b.new_issuance_nums + e.new_issuance_nums,
                    issuance_amounts: amounts,
                    air_updates: merge_air(b.air_updates, e.air_updates, e.air_updates.len()),
                    kv_updates: b.kv_updates + e.kv_updates,
                    memo_updates: merge_memos(b.memo_updates, e.memo_updates, e.memo_updates.len()),
                    pulse_count: b.pulse_count,
                },
            ),
        }
    }
}

// ---- checks ----

fn kv_conflict_exec(b: &Vec<KvUpdate>, e: &Vec<KvUpdate>) -> (r: bool)
    ensures
        r == (exists|i: int, j: int|
            0 <= i < e@.len() && 0 <= j < b@.len() && #[trigger] e@[i].key == #[trigger] b@[j].key),
{
    let mut i: usize = 0;
    while i < e.len()
        invariant
            i <= e@.len(),
            forall|x: int, y: int| 0 <= x < i && 0 <= y < b@.len() ==> #[trigger] e@[x].key != #[trigger] b@[y].key,
        decreases e@.len() - i,
    {
        let mut j: usize = 0;
        while j < b.len()
            invariant
                i < e@.len(),
                j <= b@.len(),
                forall|x: int, y: int| 0 <= x < i && 0 <= y < b@.len() ==> #[trigger] e@[x].key != #[trigger] b@[y].key,
                forall|y: int| 0 <= y < j ==> e@[i as int].key != #[trigger] b@[y].key,
            decreases b@.len() - j,
        {
            if e[i].key == b[j].key {
                return true;
            }
            j = j + 1;
        }
        i = i + 1;
    }
    false
}

/// Some key of `e` is a key of `b`.
fn shares_key<V, W>(b: &Vec<(u64, V)>, e: &Vec<(u64, W)>) -> (r: bool)
    ensures
        r == (exists|i: int| 0 <= i < e@.len() && has_key(b@, #[trigger] e@[i].0)),
{
    let mut i: usize = 0;
    while i < e.len()
        invariant
            i <= e@.len(),
            forall|x: int| 0 <= x < i ==> !has_key(b@, #[trigger] e@[x].0),
        decreases e@.len() - i,
    {
        if find_key(b, e[i].0).is_some() {
            return true;
        }
        i = i + 1;
    }
    false
}

fn memo_conflict_exec(b: &Vec<(u64, u64)>, e: &Vec<(u64, u64, u64)>) -> (r: bool)
    ensures
        r == (exists|i: int| 0 <= i < e@.len() && has_key(b@, #[trigger] e@[i].0)),
{
    let mut i: usize = 0;
    while i < e.len()
        invariant
            i <= e@.len(),
            forall|x: int| 0 <= x < i ==> !has_key(b@, #[trigger] e@[x].0),
        decreases e@.len() - i,
    {
        if find_key(b, e[i].0).is_some() {
            return true;
        }
        i = i + 1;
    }
    false
}

fn replay_conflict_exec(txns: &Vec<Transaction>, token: NoReplayToken) -> (r: bool)
    ensures
        r == (exists|j: int| 0 <= j < txns@.len() && #[trigger] txns@[j].no_replay_token == token),
{
    let mut j: usize = 0;
    while j < txns.len()
        invariant
            j <= txns@.len(),
            forall|y: int| 0 <= y < j ==> #[trigger] txns@[y].no_replay_token != token,
        decreases txns@.len() - j,
    {
        if txns[j].no_replay_token == token {
            return true;
        }
        j = j + 1;
    }
    false
}

fn copy_table(t: &Vec<(u64, u64)>) -> (r: Vec<(u64, u64)>)
    ensures
        r@ == t@,
{
    let mut r: Vec<(u64, u64)> = Vec::new();
    let mut k: usize = 0;
    while k < t.len()
        invariant
            k <= t@.len(),
            r@ == t@.subrange(0, k as int),
        decreases t@.len() - k,
    {
        r.push(t[k]);
        k = k + 1;
        proof {
            assert(r@ =~= t@.subrange(0, k as int));
        }
    }
    proof {
        assert(t@.subrange(0, k as int) =~= t@);
    }
    r
}

proof fn lemma_merge_amounts_fails_on(t: Seq<(u64, u64)>, add: Seq<(u64, u64)>, k: nat, m: nat)
    requires
        merge_amounts(t, add, k) is None,
        k <= m,
    ensures
        merge_amounts(t, add, m) is None,
    decreases m - k,
{
    if k < m {
        lemma_merge_amounts_fails_on(t, add, k, (m - 1) as nat);
    }
}

fn merge_amounts_exec(t: &Vec<(u64, u64)>, add: &Vec<(u64, u64)>) -> (r: Option<Vec<(u64, u64)>>)
    ensures
        match r {
            Some(m) => merge_amounts(t@, add@, add@.len()) == Some(m@),
            None => merge_amounts(t@, add@, add@.len()) is None,
        },
{
    let mut m = copy_table(t);
    let mut k: usize = 0;
    while k < add.len()
        invariant
            k <= add@.len(),
            merge_amounts(t@, add@, k as nat) == Some(m@),
        decreases add@.len() - k,
    {
        let (code, amt) = add[k];
        let cur = match find_key(&m, code) {
            Some(j) => {
                proof {
                    lemma_key_index_bounds(m@, code);
                }
                m[j].1
            },
            None => 0,
        };
        assert(cur == total_of(m@, code));
        if amt > u64::MAX - cur {
            proof {
                lemma_merge_amounts_fails_on(t@, add@, (k + 1) as nat, add@.len());
            }
            return None;
        }
        upsert_u64(&mut m, code, cur + amt);
        k = k + 1;
    }
    Some(m)
}

impl BlockEffect {
    pub open spec fn view(&self) -> BlockView {
        BlockView {
            txns: self.txns@,
            no_replay_tokens: self.no_replay_tokens@,
            temp_sids: self.temp_sids@,
            txos: self.txos@,
            input_txos: self.input_txos@,
            new_asset_codes: self.new_asset_codes@,
            new_issuance_nums: self.new_issuance_nums@,
            issuance_amounts: self.issuance_amounts@,
            air_updates: self.air_updates@,
            kv_updates: self.kv_updates@,
            memo_updates: self.memo_updates@,
            pulse_count: self.pulse_count,
        }
    }

    /// An empty block.
    pub fn new() -> (r: BlockEffect)
        ensures
            r@.txns.len() == 0,
            r@.no_replay_tokens.len() == 0,
            r@.temp_sids.len() == 0,
            r@.txos.len() == 0,
            r@.input_txos.len() == 0,
            r@.new_asset_codes.len() == 0,
            r@.new_issuance_nums.len() == 0,
            r@.issuance_amounts.len() == 0,
            r@.air_updates.len() == 0,
            r@.kv_updates.len() == 0,
            r@.memo_updates.len() == 0,
            r@.pulse_count == 0,
    {
        BlockEffect {
            txns: Vec::new(),
            no_replay_tokens: Vec::new(),
            temp_sids: Vec::new(),
            txos: Vec::new(),
            input_txos: Vec::new(),
            new_asset_codes: Vec::new(),
            new_issuance_nums: Vec::new(),
            issuance_amounts: Vec::new(),
            air_updates: Vec::new(),
            kv_updates: Vec::new(),
            memo_updates: Vec::new(),
            pulse_count: 0,
        }
    }

    /// Admits `txn_effect` unless it conflicts with what the block holds;
    /// returns the transaction's position. A rejected effect leaves the
    /// block as it was.
    pub fn add_txn_effect(&mut self, txn_effect: TxnEffect) -> (r: Result<TxnTempSID, AdmissionError>)
        ensures
            match r {
                Ok(sid) => admission(old(self)@, txn_effect@, txn_effect.txn, txn_effect.txos)
                    == Ok::<BlockView, AdmissionError>(final(self)@)
                    && sid == TxnTempSID(old(self)@.txns.len() as usize),
                Err(e) => admission(old(self)@, txn_effect@, txn_effect.txn, txn_effect.txos)
                    == Err::<BlockView, AdmissionError>(e)
                    && *final(self) == *old(self),
            },
    {
        if kv_conflict_exec(&self.kv_updates, &txn_effect.kv_updates) {
            return Err(AdmissionError::KvKey);
        }
        if shares_key(&self.input_txos, &txn_effect.input_txos) {
            return Err(AdmissionError::InputTxo);
        }
        if shares_key(&self.new_asset_codes, &txn_effect.new_asset_codes)
            || shares_key(&self.new_issuance_nums, &txn_effect.new_asset_codes)
            || shares_key(&self.new_asset_codes, &txn_effect.new_issuance_nums)
            || shares_key(&self.new_issuance_nums, &txn_effect.new_issuance_nums) {
            proof {
                let b = old(self)@;
                let e = txn_effect@;
                if exists|i: int| 0 <= i < e.new_asset_codes.len() && has_key(b.new_asset_codes, #[trigger] e.new_asset_codes[i].0) {
                    let i = choose|i: int| 0 <= i < e.new_asset_codes.len() && has_key(b.new_asset_codes, #[trigger] e.new_asset_codes[i].0);
                    assert(code_claimed(b, e.new_asset_codes[i].0));
                } else if exists|i: int| 0 <= i < e.new_asset_codes.len() && has_key(b.new_issuance_nums, #[trigger] e.new_asset_codes[i].0) {
                    let i = choose|i: int| 0 <= i < e.new_asset_codes.len() && has_key(b.new_issuance_nums, #[trigger] e.new_asset_codes[i].0);
                    assert(code_claimed(b, e.new_asset_codes[i].0));
                } else if exists|i: int| 0 <= i < e.new_issuance_nums.len() && has_key(b.new_asset_codes, #[trigger] e.new_issuance_nums[i].0) {
                    let i = choose|i: int| 0 <= i < e.new_issuance_nums.len() && has_key(b.new_asset_codes, #[trigger] e.new_issuance_nums[i].0);
                    assert(code_claimed(b, e.new_issuance_nums[i].0));
                } else {
                    let i = choose|i: int| 0 <= i < e.new_issuance_nums.len() && has_key(b.new_issuance_nums, #[trigger] e.new_issuance_nums[i].0);
                    assert(code_claimed(b, e.new_issuance_nums[i].0));
                }
            }
            return Err(AdmissionError::AssetCode);
        }
        if memo_conflict_exec(&self.memo_updates, &txn_effect.memo_updates) {
            return Err(AdmissionError::Memo);
        }
        let token = txn_effect.txn.no_replay_token;
        if replay_conflict_exec(&self.txns, token) {
            return Err(AdmissionError::Replay);
        }
        let amounts = match merge_amounts_exec(&self.issuance_amounts, &txn_effect.issuance_amounts) {
            None => {
                return Err(AdmissionError::IssuanceOverflow);
            },
            Some(m) => m,
        };
        let ghost e = txn_effect@;
        let TxnEffect {
            txn,
            txos,
            mut input_txos,
            mut new_asset_codes,
            mut new_issuance_nums,
            air_updates,
            mut kv_updates,
            memo_updates,
            ..
        } = txn_effect;
        let temp_sid = TxnTempSID(self.txns.len());
        self.kv_updates.append(&mut kv_updates);
        self.txns.push(txn);
        self.no_replay_tokens.push(token);
        self.temp_sids.push(temp_sid);
        self.txos.push(txos);
        self.input_txos.append(&mut input_txos);
        self.new_asset_codes.append(&mut new_asset_codes);
        self.new_issuance_nums.append(&mut new_issuance_nums);
        self.issuance_amounts = amounts;
        let ghost air0 = self.air_updates@;
        let ghost snap = self@;
        let mut k: usize = 0;
        while k < air_updates.len()
            invariant
                k <= air_updates@.len(),
                self@ == (BlockView { air_updates: self.air_updates@, ..snap }),
                air_updates@ == e.air_updates,
                self.air_updates@ == merge_air(air0, air_updates@, k as nat),
            decreases air_updates@.len() - k,
        {
            upsert_u64(&mut self.air_updates, air_updates[k].0, air_updates[k].1);
            k = k + 1;
        }
        let ghost memo0 = self.memo_updates@;
        let ghost snap2 = self@;
        let mut k: usize = 0;
        while k < memo_updates.len()
            invariant
                k <= memo_updates@.len(),
                self@ == (BlockView { memo_updates: self.memo_updates@, ..snap2 }),
                memo_updates@ == e.memo_updates,
                self.memo_updates@ == merge_memos(memo0, memo_updates@, k as nat),
            decreases memo_updates@.len() - k,
        {
            upsert_u64(&mut self.memo_updates, memo_updates[k].0, memo_updates[k].2);
            k = k + 1;
        }
        Ok(temp_sid)
    }

    pub fn get_pulse_count(&self) -> (r: u64)
        ensures
            r == self@.pulse_count,
    {
        self.pulse_count
    }

    /// Counts one more heartbeat and returns the new count.
    pub fn add_pulse(&mut self) -> (r: u64)
        requires
            old(self)@.pulse_count < u64::MAX,
        ensures
            r == old(self)@.pulse_count + 1,
            final(self)@ == (BlockView { pulse_count: r, ..old(self)@ }),
    {
        self.pulse_count = self.pulse_count + 1;
        self.pulse_count
    }
}

} // verus!
