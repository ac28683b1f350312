//! The durable bookkeeping of the relayer, as a verified in-memory model.
//!
//! `BridgeStore` holds the three persisted tables: one `scanner_state` row per
//! monitored (name, network, address) triple, one `tx` row per detected
//! deposit, and one `fee_transaction` row per executed treasury settlement.
//! Each operation states exactly how it moves the store from one state to the
//! next; the unverified persistence layer mirrors these transitions onto the
//! relational store row for row.

use vstd::prelude::*;
use vstd::multiset::Multiset;

use crate::decoder::{DecodedDeposit, DepositModel};
use crate::numeric::{dec_val, is_canonical_dec};

verus! {

/// Lifecycle state of a transfer request, as the persisted schema stores it.
#[derive(Clone, Copy, Debug, PartialEq, Eq, Structural)]
pub enum TxState {
    /// Waiting for the executor.
    ToProcess,
    /// Submitted and finalized on the destination chain; terminal.
    Processed,
}

/// One `scanner_state` row: the progress of one monitored address.
pub struct ScannerState {
    pub name: String,
    pub network: String,
    pub monitor_address: String,
    pub last_block: u32,
    pub accumulated_fees: u128,
}

/// One `tx` row: the lifecycle record of one detected deposit.
pub struct TxRecord {
    pub id: u128,
    pub tx_eth_hash: String,
    pub from_eth_address: String,
    pub amount: String,
    pub to_glitch_address: String,
    pub state: TxState,
    pub error: Option<String>,
    pub tx_glitch_hash: Option<String>,
    pub business_fee_amount: u128,
    pub business_fee_percentage: u128,
    /// Link to the settlement that paid this request's business fee out; the
    /// field name follows the persisted schema column.
    pub wich_transaction_fee: Option<u64>,
}

/// One `fee_transaction` row: one executed treasury settlement.
pub struct FeeTransaction {
    pub id: u64,
    pub hash: String,
    pub amount: u128,
    pub time: i64,
}

/// A pending transfer request, as handed to the executor.
#[derive(Debug, PartialEq, Eq)]
pub struct TxToProcess {
    pub id: u128,
    pub glitch_address: String,
    pub amount: String,
}

/// The mathematical content of a `scanner_state` row.
pub struct ScannerModel {
    pub name: Seq<char>,
    pub network: Seq<char>,
    pub monitor_address: Seq<char>,
    pub last_block: u32,
    pub accumulated_fees: u128,
}

/// The mathematical content of a `tx` row.
pub struct TxModel {
    pub id: u128,
    pub tx_eth_hash: Seq<char>,
    pub from_eth_address: Seq<char>,
    pub amount: Seq<char>,
    pub to_glitch_address: Seq<char>,
    pub state: TxState,
    pub error: Option<Seq<char>>,
    pub tx_glitch_hash: Option<Seq<char>>,
    pub business_fee_amount: u128,
    pub business_fee_percentage: u128,
    pub wich_transaction_fee: Option<u64>,
}

/// The mathematical content of a `fee_transaction` row.
pub struct FeeModel {
    pub id: u64,
    pub hash: Seq<char>,
    pub amount: u128,
    pub time: i64,
}

/// The mathematical content of a pending transfer request.
pub struct TxToProcessModel {
    pub id: u128,
    pub glitch_address: Seq<char>,
    pub amount: Seq<char>,
}

/// The mathematical content of the whole store.
pub struct StoreModel {
    pub scanners: Seq<ScannerModel>,
    pub txs: Seq<TxModel>,
    pub fees: Seq<FeeModel>,
    pub next_tx_id: u128,
    pub next_fee_id: u64,
}

impl View for ScannerState {
    type V = ScannerModel;

    open spec fn view(&self) -> ScannerModel {
        ScannerModel {
            name: self.name@,
            network: self.network@,
            monitor_address: self.monitor_address@,
            last_block: self.last_block,
            accumulated_fees: self.accumulated_fees,
        }
    }
}

impl View for TxRecord {
    type V = TxModel;

    open spec fn view(&self) -> TxModel {
        TxModel {
            id: self.id,
            tx_eth_hash: self.tx_eth_hash@,
            from_eth_address: self.from_eth_address@,
            amount: self.amount@,
            to_glitch_address: self.to_glitch_address@,
            state: self.state,
            error: match self.error {
                Some(ref e) => Some(e@),
                None => None,
            },
            tx_glitch_hash: match self.tx_glitch_hash {
                Some(ref h) => Some(h@),
                None => None,
            },
            business_fee_amount: self.business_fee_amount,
            business_fee_percentage: self.business_fee_percentage,
            wich_transaction_fee: self.wich_transaction_fee,
        }
    }
}

impl View for FeeTransaction {
    type V = FeeModel;

    open spec fn view(&self) -> FeeModel {
        FeeModel { id: self.id, hash: self.hash@, amount: self.amount, time: self.time }
    }
}

impl View for TxToProcess {
    type V = TxToProcessModel;

    open spec fn view(&self) -> TxToProcessModel {
        TxToProcessModel {
            id: self.id,
            glitch_address: self.glitch_address@,
            amount: self.amount@,
        }
    }
}

/// The in-memory store.
pub struct BridgeStore {
    pub scanners: Vec<ScannerState>,
    pub txs: Vec<TxRecord>,
    pub fees: Vec<FeeTransaction>,
    pub next_tx_id: u128,
    pub next_fee_id: u64,
}

impl View for BridgeStore {
    type V = StoreModel;

    open spec fn view(&self) -> StoreModel {
        StoreModel {
            scanners: self.scanners@.map_values(|s: ScannerState| s@),
            txs: self.txs@.map_values(|t: TxRecord| t@),
            fees: self.fees@.map_values(|f: FeeTransaction| f@),
            next_tx_id: self.next_tx_id,
            next_fee_id: self.next_fee_id,
        }
    }
}

/// The per-row invariant of a transfer request: a canonical amount, a
/// destination hash exactly on processed rows, a settlement link only on
/// processed rows, and a business fee never above the requested amount.
pub open spec fn tx_wf(t: TxModel) -> bool {
    &&& is_canonical_dec(t.amount)
    &&& (t.state is Processed <==> t.tx_glitch_hash is Some)
    &&& (t.wich_transaction_fee is Some ==> t.state is Processed)
    &&& (t.state is Processed ==> t.business_fee_amount <= dec_val(t.amount))
}

/// The store invariant: unique scanner names, unique row identities below the
/// respective counters, and well-formed transfer requests.
pub open spec fn store_wf(m: StoreModel) -> bool {
    &&& forall|i: int, j: int|
        0 <= i < j < m.scanners.len() ==> m.scanners[i].name != m.scanners[j].name
    &&& forall|i: int| 0 <= i < m.txs.len() ==> tx_wf(#[trigger] m.txs[i])
    &&& forall|i: int| 0 <= i < m.txs.len() ==> (#[trigger] m.txs[i]).id < m.next_tx_id
    &&& forall|i: int, j: int| 0 <= i < j < m.txs.len() ==> m.txs[i].id != m.txs[j].id
    &&& forall|i: int| 0 <= i < m.fees.len() ==> (#[trigger] m.fees[i]).id < m.next_fee_id
    &&& forall|i: int, j: int| 0 <= i < j < m.fees.len() ==> m.fees[i].id != m.fees[j].id
}

/// Whether a scanner row of the given name exists.
pub open spec fn has_scanner(scanners: Seq<ScannerModel>, name: Seq<char>) -> bool {
    exists|i: int| 0 <= i < scanners.len() && scanners[i].name == name
}

/// Why a store operation was refused; a refused operation leaves the store
/// exactly as it was.
#[derive(Clone, Copy, Debug, PartialEq, Eq, Structural)]
pub enum StoreError {
    /// No scanner row of the given name exists.
    UnknownScanner,
    /// The block to record is below the last confirmed block, which only
    /// increases.
    BlockRegression,
    /// A deposit carries a non-canonical amount string.
    InvalidDeposit,
    /// No transfer request of the given identity exists.
    UnknownTx,
    /// The transfer request was already processed; processing is terminal and
    /// happens exactly once.
    AlreadyProcessed,
    /// The business fee to record exceeds the requested amount.
    FeeExceedsAmount,
}

/// The transfer-request row a deposit becomes on insertion: pending, without
/// error, destination hash, fees, or settlement link.
pub open spec fn tx_of_deposit(d: DepositModel, id: u128) -> TxModel {
    TxModel {
        id,
        tx_eth_hash: d.tx_eth_hash,
        from_eth_address: d.from_eth_address,
        amount: d.amount,
        to_glitch_address: d.to_glitch_address,
        state: TxState::ToProcess,
        error: None,
        tx_glitch_hash: None,
        business_fee_amount: 0,
        business_fee_percentage: 0,
        wich_transaction_fee: None,
    }
}

/// Whether every deposit of a batch carries a canonical amount string.
pub open spec fn deposits_ok(deps: Seq<DepositModel>) -> bool {
    forall|i: int| 0 <= i < deps.len() ==> is_canonical_dec(#[trigger] deps[i].amount)
}

/// The rows a batch of deposits becomes, with consecutive identities from
/// `first_id` on.
pub open spec fn inserted_txs(deps: Seq<DepositModel>, first_id: u128) -> Seq<TxModel> {
    Seq::new(deps.len(), |i: int| tx_of_deposit(deps[i], (first_id + i) as u128))
}

/// Why ingestion of a block refuses, if it does.
pub open spec fn ingest_err(
    pre: StoreModel,
    name: Seq<char>,
    block: u32,
    deps: Seq<DepositModel>,
) -> Option<StoreError> {
    if !has_scanner(pre.scanners, name) {
        Some(StoreError::UnknownScanner)
    } else if exists|i: int|
        0 <= i < pre.scanners.len() && pre.scanners[i].name == name && block < (
        #[trigger] pre.scanners[i]).last_block {
        Some(StoreError::BlockRegression)
    } else if !deposits_ok(deps) {
        Some(StoreError::InvalidDeposit)
    } else {
        None
    }
}

/// How recording a block and its deposits moves the store: one transition
/// that either refuses and changes nothing, or advances the scanner's last
/// confirmed block and appends the batch as pending rows.  A batch of zero
/// deposits still advances the block.
pub open spec fn ingest_post(
    pre: StoreModel,
    post: StoreModel,
    name: Seq<char>,
    block: u32,
    deps: Seq<DepositModel>,
    r: Result<(), StoreError>,
) -> bool {
    match r {
        Err(e) => post == pre && ingest_err(pre, name, block, deps) == Some(e),
        Ok(_) => {
            &&& ingest_err(pre, name, block, deps) is None
            &&& exists|i: int|
                0 <= i < pre.scanners.len() && (#[trigger] pre.scanners[i]).name == name
                    && post.scanners == pre.scanners.update(
                    i,
                    ScannerModel {
                        name: pre.scanners[i].name,
                        network: pre.scanners[i].network,
                        monitor_address: pre.scanners[i].monitor_address,
                        last_block: block,
                        accumulated_fees: pre.scanners[i].accumulated_fees,
                    },
                )
            &&& post.txs == pre.txs + inserted_txs(deps, pre.next_tx_id)
            &&& post.fees == pre.fees
            &&& post.next_tx_id == pre.next_tx_id + deps.len()
            &&& post.next_fee_id == pre.next_fee_id
        },
    }
}

/// Progress and deposits commit or fail together: a refused ingestion leaves
/// the whole store, the last confirmed block included, exactly as it was.
pub proof fn lemma_ingest_atomic(
    pre: StoreModel,
    post: StoreModel,
    name: Seq<char>,
    block: u32,
    deps: Seq<DepositModel>,
    e: StoreError,
)
    requires
        ingest_post(pre, post, name, block, deps, Err(e)),
    ensures
        post == pre,
        post.scanners == pre.scanners,
        post.txs == pre.txs,
{
}

/// How one transfer request is linked by a settlement: a processed, unlinked
/// row takes the settlement's identity, every other row stays as it is.
pub open spec fn link_tx(t: TxModel, settlement_id: u64) -> TxModel {
    if t.state is Processed && t.wich_transaction_fee is None {
        TxModel {
            id: t.id,
            tx_eth_hash: t.tx_eth_hash,
            from_eth_address: t.from_eth_address,
            amount: t.amount,
            to_glitch_address: t.to_glitch_address,
            state: t.state,
            error: t.error,
            tx_glitch_hash: t.tx_glitch_hash,
            business_fee_amount: t.business_fee_amount,
            business_fee_percentage: t.business_fee_percentage,
            wich_transaction_fee: Some(settlement_id),
        }
    } else {
        t
    }
}

/// How recording a settlement moves the store: the settlement row is
/// appended and every processed, still unlinked transfer request is linked to
/// it.
pub open spec fn settle_post(
    pre: StoreModel,
    post: StoreModel,
    hash: Seq<char>,
    amount: u128,
    time: i64,
    id: u64,
) -> bool {
    &&& id == pre.next_fee_id
    &&& post.fees == pre.fees.push(FeeModel { id, hash, amount, time })
    &&& post.next_fee_id == pre.next_fee_id + 1
    &&& post.scanners == pre.scanners
    &&& post.next_tx_id == pre.next_tx_id
    &&& post.txs.len() == pre.txs.len()
    &&& forall|i: int| 0 <= i < pre.txs.len() ==> post.txs[i] == link_tx(#[trigger] pre.txs[i], id)
}

/// A settlement links exactly the requests that were processed and unlinked
/// when it was recorded: those take its identity, earlier links stay as they
/// were, and a request not yet processed stays unlinked until a later
/// settlement.
pub proof fn lemma_settlement_linking(
    pre: StoreModel,
    post: StoreModel,
    hash: Seq<char>,
    amount: u128,
    time: i64,
    id: u64,
)
    requires
        settle_post(pre, post, hash, amount, time, id),
    ensures
        forall|i: int|
            0 <= i < pre.txs.len() && (#[trigger] pre.txs[i]).state is Processed
                && pre.txs[i].wich_transaction_fee is None ==> post.txs[i].wich_transaction_fee
                == Some(id),
        forall|i: int|
            0 <= i < pre.txs.len() && !((#[trigger] pre.txs[i]).state is Processed)
                ==> post.txs[i] == pre.txs[i],
        forall|i: int|
            0 <= i < pre.txs.len() && (#[trigger] pre.txs[i]).wich_transaction_fee is Some
                ==> post.txs[i].wich_transaction_fee == pre.txs[i].wich_transaction_fee,
{
}

/// Whether a transfer request is pending: waiting for the executor with no
/// recorded error.  A request whose error field is set is not retried; the
/// retry policy is explicit here.
pub open spec fn is_pending(t: TxModel) -> bool {
    t.state is ToProcess && t.error is None
}

/// The pending view of one row, as handed to the executor.
pub open spec fn pending_item(t: TxModel) -> TxToProcessModel {
    TxToProcessModel { id: t.id, glitch_address: t.to_glitch_address, amount: t.amount }
}

/// The pending requests of the store, in row order.
pub open spec fn pending_items(txs: Seq<TxModel>) -> Seq<TxToProcessModel> {
    txs.filter(|t: TxModel| is_pending(t)).map_values(|t: TxModel| pending_item(t))
}

/// Inserting an element anywhere adds exactly that element to the multiset.
proof fn lemma_to_multiset_insert<A>(s: Seq<A>, i: int, x: A)
    requires
        0 <= i <= s.len(),
    ensures
        s.insert(i, x).to_multiset() == s.to_multiset().insert(x),
{
    broadcast use vstd::seq_lib::group_to_multiset_ensures;

    let l = s.take(i);
    let r = s.skip(i);
    assert(s.insert(i, x) =~= l + (seq![x] + r));
    assert(s =~= l + r);
    vstd::seq_lib::lemma_multiset_commutative(l, seq![x] + r);
    vstd::seq_lib::lemma_multiset_commutative(seq![x], r);
    vstd::seq_lib::lemma_multiset_commutative(l, r);
    assert(seq![x] =~= Seq::<A>::empty().push(x));
    assert(Seq::<A>::empty().push(x).to_multiset() =~= Seq::<A>::empty().to_multiset().insert(x));
    assert(Seq::<A>::empty().to_multiset() =~= Multiset::<A>::empty());
    assert(s.insert(i, x).to_multiset() =~= s.to_multiset().insert(x));
}

/// A transfer-request row with a recorded error message.
pub open spec fn mark_error_tx(t: TxModel, msg: Seq<char>) -> TxModel {
    TxModel {
        id: t.id,
        tx_eth_hash: t.tx_eth_hash,
        from_eth_address: t.from_eth_address,
        amount: t.amount,
        to_glitch_address: t.to_glitch_address,
        state: t.state,
        error: Some(msg),
        tx_glitch_hash: t.tx_glitch_hash,
        business_fee_amount: t.business_fee_amount,
        business_fee_percentage: t.business_fee_percentage,
        wich_transaction_fee: t.wich_transaction_fee,
    }
}

/// A transfer-request row after successful processing.
pub open spec fn process_tx(
    t: TxModel,
    hash: Seq<char>,
    fee_amount: u128,
    fee_pct: u128,
) -> TxModel {
    TxModel {
        id: t.id,
        tx_eth_hash: t.tx_eth_hash,
        from_eth_address: t.from_eth_address,
        amount: t.amount,
        to_glitch_address: t.to_glitch_address,
        state: TxState::Processed,
        error: t.error,
        tx_glitch_hash: Some(hash),
        business_fee_amount: fee_amount,
        business_fee_percentage: fee_pct,
        wich_transaction_fee: t.wich_transaction_fee,
    }
}

/// How marking a request processed moves the store, and on which stores it
/// succeeds: exactly when a request of the identity exists, is still pending,
/// and the fee does not exceed its amount.
pub open spec fn update_tx_post(
    pre: StoreModel,
    post: StoreModel,
    id: u128,
    hash: Seq<char>,
    fee_amount: u128,
    fee_pct: u128,
    r: Result<(), StoreError>,
) -> bool {
    match r {
        Ok(_) => exists|i: int|
            0 <= i < pre.txs.len() && (#[trigger] pre.txs[i]).id == id && pre.txs[i].state
                is ToProcess && fee_amount <= dec_val(pre.txs[i].amount) && post.txs
                == pre.txs.update(i, process_tx(pre.txs[i], hash, fee_amount, fee_pct))
                && post.scanners == pre.scanners && post.fees == pre.fees && post.next_tx_id
                == pre.next_tx_id && post.next_fee_id == pre.next_fee_id,
        Err(StoreError::UnknownTx) => post == pre && forall|i: int|
            0 <= i < pre.txs.len() ==> (#[trigger] pre.txs[i]).id != id,
        Err(StoreError::AlreadyProcessed) => post == pre && exists|i: int|
            0 <= i < pre.txs.len() && (#[trigger] pre.txs[i]).id == id && pre.txs[i].state
                is Processed,
        Err(StoreError::FeeExceedsAmount) => post == pre && exists|i: int|
            0 <= i < pre.txs.len() && (#[trigger] pre.txs[i]).id == id && pre.txs[i].state
                is ToProcess && fee_amount > dec_val(pre.txs[i].amount),
        Err(_) => false,
    }
}

/// How idempotent registration moves the store: when a row of the name
/// already exists the store is untouched and `existed` is true; otherwise a
/// fresh row at block zero with an empty fee counter is appended.
pub open spec fn register_post(
    pre: StoreModel,
    post: StoreModel,
    name: Seq<char>,
    network: Seq<char>,
    monitor_address: Seq<char>,
    existed: bool,
) -> bool {
    &&& existed == has_scanner(pre.scanners, name)
    &&& post.txs == pre.txs
    &&& post.fees == pre.fees
    &&& post.next_tx_id == pre.next_tx_id
    &&& post.next_fee_id == pre.next_fee_id
    &&& if existed {
        post.scanners == pre.scanners
    } else {
        post.scanners == pre.scanners.push(
            ScannerModel {
                name,
                network,
                monitor_address,
                last_block: 0,
                accumulated_fees: 0,
            },
        )
    }
}

/// Registering the same triple twice leaves the store exactly as after the
/// first registration and reports the row as already existing.
pub proof fn lemma_register_idempotent(
    s0: StoreModel,
    s1: StoreModel,
    s2: StoreModel,
    name: Seq<char>,
    network: Seq<char>,
    monitor_address: Seq<char>,
    existed1: bool,
    existed2: bool,
)
    requires
        register_post(s0, s1, name, network, monitor_address, existed1),
        register_post(s1, s2, name, network, monitor_address, existed2),
    ensures
        existed2 == true,
        s2 == s1,
{
    if !existed1 {
        let n = s1.scanners.len() - 1;
        assert(s1.scanners[n].name == name);
    }
    assert(has_scanner(s1.scanners, name));
}

impl BridgeStore {
    /// An empty store.
    pub fn new() -> (r: BridgeStore)
        ensures
            store_wf(r@),
            r@.scanners == Seq::<ScannerModel>::empty(),
            r@.txs == Seq::<TxModel>::empty(),
            r@.fees == Seq::<FeeModel>::empty(),
            r@.next_tx_id == 1,
            r@.next_fee_id == 1,
    {
        let r = BridgeStore {
            scanners: Vec::new(),
            txs: Vec::new(),
            fees: Vec::new(),
            next_tx_id: 1,
            next_fee_id: 1,
        };
        proof {
            assert(r@.scanners =~= Seq::<ScannerModel>::empty());
            assert(r@.txs =~= Seq::<TxModel>::empty());
            assert(r@.fees =~= Seq::<FeeModel>::empty());
        }
        r
    }

    /// Looks the scanner row up by name; the index found is the witness used
    /// by every operation keyed on a scanner name.
    fn find_scanner(&self, scanner_name: &str) -> (r: Option<usize>)
        ensures
            r is Some ==> 0 <= r->0 < self@.scanners.len() && self@.scanners[r->0 as int].name
                == scanner_name@,
            r is None ==> !has_scanner(self@.scanners, scanner_name@),
    {
        let n = self.scanners.len();
        let mut i: usize = 0;
        while i < n
            invariant
                0 <= i <= n,
                n == self.scanners.len(),
                forall|k: int| 0 <= k < i ==> self@.scanners[k].name != scanner_name@,
            decreases n - i,
        {
            if crate::trusted::str_eq(self.scanners[i].name.as_str(), scanner_name) {
                return Some(i);
            }
            i = i + 1;
        }
        None
    }

    /// Idempotent registration: reuses the scanner row of this name if one
    /// exists, creating it otherwise; returns whether it already existed.
    pub fn exists_network_state(
        &mut self,
        scanner_name: &str,
        network: &str,
        monitor_address: &str,
    ) -> (existed: bool)
        requires
            store_wf(old(self)@),
        ensures
            store_wf(final(self)@),
            register_post(
                old(self)@,
                final(self)@,
                scanner_name@,
                network@,
                monitor_address@,
                existed,
            ),
    {
        match self.find_scanner(scanner_name) {
            Some(i) => {
                proof {
                    assert(has_scanner(self@.scanners, scanner_name@));
                }
                true
            },
            None => {
                let row = ScannerState {
                    name: scanner_name.to_owned(),
                    network: network.to_owned(),
                    monitor_address: monitor_address.to_owned(),
                    last_block: 0,
                    accumulated_fees: 0,
                };
                let ghost pre = self@;
                self.scanners.push(row);
                proof {
                    assert(self@.scanners =~= pre.scanners.push(
                        ScannerModel {
                            name: scanner_name@,
                            network: network@,
                            monitor_address: monitor_address@,
                            last_block: 0u32,
                            accumulated_fees: 0u128,
                        },
                    ));
                    assert(self@.txs =~= pre.txs);
                    assert(self@.fees =~= pre.fees);
                }
                false
            },
        }
    }

    /// The last confirmed source block of the named scanner.
    pub fn get_last_block(&self, scanner_name: &str) -> (r: u32)
        requires
            has_scanner(self@.scanners, scanner_name@),
        ensures
            exists|i: int|
                0 <= i < self@.scanners.len() && self@.scanners[i].name == scanner_name@ && r
                    == #[trigger] self@.scanners[i].last_block,
    {
        let i = self.find_scanner(scanner_name).unwrap();
        let r = self.scanners[i].last_block;
        proof {
            assert(0 <= i < self@.scanners.len() && self@.scanners[i as int].name == scanner_name@
                && r == self@.scanners[i as int].last_block);
        }
        r
    }

    /// The accumulated, not yet settled business-fee total of the named
    /// scanner.
    pub fn get_fee_counter(&self, scanner_name: &str) -> (r: u128)
        requires
            has_scanner(self@.scanners, scanner_name@),
        ensures
            exists|i: int|
                0 <= i < self@.scanners.len() && self@.scanners[i].name == scanner_name@ && r
                    == #[trigger] self@.scanners[i].accumulated_fees,
    {
        let i = self.find_scanner(scanner_name).unwrap();
        let r = self.scanners[i].accumulated_fees;
        proof {
            assert(0 <= i < self@.scanners.len() && self@.scanners[i as int].name == scanner_name@
                && r == self@.scanners[i as int].accumulated_fees);
        }
        r
    }

    /// Sets the named scanner's fee counter to the given amount; every other
    /// row and field is untouched.
    pub fn modify_fee_counter(&mut self, fee_amount: u128, scanner_name: &str)
        requires
            store_wf(old(self)@),
            has_scanner(old(self)@.scanners, scanner_name@),
        ensures
            store_wf(final(self)@),
            final(self)@.txs == old(self)@.txs,
            final(self)@.fees == old(self)@.fees,
            final(self)@.next_tx_id == old(self)@.next_tx_id,
            final(self)@.next_fee_id == old(self)@.next_fee_id,
            exists|i: int|
                0 <= i < old(self)@.scanners.len() && old(self)@.scanners[i].name == scanner_name@
                    && final(self)@.scanners == old(self)@.scanners.update(
                    i,
                    ScannerModel {
                        name: old(self)@.scanners[i].name,
                        network: old(self)@.scanners[i].network,
                        monitor_address: old(self)@.scanners[i].monitor_address,
                        last_block: old(self)@.scanners[i].last_block,
                        accumulated_fees: fee_amount,
                    },
                ),
    {
        let i = self.find_scanner(scanner_name).unwrap();
        let ghost pre = self@;
        let row = ScannerState {
            name: self.scanners[i].name.clone(),
            network: self.scanners[i].network.clone(),
            monitor_address: self.scanners[i].monitor_address.clone(),
            last_block: self.scanners[i].last_block,
            accumulated_fees: fee_amount,
        };
        self.scanners[i] = row;
        proof {
            assert(self@.scanners =~= pre.scanners.update(
                i as int,
                ScannerModel {
                    name: pre.scanners[i as int].name,
                    network: pre.scanners[i as int].network,
                    monitor_address: pre.scanners[i as int].monitor_address,
                    last_block: pre.scanners[i as int].last_block,
                    accumulated_fees: fee_amount,
                },
            ));
            assert(self@.txs =~= pre.txs);
            assert(self@.fees =~= pre.fees);
        }
    }

    /// Adds the given amount to the named scanner's fee counter.
    pub fn increment_fee_counter(&mut self, scanner_name: String, amount: u128)
        requires
            store_wf(old(self)@),
            has_scanner(old(self)@.scanners, scanner_name@),
            forall|i: int|
                0 <= i < old(self)@.scanners.len() && old(self)@.scanners[i].name == scanner_name@
                    ==> (#[trigger] old(self)@.scanners[i].accumulated_fees) + amount
                    <= u128::MAX,
        ensures
            store_wf(final(self)@),
            final(self)@.txs == old(self)@.txs,
            final(self)@.fees == old(self)@.fees,
            final(self)@.next_tx_id == old(self)@.next_tx_id,
            final(self)@.next_fee_id == old(self)@.next_fee_id,
            exists|i: int|
                0 <= i < old(self)@.scanners.len() && old(self)@.scanners[i].name == scanner_name@
                    && final(self)@.scanners == old(self)@.scanners.update(
                    i,
                    ScannerModel {
                        name: old(self)@.scanners[i].name,
                        network: old(self)@.scanners[i].network,
                        monitor_address: old(self)@.scanners[i].monitor_address,
                        last_block: old(self)@.scanners[i].last_block,
                        accumulated_fees: (old(self)@.scanners[i].accumulated_fees + amount) as u128,
                    },
                ),
    {
        let i = self.find_scanner(scanner_name.as_str()).unwrap();
        let ghost pre = self@;
        let current = self.scanners[i].accumulated_fees;
        let row = ScannerState {
            name: self.scanners[i].name.clone(),
            network: self.scanners[i].network.clone(),
            monitor_address: self.scanners[i].monitor_address.clone(),
            last_block: self.scanners[i].last_block,
            accumulated_fees: current + amount,
        };
        self.scanners[i] = row;
        proof {
            assert(self@.scanners =~= pre.scanners.update(
                i as int,
                ScannerModel {
                    name: pre.scanners[i as int].name,
                    network: pre.scanners[i as int].network,
                    monitor_address: pre.scanners[i as int].monitor_address,
                    last_block: pre.scanners[i as int].last_block,
                    accumulated_fees: (pre.scanners[i as int].accumulated_fees + amount) as u128,
                },
            ));
            assert(self@.txs =~= pre.txs);
            assert(self@.fees =~= pre.fees);
        }
    }

    /// The time of the most recent settlement, if any settlement exists.
    pub fn get_fee_last_time(&self) -> (r: Option<i64>)
        ensures
            r is Some <==> self@.fees.len() > 0,
            r is Some ==> (exists|i: int|
                0 <= i < self@.fees.len() && r->0 == #[trigger] self@.fees[i].time) && (forall|
                i: int,
            |
                0 <= i < self@.fees.len() ==> (#[trigger] self@.fees[i].time) <= r->0),
    {
        let n = self.fees.len();
        if n == 0 {
            return None;
        }
        let mut best: i64 = self.fees[0].time;
        proof {
            assert(best == self@.fees[0].time);
        }
        let mut i: usize = 1;
        while i < n
            invariant
                1 <= i <= n,
                n == self.fees.len(),
                exists|k: int| 0 <= k < i && best == #[trigger] self@.fees[k].time,
                forall|k: int| 0 <= k < i ==> (#[trigger] self@.fees[k].time) <= best,
            decreases n - i,
        {
            if self.fees[i].time > best {
                best = self.fees[i].time;
                proof {
                    assert(best == self@.fees[i as int].time);
                }
            }
            i = i + 1;
        }
        Some(best)
    }

    /// Looks a transfer request up by identity.
    fn find_tx(&self, id: u128) -> (r: Option<usize>)
        ensures
            r is Some ==> 0 <= r->0 < self@.txs.len() && self@.txs[r->0 as int].id == id,
            r is None ==> forall|i: int|
                0 <= i < self@.txs.len() ==> (#[trigger] self@.txs[i]).id != id,
    {
        let n = self.txs.len();
        let mut i: usize = 0;
        while i < n
            invariant
                0 <= i <= n,
                n == self.txs.len(),
                forall|k: int| 0 <= k < i ==> (#[trigger] self@.txs[k]).id != id,
            decreases n - i,
        {
            if self.txs[i].id == id {
                return Some(i);
            }
            i = i + 1;
        }
        None
    }

    /// Appends a batch of deposits as pending rows with consecutive
    /// identities.
    #[verifier::loop_isolation(false)]
    fn append_deposits(&mut self, logs: &Vec<DecodedDeposit>)
        requires
            store_wf(old(self)@),
            old(self)@.next_tx_id + logs@.len() <= u128::MAX,
            deposits_ok(logs@.map_values(|d: DecodedDeposit| d@)),
        ensures
            store_wf(final(self)@),
            final(self)@.txs == old(self)@.txs + inserted_txs(
                logs@.map_values(|d: DecodedDeposit| d@),
                old(self)@.next_tx_id,
            ),
            final(self)@.scanners == old(self)@.scanners,
            final(self)@.fees == old(self)@.fees,
            final(self)@.next_tx_id == old(self)@.next_tx_id + logs@.len(),
            final(self)@.next_fee_id == old(self)@.next_fee_id,
    {
        let ghost pre = self@;
        let ghost deps = logs@.map_values(|d: DecodedDeposit| d@);
        let n = logs.len();
        let mut k: usize = 0;
        while k < n
            invariant
                0 <= k <= n,
                n == logs@.len(),
                deps == logs@.map_values(|d: DecodedDeposit| d@),
                pre == old(self)@,
                store_wf(pre),
                deposits_ok(deps),
                pre.next_tx_id + n <= u128::MAX,
                self@.scanners == pre.scanners,
                self@.fees == pre.fees,
                self@.next_fee_id == pre.next_fee_id,
                self@.next_tx_id == pre.next_tx_id + k,
                self@.txs.len() == pre.txs.len() + k,
                forall|j: int| 0 <= j < pre.txs.len() ==> self@.txs[j] == pre.txs[j],
                forall|j: int|
                    0 <= j < k ==> self@.txs[pre.txs.len() + j] == tx_of_deposit(
                        deps[j],
                        (pre.next_tx_id + j) as u128,
                    ),
            decreases n - k,
        {
            let d = &logs[k];
            let row = TxRecord {
                id: self.next_tx_id,
                tx_eth_hash: d.tx_eth_hash.clone(),
                from_eth_address: d.from_eth_address.clone(),
                amount: d.amount.clone(),
                to_glitch_address: d.to_glitch_address.clone(),
                state: TxState::ToProcess,
                error: None,
                tx_glitch_hash: None,
                business_fee_amount: 0,
                business_fee_percentage: 0,
                wich_transaction_fee: None,
            };
            proof {
                assert(row@ == tx_of_deposit(deps[k as int], (pre.next_tx_id + k) as u128));
            }
            self.txs.push(row);
            self.next_tx_id = self.next_tx_id + 1;
            k = k + 1;
        }
        proof {
            assert(self@.txs =~= pre.txs + inserted_txs(deps, pre.next_tx_id));
            let post = self@;
            assert forall|i: int| 0 <= i < post.txs.len() implies tx_wf(#[trigger] post.txs[i]) by {
                if i < pre.txs.len() {
                    assert(tx_wf(pre.txs[i]));
                } else {
                    let j = i - pre.txs.len();
                    assert(post.txs[i] == tx_of_deposit(deps[j], (pre.next_tx_id + j) as u128));
                    assert(is_canonical_dec(deps[j].amount));
                }
            }
            assert forall|i: int| 0 <= i < post.txs.len() implies (#[trigger] post.txs[i]).id
                < post.next_tx_id by {
                if i < pre.txs.len() {
                    assert(pre.txs[i].id < pre.next_tx_id);
                } else {
                    let j = i - pre.txs.len();
                    assert(post.txs[i] == tx_of_deposit(deps[j], (pre.next_tx_id + j) as u128));
                }
            }
            assert forall|i: int, j: int| 0 <= i < j < post.txs.len() implies post.txs[i].id
                != post.txs[j].id by {
                if i < pre.txs.len() && j < pre.txs.len() {
                } else if i < pre.txs.len() {
                    assert(pre.txs[i].id < pre.next_tx_id);
                    assert(post.txs[j] == tx_of_deposit(
                        deps[j - pre.txs.len()],
                        (pre.next_tx_id + (j - pre.txs.len())) as u128,
                    ));
                } else {
                    assert(post.txs[i] == tx_of_deposit(
                        deps[i - pre.txs.len()],
                        (pre.next_tx_id + (i - pre.txs.len())) as u128,
                    ));
                    assert(post.txs[j] == tx_of_deposit(
                        deps[j - pre.txs.len()],
                        (pre.next_tx_id + (j - pre.txs.len())) as u128,
                    ));
                }
            }
        }
    }

    /// Records one scanned block in a single transition: the scanner's last
    /// confirmed block advances and the block's deposits are inserted as
    /// pending transfer requests, or nothing changes at all.  A block with no
    /// deposits still commits.
    #[verifier::loop_isolation(false)]
    pub fn update_block_and_insert_txs(
        &mut self,
        scanner_name: &str,
        block: u32,
        logs: &Vec<DecodedDeposit>,
    ) -> (r: Result<(), StoreError>)
        requires
            store_wf(old(self)@),
            old(self)@.next_tx_id + logs@.len() <= u128::MAX,
        ensures
            store_wf(final(self)@),
            ingest_post(
                old(self)@,
                final(self)@,
                scanner_name@,
                block,
                logs@.map_values(|d: DecodedDeposit| d@),
                r,
            ),
    {
        let ghost pre = self@;
        let ghost deps = logs@.map_values(|d: DecodedDeposit| d@);
        let idx = match self.find_scanner(scanner_name) {
            Some(i) => i,
            None => {
                return Err(StoreError::UnknownScanner);
            },
        };
        proof {
            assert(has_scanner(pre.scanners, scanner_name@));
        }
        if block < self.scanners[idx].last_block {
            proof {
                assert(0 <= idx < pre.scanners.len() && pre.scanners[idx as int].name
                    == scanner_name@ && block < (#[trigger] pre.scanners[idx as int]).last_block);
            }
            return Err(StoreError::BlockRegression);
        }
        proof {
            assert forall|j: int|
                0 <= j < pre.scanners.len() && pre.scanners[j].name == scanner_name@ implies !(
            block < (#[trigger] pre.scanners[j]).last_block) by {
                if j < idx {
                    assert(pre.scanners[j].name != pre.scanners[idx as int].name);
                } else if j > idx {
                    assert(pre.scanners[idx as int].name != pre.scanners[j].name);
                }
            }
        }
        let n = logs.len();
        let mut k: usize = 0;
        while k < n
            invariant
                0 <= k <= n,
                n == logs@.len(),
                deps == logs@.map_values(|d: DecodedDeposit| d@),
                forall|j: int| 0 <= j < k ==> is_canonical_dec((#[trigger] deps[j]).amount),
            decreases n - k,
        {
            if !crate::numeric::check_canonical_dec(logs[k].amount.as_str()) {
                proof {
                    assert(!is_canonical_dec(deps[k as int].amount));
                }
                return Err(StoreError::InvalidDeposit);
            }
            k = k + 1;
        }
        let row = ScannerState {
            name: self.scanners[idx].name.clone(),
            network: self.scanners[idx].network.clone(),
            monitor_address: self.scanners[idx].monitor_address.clone(),
            last_block: block,
            accumulated_fees: self.scanners[idx].accumulated_fees,
        };
        self.scanners[idx] = row;
        proof {
            assert(self@.scanners =~= pre.scanners.update(
                idx as int,
                ScannerModel {
                    name: pre.scanners[idx as int].name,
                    network: pre.scanners[idx as int].network,
                    monitor_address: pre.scanners[idx as int].monitor_address,
                    last_block: block,
                    accumulated_fees: pre.scanners[idx as int].accumulated_fees,
                },
            ));
            assert(self@.txs =~= pre.txs);
            assert(self@.fees =~= pre.fees);
        }
        self.append_deposits(logs);
        proof {
            assert(0 <= idx < pre.scanners.len() && (#[trigger] pre.scanners[idx as int]).name
                == scanner_name@ && self@.scanners == pre.scanners.update(
                idx as int,
                ScannerModel {
                    name: pre.scanners[idx as int].name,
                    network: pre.scanners[idx as int].network,
                    monitor_address: pre.scanners[idx as int].monitor_address,
                    last_block: block,
                    accumulated_fees: pre.scanners[idx as int].accumulated_fees,
                },
            ));
        }
        Ok(())
    }

    /// Inserts a batch of deposits as pending transfer requests without
    /// touching scanner progress.
    #[verifier::loop_isolation(false)]
    pub fn insert_txs(&mut self, logs: &Vec<DecodedDeposit>) -> (r: Result<(), StoreError>)
        requires
            store_wf(old(self)@),
            old(self)@.next_tx_id + logs@.len() <= u128::MAX,
        ensures
            store_wf(final(self)@),
            r is Err ==> final(self)@ == old(self)@ && r->Err_0 == StoreError::InvalidDeposit
                && !deposits_ok(logs@.map_values(|d: DecodedDeposit| d@)),
            r is Ok ==> deposits_ok(logs@.map_values(|d: DecodedDeposit| d@)),
            r is Ok ==> final(self)@.txs == old(self)@.txs + inserted_txs(
                logs@.map_values(|d: DecodedDeposit| d@),
                old(self)@.next_tx_id,
            ),
            r is Ok ==> final(self)@.scanners == old(self)@.scanners,
            r is Ok ==> final(self)@.fees == old(self)@.fees,
            r is Ok ==> final(self)@.next_tx_id == old(self)@.next_tx_id + logs@.len(),
            r is Ok ==> final(self)@.next_fee_id == old(self)@.next_fee_id,
    {
        let ghost deps = logs@.map_values(|d: DecodedDeposit| d@);
        let n = logs.len();
        let mut k: usize = 0;
        while k < n
            invariant
                0 <= k <= n,
                n == logs@.len(),
                deps == logs@.map_values(|d: DecodedDeposit| d@),
                forall|j: int| 0 <= j < k ==> is_canonical_dec((#[trigger] deps[j]).amount),
            decreases n - k,
        {
            if !crate::numeric::check_canonical_dec(logs[k].amount.as_str()) {
                proof {
                    assert(!is_canonical_dec(deps[k as int].amount));
                }
                return Err(StoreError::InvalidDeposit);
            }
            k = k + 1;
        }
        self.append_deposits(logs);
        Ok(())
    }

    /// Records a validation error on the transfer request of the given
    /// identity.  A request with an error set is no longer pending: errored
    /// requests are not retried, which makes the retry policy explicit.  A
    /// missing identity leaves the store untouched, as a relational update of
    /// a missing row does.
    #[verifier::loop_isolation(false)]
    pub fn update_tx_with_error(&mut self, id: u128, error_message: String)
        requires
            store_wf(old(self)@),
        ensures
            store_wf(final(self)@),
            final(self)@.scanners == old(self)@.scanners,
            final(self)@.fees == old(self)@.fees,
            final(self)@.next_tx_id == old(self)@.next_tx_id,
            final(self)@.next_fee_id == old(self)@.next_fee_id,
            (forall|i: int| 0 <= i < old(self)@.txs.len() ==> (#[trigger] old(self)@.txs[i]).id != id)
                ==> final(self)@.txs == old(self)@.txs,
            (exists|i: int| 0 <= i < old(self)@.txs.len() && (#[trigger] old(self)@.txs[i]).id == id)
                ==> exists|i: int|
                0 <= i < old(self)@.txs.len() && (#[trigger] old(self)@.txs[i]).id == id
                    && final(self)@.txs == old(self)@.txs.update(
                    i,
                    mark_error_tx(old(self)@.txs[i], error_message@),
                ),
    {
        let ghost pre = self@;
        let idx = match self.find_tx(id) {
            Some(i) => i,
            None => {
                return ;
            },
        };
        let row = {
            let t = &self.txs[idx];
            TxRecord {
                id: t.id,
                tx_eth_hash: t.tx_eth_hash.clone(),
                from_eth_address: t.from_eth_address.clone(),
                amount: t.amount.clone(),
                to_glitch_address: t.to_glitch_address.clone(),
                state: t.state,
                error: Some(error_message),
                tx_glitch_hash: match &t.tx_glitch_hash {
                    Some(h) => Some(h.clone()),
                    None => None,
                },
                business_fee_amount: t.business_fee_amount,
                business_fee_percentage: t.business_fee_percentage,
                wich_transaction_fee: t.wich_transaction_fee,
            }
        };
        self.txs[idx] = row;
        proof {
            assert(self@.txs =~= pre.txs.update(idx as int, mark_error_tx(pre.txs[idx as int], error_message@)));
            assert(self@.scanners =~= pre.scanners);
            assert(self@.fees =~= pre.fees);
            assert(0 <= idx < pre.txs.len() && (#[trigger] pre.txs[idx as int]).id == id);
        }
    }

    /// Marks the transfer request of the given identity processed, exactly
    /// once: records the destination transaction hash and the business fee
    /// charged.  A missing, already processed, or over-charged request is
    /// refused and the store is untouched.
    #[verifier::loop_isolation(false)]
    pub fn update_tx(
        &mut self,
        id: u128,
        glitch_hash: String,
        business_fee_amount: u128,
        business_fee_percentage: u128,
    ) -> (r: Result<(), StoreError>)
        requires
            store_wf(old(self)@),
        ensures
            store_wf(final(self)@),
            update_tx_post(
                old(self)@,
                final(self)@,
                id,
                glitch_hash@,
                business_fee_amount,
                business_fee_percentage,
                r,
            ),
    {
        let ghost pre = self@;
        let idx = match self.find_tx(id) {
            Some(i) => i,
            None => {
                return Err(StoreError::UnknownTx);
            },
        };
        proof {
            assert(0 <= idx < pre.txs.len() && (#[trigger] pre.txs[idx as int]).id == id);
        }
        if self.txs[idx].state == TxState::Processed {
            return Err(StoreError::AlreadyProcessed);
        }
        let fits = match crate::numeric::parse_u128(self.txs[idx].amount.as_str()) {
            Some(v) => business_fee_amount <= v,
            None => true,
        };
        proof {
            assert(tx_wf(pre.txs[idx as int]));
            assert(fits == (business_fee_amount <= dec_val(pre.txs[idx as int].amount)));
        }
        if !fits {
            return Err(StoreError::FeeExceedsAmount);
        }
        let row = {
            let t = &self.txs[idx];
            TxRecord {
                id: t.id,
                tx_eth_hash: t.tx_eth_hash.clone(),
                from_eth_address: t.from_eth_address.clone(),
                amount: t.amount.clone(),
                to_glitch_address: t.to_glitch_address.clone(),
                state: TxState::Processed,
                error: match &t.error {
                    Some(e) => Some(e.clone()),
                    None => None,
                },
                tx_glitch_hash: Some(glitch_hash),
                business_fee_amount,
                business_fee_percentage,
                wich_transaction_fee: t.wich_transaction_fee,
            }
        };
        self.txs[idx] = row;
        proof {
            assert(self@.txs =~= pre.txs.update(
                idx as int,
                process_tx(
                    pre.txs[idx as int],
                    glitch_hash@,
                    business_fee_amount,
                    business_fee_percentage,
                ),
            ));
            assert(self@.scanners =~= pre.scanners);
            assert(self@.fees =~= pre.fees);
        }
        Ok(())
    }

    /// Records one executed treasury settlement and links every processed,
    /// still unlinked transfer request to it.  Returns the settlement's
    /// identity.
    #[verifier::loop_isolation(false)]
    pub fn insert_tx_fee(&mut self, glitch_hash: String, amount: u128, time: i64) -> (id: u64)
        requires
            store_wf(old(self)@),
            old(self)@.next_fee_id < u64::MAX,
        ensures
            store_wf(final(self)@),
            settle_post(old(self)@, final(self)@, glitch_hash@, amount, time, id),
    {
        let ghost pre = self@;
        let id = self.next_fee_id;
        let row = FeeTransaction { id, hash: glitch_hash, amount, time };
        self.fees.push(row);
        self.next_fee_id = self.next_fee_id + 1;
        proof {
            assert(self@.fees =~= pre.fees.push(FeeModel { id, hash: glitch_hash@, amount, time }));
            assert(self@.scanners =~= pre.scanners);
            assert(self@.txs =~= pre.txs);
        }
        let n = self.txs.len();
        let mut k: usize = 0;
        while k < n
            invariant
                0 <= k <= n,
                n == pre.txs.len(),
                self@.txs.len() == pre.txs.len(),
                forall|j: int| 0 <= j < k ==> self@.txs[j] == link_tx(#[trigger] pre.txs[j], id),
                forall|j: int| k <= j < n ==> self@.txs[j] == #[trigger] pre.txs[j],
                self@.scanners == pre.scanners,
                self@.fees == pre.fees.push(FeeModel { id, hash: glitch_hash@, amount, time }),
                self@.next_tx_id == pre.next_tx_id,
                self@.next_fee_id == pre.next_fee_id + 1,
            decreases n - k,
        {
            if self.txs[k].state == TxState::Processed && self.txs[k].wich_transaction_fee.is_none() {
                let row2 = {
                    let t = &self.txs[k];
                    TxRecord {
                        id: t.id,
                        tx_eth_hash: t.tx_eth_hash.clone(),
                        from_eth_address: t.from_eth_address.clone(),
                        amount: t.amount.clone(),
                        to_glitch_address: t.to_glitch_address.clone(),
                        state: t.state,
                        error: match &t.error {
                            Some(e) => Some(e.clone()),
                            None => None,
                        },
                        tx_glitch_hash: match &t.tx_glitch_hash {
                            Some(h) => Some(h.clone()),
                            None => None,
                        },
                        business_fee_amount: t.business_fee_amount,
                        business_fee_percentage: t.business_fee_percentage,
                        wich_transaction_fee: Some(id),
                    }
                };
                self.txs[k] = row2;
                proof {
                    assert(self@.txs[k as int] == link_tx(pre.txs[k as int], id));
                }
            } else {
                proof {
                    assert(self@.txs[k as int] == link_tx(pre.txs[k as int], id));
                }
            }
            k = k + 1;
        }
        proof {
            let post = self@;
            assert forall|i: int| 0 <= i < post.txs.len() implies tx_wf(#[trigger] post.txs[i]) by {
                assert(tx_wf(pre.txs[i]));
                assert(post.txs[i] == link_tx(pre.txs[i], id));
            }
            assert forall|i: int, j: int| 0 <= i < j < post.txs.len() implies post.txs[i].id
                != post.txs[j].id by {
                assert(post.txs[i] == link_tx(pre.txs[i], id));
                assert(post.txs[j] == link_tx(pre.txs[j], id));
            }
            assert forall|i: int| 0 <= i < post.txs.len() implies (#[trigger] post.txs[i]).id
                < post.next_tx_id by {
                assert(post.txs[i] == link_tx(pre.txs[i], id));
            }
            assert forall|i: int| 0 <= i < post.fees.len() implies (#[trigger] post.fees[i]).id
                < post.next_fee_id by {
                if i < pre.fees.len() {
                    assert(pre.fees[i].id < pre.next_fee_id);
                }
            }
            assert forall|i: int, j: int| 0 <= i < j < post.fees.len() implies post.fees[i].id
                != post.fees[j].id by {
                if j == pre.fees.len() as int {
                    assert(pre.fees[i].id < pre.next_fee_id);
                }
            }
        }
        id
    }

    /// The pending transfer requests, ordered by ascending amount so that the
    /// executor settles the smallest deposits first under a constrained
    /// signer balance.
    #[verifier::loop_isolation(false)]
    pub fn txs_to_process(&self) -> (r: Vec<TxToProcess>)
        requires
            store_wf(self@),
        ensures
            r@.map_values(|x: TxToProcess| x@).to_multiset() == pending_items(
                self@.txs,
            ).to_multiset(),
            forall|i: int, j: int|
                0 <= i < j < r@.len() ==> dec_val(r@[i]@.amount) <= dec_val(r@[j]@.amount),
            forall|i: int| 0 <= i < r@.len() ==> is_canonical_dec((#[trigger] r@[i])@.amount),
    {
        let ghost txs = self@.txs;
        let ghost pend = |t: TxModel| is_pending(t);
        let ghost item = |t: TxModel| pending_item(t);
        let ghost tview = |x: TxToProcess| x@;
        let n = self.txs.len();
        let mut collected: Vec<TxToProcess> = Vec::new();
        proof {
            reveal(Seq::filter);
            assert(txs.take(0) =~= Seq::<TxModel>::empty());
            assert(collected@.map_values(tview) =~= txs.take(0).filter(pend).map_values(item));
        }
        let mut k: usize = 0;
        while k < n
            invariant
                0 <= k <= n,
                collected@.map_values(tview) == txs.take(k as int).filter(pend).map_values(item),
                forall|a: int|
                    0 <= a < collected@.len() ==> is_canonical_dec(
                        (#[trigger] collected@[a])@.amount,
                    ),
            decreases n - k,
        {
            proof {
                reveal(Seq::filter);
                assert(txs.take(k + 1).drop_last() =~= txs.take(k as int));
                assert(txs.take(k + 1).last() == txs[k as int]);
            }
            if self.txs[k].state == TxState::ToProcess && self.txs[k].error.is_none() {
                let t = &self.txs[k];
                let it = TxToProcess {
                    id: t.id,
                    glitch_address: t.to_glitch_address.clone(),
                    amount: t.amount.clone(),
                };
                proof {
                    assert(tx_wf(txs[k as int]));
                    assert(it@ == pending_item(txs[k as int]));
                    assert(is_pending(txs[k as int]));
                }
                let ghost before = collected@;
                collected.push(it);
                proof {
                    assert(collected@.map_values(tview) =~= before.map_values(tview).push(it@));
                    assert(txs.take(k + 1).filter(pend) =~= txs.take(k as int).filter(pend).push(
                        txs[k as int],
                    ));
                    assert(txs.take(k + 1).filter(pend).map_values(item) =~= txs.take(
                        k as int,
                    ).filter(pend).map_values(item).push(pending_item(txs[k as int])));
                }
            } else {
                proof {
                    assert(!is_pending(txs[k as int]));
                    assert(txs.take(k + 1).filter(pend) =~= txs.take(k as int).filter(pend));
                }
            }
            k = k + 1;
        }
        proof {
            assert(txs.take(n as int) =~= txs);
        }
        let m = collected.len();
        let ghost citems = collected@.map_values(tview);
        let mut out: Vec<TxToProcess> = Vec::new();
        proof {
            broadcast use vstd::seq_lib::group_to_multiset_ensures;

            assert(citems.take(0) =~= Seq::<TxToProcessModel>::empty());
            assert(out@.map_values(tview) =~= Seq::<TxToProcessModel>::empty());
        }
        let mut i: usize = 0;
        while i < m
            invariant
                0 <= i <= m,
                out@.map_values(tview).to_multiset() == citems.take(i as int).to_multiset(),
                out@.len() <= i,
                forall|a: int, b: int|
                    0 <= a < b < out@.len() ==> dec_val(out@[a]@.amount) <= dec_val(out@[b]@.amount),
                forall|a: int|
                    0 <= a < out@.len() ==> is_canonical_dec((#[trigger] out@[a])@.amount),
            decreases m - i,
        {
            let x = {
                let t = &collected[i];
                TxToProcess {
                    id: t.id,
                    glitch_address: t.glitch_address.clone(),
                    amount: t.amount.clone(),
                }
            };
            proof {
                assert(x@ == citems[i as int]);
            }
            let mut pos: usize = 0;
            let mut k2: usize = 0;
            while k2 < out.len()
                invariant
                    0 <= pos <= k2 <= out@.len(),
                    forall|j: int| 0 <= j < pos ==> dec_val((#[trigger] out@[j])@.amount) <= dec_val(x@.amount),
                    forall|j: int| pos <= j < k2 ==> dec_val((#[trigger] out@[j])@.amount) > dec_val(x@.amount),
                decreases out@.len() - k2,
            {
                if crate::numeric::dec_le(out[k2].amount.as_str(), x.amount.as_str()) {
                    pos = k2 + 1;
                }
                k2 = k2 + 1;
            }
            let ghost before = out@;
            out.insert(pos, x);
            proof {
                broadcast use vstd::seq_lib::group_to_multiset_ensures;

                assert(out@ == before.insert(pos as int, x));
                before.insert_ensures(pos as int, x);
                assert(out@.map_values(tview) =~= before.map_values(tview).insert(pos as int, x@));
                lemma_to_multiset_insert(before.map_values(tview), pos as int, x@);
                assert(citems.take(i + 1).drop_last() =~= citems.take(i as int));
                assert(citems.take(i + 1) =~= citems.take(i as int).push(citems[i as int]));
                assert(citems.take(i + 1).to_multiset() =~= citems.take(
                    i as int,
                ).to_multiset().insert(citems[i as int]));
                assert forall|a: int, b: int| 0 <= a < b < out@.len() implies dec_val(
                    out@[a]@.amount,
                ) <= dec_val(out@[b]@.amount) by {
                    if b < pos {
                    } else if a < pos && b == pos {
                    } else if a < pos && b > pos {
                        assert(out@[b] == before[b - 1]);
                    } else if a == pos {
                        assert(out@[b] == before[b - 1]);
                        assert(dec_val(before[b - 1]@.amount) > dec_val(x@.amount));
                    } else {
                        assert(out@[a] == before[a - 1]);
                        assert(out@[b] == before[b - 1]);
                    }
                }
            }
            i = i + 1;
        }
        proof {
            assert(citems.take(m as int) =~= citems);
        }
        out
    }
}

} // verus!
