use crate::address::AddressNetwork;
use crate::record::{
    first_unresolved, highest_index, history_records, history_txids, resolved_scripts, utxo_records,
    utxo_txids, HistoryItem, HistoryView, ScriptView, UnspentItem, UtxoView,
};
use crate::txid::{ascending, insert_all, Txid};
use vstd::prelude::*;

verus! {

/// Number of consecutive derivation indexes looked at in one pass: the gap
/// limit.
pub const WINDOW_SIZE: u16 = 20;

/// The largest window offset: no window starts beyond it.
pub const LAST_OFFSET: u16 = 65500;

/// Number of transactions asked for in one request.
pub const BATCH_SIZE: usize = 20;

/// Number of fee estimates asked for.
pub const FEE_ESTIMATES: usize = 3;

/// Seconds allowed for opening the connection.
pub const CONNECT_TIMEOUT_SECS: u8 = 5;

/// Seconds between two looks for a new block.
pub const POLL_INTERVAL_SECS: u64 = 60;

/// Where a synchronization stands.
#[derive(Clone, Copy, Debug, PartialEq, Eq)]
pub enum Phase {
    /// Not started.
    Idle,
    /// Waiting for the connection to open.
    Connecting,
    /// Connected; waiting for the best-known block header.
    Connected,
    /// Waiting for the fee estimates.
    FetchingFeeEstimate,
    /// Waiting for the answers for the window of one branch that starts at
    /// `offset`.
    Scanning { change: bool, offset: u16 },
    /// Waiting for the transactions of batch number `batch`.
    FetchingTransactions { batch: usize },
    /// Synchronized; waiting for new blocks.
    Watching,
    /// Ended by a failure that was reported.
    Failed,
    /// Ended without a report.
    Stopped,
}

/// A phase as a mathematical value.
pub enum PhaseView {
    Idle,
    Connecting,
    Connected,
    FetchingFeeEstimate,
    Scanning { change: bool, offset: u16 },
    FetchingTransactions { batch: nat },
    Watching,
    Failed,
    Stopped,
}

impl View for Phase {
    type V = PhaseView;

    open spec fn view(&self) -> PhaseView {
        match *self {
            Phase::Idle => PhaseView::Idle,
            Phase::Connecting => PhaseView::Connecting,
            Phase::Connected => PhaseView::Connected,
            Phase::FetchingFeeEstimate => PhaseView::FetchingFeeEstimate,
            Phase::Scanning { change, offset } => PhaseView::Scanning { change, offset },
            Phase::FetchingTransactions { batch } => PhaseView::FetchingTransactions {
                batch: batch as nat,
            },
            Phase::Watching => PhaseView::Watching,
            Phase::Failed => PhaseView::Failed,
            Phase::Stopped => PhaseView::Stopped,
        }
    }
}

/// How far the fetching of transactions has come: `completed` batches out
/// of `total`. After the last batch the two are equal.
#[derive(Clone, Copy, Debug, PartialEq, Eq)]
pub struct Progress {
    pub completed: usize,
    pub total: usize,
}

/// A progress as mathematical values.
pub struct ProgressView {
    pub completed: nat,
    pub total: nat,
}

impl View for Progress {
    type V = ProgressView;

    open spec fn view(&self) -> ProgressView {
        ProgressView { completed: self.completed as nat, total: self.total as nat }
    }
}

/// Why a synchronization failed. `E` is the failure type of the indexing
/// service.
#[derive(Clone, Debug, PartialEq, Eq)]
pub enum WatchError<E> {
    /// A transport or protocol failure of the indexing service.
    Service(E),
    /// The descriptor could not give the scripts of a window.
    Descriptor(E),
    /// The script at `index` has activity and no address.
    BrokenDescriptor { change: bool, index: u32 },
    /// The branch has activity in its last window: no further window exists.
    Exhausted { change: bool },
    /// The service answered a request for `requested` transactions with
    /// `received` of them.
    MissingTransactions { requested: usize, received: usize },
    /// The service answered the request for three fee estimates with
    /// `received` of them, fewer than three.
    MissingFees { received: usize },
}

/// What the driver is asked to do next.
pub enum RequestView {
    Connect { timeout_secs: u8 },
    Tip,
    Fees { fast: usize, medium: usize, slow: usize },
    Window { change: bool, first: u16, last: u16 },
    Transactions(Seq<Txid>),
    Poll { delay_secs: u64 },
    Stop,
}

/// What the driver reports back. `H` is a block header notification, `F` a
/// fee rate, `T` a transaction, `E` a failure of the service.
pub enum EventView<H, F, T, E> {
    Start,
    Connected,
    Tip(H),
    Fees(Seq<F>),
    Window {
        scripts: Seq<ScriptView>,
        history: Seq<Seq<HistoryItem>>,
        unspent: Seq<Seq<UnspentItem>>,
    },
    Transactions(Seq<T>),
    Polled(Option<H>),
    Failed(WatchError<E>),
    Cancelled,
}

/// A message to the consumer.
pub enum WatchMsgView<H, F, T, E> {
    Connecting,
    Connected,
    Complete,
    LastBlock(H),
    LastBlockUpdate(H),
    FeeEstimate(F, F, F),
    HistoryBatch(Seq<HistoryView>, u16),
    UtxoBatch(Seq<UtxoView>, u16),
    TxBatch(Seq<(Txid, T)>, ProgressView),
    Error(WatchError<E>),
}

/// The answer to one event: the messages to send, in order, and what to do
/// next.
pub struct ReactionView<H, F, T, E> {
    pub emit: Seq<WatchMsgView<H, F, T, E>>,
    pub next: RequestView,
}

/// The state of a synchronization.
pub struct EngineView {
    pub phase: PhaseView,
    pub network: AddressNetwork,
    /// The transaction identifiers met so far, ascending, each once.
    pub ids: Seq<Txid>,
    /// Highest used index of the change branch.
    pub top_change: Option<u32>,
    /// Highest used index of the receiving branch.
    pub top_receive: Option<u32>,
}

/// The state before anything happened.
pub open spec fn initial(network: AddressNetwork) -> EngineView {
    EngineView {
        phase: PhaseView::Idle,
        network,
        ids: Seq::empty(),
        top_change: None,
        top_receive: None,
    }
}

/// What holds of every state that a run passes through: the identifiers
/// are ascending, a window starts within the index space, and a batch that
/// is waited for exists.
pub open spec fn valid(s: EngineView) -> bool {
    &&& ascending(s.ids)
    &&& s.phase matches PhaseView::Scanning { change, offset } ==> offset <= LAST_OFFSET
    &&& s.phase matches PhaseView::FetchingTransactions { batch } ==> batch < batch_count(
        s.ids.len() as int,
    )
}

/// No event changes a state in one of these phases.
pub open spec fn is_final(phase: PhaseView) -> bool {
    phase is Failed || phase is Stopped
}

/// Number of batches that `n` transactions are fetched in.
pub open spec fn batch_count(n: int) -> int {
    if n % (BATCH_SIZE as int) == 0 {
        n / (BATCH_SIZE as int)
    } else {
        n / (BATCH_SIZE as int) + 1
    }
}

/// Where batch number `k` of `n` transactions ends.
pub open spec fn batch_end(n: int, k: int) -> int {
    if BATCH_SIZE * k + BATCH_SIZE <= n {
        BATCH_SIZE * k + BATCH_SIZE
    } else {
        n
    }
}

/// The identifiers of batch number `k`.
pub open spec fn batch_ids(ids: Seq<Txid>, k: int) -> Seq<Txid> {
    ids.subrange(BATCH_SIZE * k, batch_end(ids.len() as int, k))
}

/// Each identifier of a batch with the transaction that came for it.
pub open spec fn batch_pairs<T>(ids: Seq<Txid>, bodies: Seq<T>) -> Seq<(Txid, T)> {
    Seq::new(ids.len(), |i: int| (ids[i], bodies[i]))
}

/// The request for the window of `change` that starts at `offset`.
pub open spec fn window_request(change: bool, offset: u16) -> RequestView {
    RequestView::Window { change, first: offset, last: (offset + WINDOW_SIZE - 1) as u16 }
}

/// The state with its phase replaced.
pub open spec fn at_phase(s: EngineView, phase: PhaseView) -> EngineView {
    EngineView { phase, ..s }
}

/// Ending in failure: the cause is reported and nothing more is asked.
pub open spec fn failing<H, F, T, E>(
    s: EngineView,
    before: Seq<WatchMsgView<H, F, T, E>>,
    cause: WatchError<E>,
) -> (EngineView, ReactionView<H, F, T, E>) {
    (
        at_phase(s, PhaseView::Failed),
        ReactionView { emit: before.push(WatchMsgView::Error(cause)), next: RequestView::Stop },
    )
}

/// Ending without a word.
pub open spec fn stopping<H, F, T, E>(s: EngineView) -> (EngineView, ReactionView<H, F, T, E>) {
    (at_phase(s, PhaseView::Stopped), ReactionView { emit: Seq::empty(), next: RequestView::Stop })
}

/// After the last thing to fetch: completion is announced and the watch
/// for new blocks begins.
pub open spec fn completing<H, F, T, E>(s: EngineView, before: Seq<WatchMsgView<H, F, T, E>>) -> (
    EngineView,
    ReactionView<H, F, T, E>,
) {
    (
        at_phase(s, PhaseView::Watching),
        ReactionView {
            emit: before.push(WatchMsgView::Complete),
            next: RequestView::Poll { delay_secs: POLL_INTERVAL_SECS },
        },
    )
}

/// The highest used index that a state holds for a branch.
pub open spec fn top_of(s: EngineView, change: bool) -> Option<u32> {
    if change {
        s.top_change
    } else {
        s.top_receive
    }
}

/// The state with the highest used index of one branch set.
pub open spec fn with_top(s: EngineView, change: bool, top: u32) -> EngineView {
    if change {
        EngineView { top_change: Some(top), ..s }
    } else {
        EngineView { top_receive: Some(top), ..s }
    }
}

/// What the fee estimates lead to.
///
/// Fewer than three of them end the run in failure. Otherwise the first
/// three are sent, in the order of the request, and the scan begins with
/// the first window of the change branch.
pub open spec fn fee_step<H, F, T, E>(s: EngineView, rates: Seq<F>) -> (
    EngineView,
    ReactionView<H, F, T, E>,
) {
    if rates.len() < FEE_ESTIMATES {
        failing(s, Seq::empty(), WatchError::MissingFees { received: rates.len() as usize })
    } else {
        (
            at_phase(s, PhaseView::Scanning { change: true, offset: 0 }),
            ReactionView {
                emit: seq![WatchMsgView::FeeEstimate(rates[0], rates[1], rates[2])],
                next: window_request(true, 0),
            },
        )
    }
}

/// What a window without history leads to: the scan of the branch ends.
///
/// Both batches of the window are sent empty, and nothing is kept of what
/// the service said of unspent outputs. The receiving branch follows the
/// change branch; the fetching of transactions follows the receiving
/// branch, or completion where there is nothing to fetch.
pub open spec fn branch_end<H, F, T, E>(s: EngineView, change: bool, offset: u16) -> (
    EngineView,
    ReactionView<H, F, T, E>,
) {
    let batches = seq![
        WatchMsgView::HistoryBatch(Seq::empty(), offset),
        WatchMsgView::UtxoBatch(Seq::empty(), offset),
    ];
    if change {
        (
            at_phase(s, PhaseView::Scanning { change: false, offset: 0 }),
            ReactionView { emit: batches, next: window_request(false, 0) },
        )
    } else if s.ids.len() == 0 {
        completing(s, batches)
    } else {
        (
            at_phase(s, PhaseView::FetchingTransactions { batch: 0 }),
            ReactionView { emit: batches, next: RequestView::Transactions(batch_ids(s.ids, 0)) },
        )
    }
}

/// What a window with the history records `found` and the unspent-output
/// records `coins` leads to: both batches are sent, every identifier in
/// them is kept, the highest used index of the branch is the largest index
/// in `found`, and the scan moves on by one window. Where no further
/// window exists, the run ends in failure after the batches.
pub open spec fn branch_on<H, F, T, E>(
    s: EngineView,
    change: bool,
    offset: u16,
    found: Seq<HistoryView>,
    coins: Seq<UtxoView>,
) -> (EngineView, ReactionView<H, F, T, E>) {
    let ids = insert_all(insert_all(s.ids, history_txids(found)), utxo_txids(coins));
    let batches = seq![
        WatchMsgView::HistoryBatch(found, offset),
        WatchMsgView::UtxoBatch(coins, offset),
    ];
    let marked = with_top(EngineView { ids, ..s }, change, highest_index(found));
    if offset <= LAST_OFFSET - WINDOW_SIZE {
        let next = (offset + WINDOW_SIZE) as u16;
        (
            at_phase(marked, PhaseView::Scanning { change, offset: next }),
            ReactionView { emit: batches, next: window_request(change, next) },
        )
    } else {
        failing(marked, batches, WatchError::Exhausted { change })
    }
}

/// What the answers for one window lead to.
///
/// A script with history and no address ends the run in failure, and
/// nothing of the window is sent. A window without history ends the branch
/// (`branch_end`): the unspent outputs reported for it are not looked at. A
/// window with history moves the branch on (`branch_on`), unless a script
/// with unspent outputs has no address, which ends the run in failure.
pub open spec fn window_step<H, F, T, E>(
    s: EngineView,
    change: bool,
    offset: u16,
    scripts: Seq<ScriptView>,
    history: Seq<Seq<HistoryItem>>,
    unspent: Seq<Seq<UnspentItem>>,
) -> (EngineView, ReactionView<H, F, T, E>) {
    let resolved = resolved_scripts(scripts, s.network);
    let found = history_records(resolved, history, change);
    if exists|i: int| first_unresolved(resolved, history, i) {
        let i = choose|i: int| first_unresolved(resolved, history, i);
        failing(s, Seq::empty(), WatchError::BrokenDescriptor { change, index: resolved[i].index })
    } else if found.len() == 0 {
        branch_end(s, change, offset)
    } else if exists|i: int| first_unresolved(resolved, unspent, i) {
        let i = choose|i: int| first_unresolved(resolved, unspent, i);
        failing(s, Seq::empty(), WatchError::BrokenDescriptor { change, index: resolved[i].index })
    } else {
        branch_on(s, change, offset, found, utxo_records(resolved, unspent, change))
    }
}

/// What the transactions of one batch lead to.
///
/// An answer of another length than the batch ends the run in failure.
/// Otherwise the batch is sent with the share of batches done; after the
/// last batch completion follows.
pub open spec fn fetch_step<H, F, T, E>(s: EngineView, batch: nat, bodies: Seq<T>) -> (
    EngineView,
    ReactionView<H, F, T, E>,
) {
    let wanted = batch_ids(s.ids, batch as int);
    let total = batch_count(s.ids.len() as int);
    if bodies.len() != wanted.len() {
        failing(
            s,
            Seq::empty(),
            WatchError::MissingTransactions {
                requested: wanted.len() as usize,
                received: bodies.len() as usize,
            },
        )
    } else {
        let sent = seq![
            WatchMsgView::TxBatch(
                batch_pairs(wanted, bodies),
                ProgressView { completed: batch + 1, total: total as nat },
            ),
        ];
        if batch + 1 == total {
            completing(s, sent)
        } else {
            (
                at_phase(s, PhaseView::FetchingTransactions { batch: batch + 1 }),
                ReactionView {
                    emit: sent,
                    next: RequestView::Transactions(batch_ids(s.ids, (batch + 1) as int)),
                },
            )
        }
    }
}

/// The state and the reaction that an event leads to.
///
/// A state that has ended stays as it is. A cancellation ends the run
/// without a word; a failure ends it with one `Error` message. Every phase
/// takes the one event that answers its request; any other event ends the
/// run without a word.
pub open spec fn step_spec<H, F, T, E>(s: EngineView, event: EventView<H, F, T, E>) -> (
    EngineView,
    ReactionView<H, F, T, E>,
) {
    if is_final(s.phase) {
        (s, ReactionView { emit: Seq::empty(), next: RequestView::Stop })
    } else {
        match (s.phase, event) {
            (_, EventView::Cancelled) => stopping(s),
            (_, EventView::Failed(cause)) => failing(s, Seq::empty(), cause),
            (PhaseView::Idle, EventView::Start) => (
                at_phase(s, PhaseView::Connecting),
                ReactionView {
                    emit: seq![WatchMsgView::Connecting],
                    next: RequestView::Connect { timeout_secs: CONNECT_TIMEOUT_SECS },
                },
            ),
            (PhaseView::Connecting, EventView::Connected) => (
                at_phase(s, PhaseView::Connected),
                ReactionView { emit: seq![WatchMsgView::Connected], next: RequestView::Tip },
            ),
            (PhaseView::Connected, EventView::Tip(header)) => (
                at_phase(s, PhaseView::FetchingFeeEstimate),
                ReactionView {
                    emit: seq![WatchMsgView::LastBlock(header)],
                    next: RequestView::Fees { fast: 1, medium: 2, slow: 3 },
                },
            ),
            (PhaseView::FetchingFeeEstimate, EventView::Fees(rates)) => fee_step(s, rates),
            (
                PhaseView::Scanning { change, offset },
                EventView::Window { scripts, history, unspent },
            ) => window_step(s, change, offset, scripts, history, unspent),
            (PhaseView::FetchingTransactions { batch }, EventView::Transactions(bodies)) => fetch_step(
                s,
                batch,
                bodies,
            ),
            (PhaseView::Watching, EventView::Polled(Some(header))) => (
                s,
                ReactionView {
                    emit: seq![WatchMsgView::LastBlockUpdate(header)],
                    next: RequestView::Poll { delay_secs: POLL_INTERVAL_SECS },
                },
            ),
            (PhaseView::Watching, EventView::Polled(None)) => (
                s,
                ReactionView {
                    emit: Seq::empty(),
                    next: RequestView::Poll { delay_secs: POLL_INTERVAL_SECS },
                },
            ),
            _ => stopping(s),
        }
    }
}

} // verus!
