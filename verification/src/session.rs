//! One gateway session: the protocol state machine for a single account.
//!
//! A session owns the descriptor of one broker/account pair and drives it
//! through a fixed pipeline: authenticate, login, confirm settlement, then a
//! chain of queries (trading account, position detail, position, instrument,
//! market data, orders, trades), after which it is in its steady `Ready`
//! state.  Each inbound connector event may cause one phase transition and at
//! most one outbound request, tagged with a fresh, strictly increasing
//! correlation id.  Paginated query responses advance the pipeline only on
//! their final record; earlier records just accumulate into the snapshots.
//!
//! The session itself is pure state: the surrounding program feeds it events
//! (as plain values) and performs the requests it returns.

use vstd::prelude::*;
use crate::account::AccountDescriptor;
use crate::account::AccountDescriptorV;
use crate::account::KeyV;

verus! {

/// The first correlation id a fresh session hands out is this seed plus one.
pub const REQUEST_ID_SEED: i32 = 10;

/// The step of the query pipeline a session currently occupies.
///
/// `Fatal` is entered when the venue rejects authentication: the session is
/// dead but the failure stays confined to this one account.  `Exited` is
/// entered when the front disconnects or the session is torn down.  Both are
/// terminal: a terminal session ignores every further event.
#[derive(Clone, Copy, PartialEq, Eq, Structural, Debug)]
pub enum Phase {
    Connecting,
    Authenticating,
    LoggingIn,
    ConfirmingSettlement,
    QueryingAccount,
    QueryingPositionDetail,
    QueryingPosition,
    QueryingInstrument,
    QueryingMarketData,
    QueryingOrders,
    QueryingTrades,
    Ready,
    Fatal,
    Exited,
}

/// One order as the venue last reported it, keyed for "newest wins" updates.
pub struct OrderSnapshot {
    pub key: String,
    pub instrument: String,
    pub volume: u32,
    pub price: i64,
}

/// Mathematical model of an [`OrderSnapshot`].
pub struct OrderSnapshotV {
    pub key: Seq<char>,
    pub instrument: Seq<char>,
    pub volume: u32,
    pub price: i64,
}

impl View for OrderSnapshot {
    type V = OrderSnapshotV;

    open spec fn view(&self) -> OrderSnapshotV {
        OrderSnapshotV {
            key: self.key@,
            instrument: self.instrument@,
            volume: self.volume,
            price: self.price,
        }
    }
}

impl OrderSnapshot {
    /// A field-by-field copy, equal to `self` in the model.
    pub fn duplicate(&self) -> (r: OrderSnapshot)
        ensures
            r@ == self@,
    {
        OrderSnapshot {
            key: self.key.clone(),
            instrument: self.instrument.clone(),
            volume: self.volume,
            price: self.price,
        }
    }
}

/// The identity part of a trading-account query response.
pub struct AccountRecord {
    pub account_id: String,
    pub trading_day: String,
}

/// Mathematical model of an [`AccountRecord`].
pub struct AccountRecordV {
    pub account_id: Seq<char>,
    pub trading_day: Seq<char>,
}

impl View for AccountRecord {
    type V = AccountRecordV;

    open spec fn view(&self) -> AccountRecordV {
        AccountRecordV { account_id: self.account_id@, trading_day: self.trading_day@ }
    }
}

/// A typed inbound connector event, as the surrounding program decodes it.
/// Paginated query responses carry a last-in-batch flag; only the account and
/// order responses carry data the session keeps.
#[allow(inconsistent_fields)]
pub enum Event {
    FrontConnected,
    FrontDisconnected,
    AuthenticateResponse { error_id: i32 },
    LoginResponse { error_id: i32 },
    SettlementConfirmResponse,
    TradingAccountResponse { record: Option<AccountRecord>, is_last: bool },
    PositionDetailResponse { is_last: bool },
    PositionResponse { is_last: bool },
    InstrumentResponse { is_last: bool },
    MarketDataResponse { is_last: bool },
    OrderResponse { record: Option<OrderSnapshot>, is_last: bool },
    TradeResponse { is_last: bool },
}

/// Mathematical model of an [`Event`].
#[allow(inconsistent_fields)]
pub enum EventV {
    FrontConnected,
    FrontDisconnected,
    AuthenticateResponse { error_id: i32 },
    LoginResponse { error_id: i32 },
    SettlementConfirmResponse,
    TradingAccountResponse { record: Option<AccountRecordV>, is_last: bool },
    PositionDetailResponse { is_last: bool },
    PositionResponse { is_last: bool },
    InstrumentResponse { is_last: bool },
    MarketDataResponse { is_last: bool },
    OrderResponse { record: Option<OrderSnapshotV>, is_last: bool },
    TradeResponse { is_last: bool },
}

impl View for Event {
    type V = EventV;

    open spec fn view(&self) -> EventV {
        match self {
            Event::FrontConnected => EventV::FrontConnected,
            Event::FrontDisconnected => EventV::FrontDisconnected,
            Event::AuthenticateResponse { error_id } => EventV::AuthenticateResponse {
                error_id: *error_id,
            },
            Event::LoginResponse { error_id } => EventV::LoginResponse { error_id: *error_id },
            Event::SettlementConfirmResponse => EventV::SettlementConfirmResponse,
            Event::TradingAccountResponse { record, is_last } => EventV::TradingAccountResponse {
                record: match record {
                    Some(r) => Some(r@),
                    None => None,
                },
                is_last: *is_last,
            },
            Event::PositionDetailResponse { is_last } => EventV::PositionDetailResponse {
                is_last: *is_last,
            },
            Event::PositionResponse { is_last } => EventV::PositionResponse { is_last: *is_last },
            Event::InstrumentResponse { is_last } => EventV::InstrumentResponse {
                is_last: *is_last,
            },
            Event::MarketDataResponse { is_last } => EventV::MarketDataResponse {
                is_last: *is_last,
            },
            Event::OrderResponse { record, is_last } => EventV::OrderResponse {
                record: match record {
                    Some(r) => Some(r@),
                    None => None,
                },
                is_last: *is_last,
            },
            Event::TradeResponse { is_last } => EventV::TradeResponse { is_last: *is_last },
        }
    }
}

/// An outbound request for the connector, with the payload the pipeline
/// prescribes for it.  All payload fields come from the session's descriptor.
pub enum Request {
    Authenticate {
        broker_id: String,
        user_id: String,
        auth_code: String,
        user_product_info: String,
        app_id: String,
    },
    Login { broker_id: String, user_id: String, password: String },
    SettlementInfoConfirm { broker_id: String, investor_id: String },
    QueryTradingAccount { broker_id: String, investor_id: String },
    QueryPositionDetail { broker_id: String, investor_id: String },
    QueryPosition { broker_id: String, investor_id: String },
    QueryInstrument,
    QueryMarketData,
    QueryOrders { broker_id: String, investor_id: String },
    QueryTrades { broker_id: String, investor_id: String },
}

/// Mathematical model of a [`Request`].
pub enum RequestV {
    Authenticate {
        broker_id: Seq<char>,
        user_id: Seq<char>,
        auth_code: Seq<char>,
        user_product_info: Seq<char>,
        app_id: Seq<char>,
    },
    Login { broker_id: Seq<char>, user_id: Seq<char>, password: Seq<char> },
    SettlementInfoConfirm { broker_id: Seq<char>, investor_id: Seq<char> },
    QueryTradingAccount { broker_id: Seq<char>, investor_id: Seq<char> },
    QueryPositionDetail { broker_id: Seq<char>, investor_id: Seq<char> },
    QueryPosition { broker_id: Seq<char>, investor_id: Seq<char> },
    QueryInstrument,
    QueryMarketData,
    QueryOrders { broker_id: Seq<char>, investor_id: Seq<char> },
    QueryTrades { broker_id: Seq<char>, investor_id: Seq<char> },
}

impl View for Request {
    type V = RequestV;

    open spec fn view(&self) -> RequestV {
        match self {
            Request::Authenticate { broker_id, user_id, auth_code, user_product_info, app_id } => {
                RequestV::Authenticate {
                    broker_id: broker_id@,
                    user_id: user_id@,
                    auth_code: auth_code@,
                    user_product_info: user_product_info@,
                    app_id: app_id@,
                }
            },
            Request::Login { broker_id, user_id, password } => RequestV::Login {
                broker_id: broker_id@,
                user_id: user_id@,
                password: password@,
            },
            Request::SettlementInfoConfirm { broker_id, investor_id } => {
                RequestV::SettlementInfoConfirm {
                    broker_id: broker_id@,
                    investor_id: investor_id@,
                }
            },
            Request::QueryTradingAccount { broker_id, investor_id } => {
                RequestV::QueryTradingAccount { broker_id: broker_id@, investor_id: investor_id@ }
            },
            Request::QueryPositionDetail { broker_id, investor_id } => {
                RequestV::QueryPositionDetail { broker_id: broker_id@, investor_id: investor_id@ }
            },
            Request::QueryPosition { broker_id, investor_id } => RequestV::QueryPosition {
                broker_id: broker_id@,
                investor_id: investor_id@,
            },
            Request::QueryInstrument => RequestV::QueryInstrument,
            Request::QueryMarketData => RequestV::QueryMarketData,
            Request::QueryOrders { broker_id, investor_id } => RequestV::QueryOrders {
                broker_id: broker_id@,
                investor_id: investor_id@,
            },
            Request::QueryTrades { broker_id, investor_id } => RequestV::QueryTrades {
                broker_id: broker_id@,
                investor_id: investor_id@,
            },
        }
    }
}

/// A request together with the correlation id it was issued under.
pub struct OutboundRequest {
    pub request_id: i32,
    pub request: Request,
}

/// Mathematical model of an [`OutboundRequest`].
pub struct OutboundRequestV {
    pub request_id: int,
    pub request: RequestV,
}

impl View for OutboundRequest {
    type V = OutboundRequestV;

    open spec fn view(&self) -> OutboundRequestV {
        OutboundRequestV { request_id: self.request_id as int, request: self.request@ }
    }
}

/// A venue-state change a steady-state session publishes for the sink.
pub enum DomainEvent {
    OrderChanged(OrderSnapshot),
}

/// Mathematical model of a [`DomainEvent`].
pub enum DomainEventV {
    OrderChanged(OrderSnapshotV),
}

impl View for DomainEvent {
    type V = DomainEventV;

    open spec fn view(&self) -> DomainEventV {
        match self {
            DomainEvent::OrderChanged(o) => DomainEventV::OrderChanged(o@),
        }
    }
}

/// What one step of the state machine produced: at most one outbound request
/// and at most one published domain event.
pub struct StepOutcome {
    pub request: Option<OutboundRequest>,
    pub domain_event: Option<DomainEvent>,
}

/// Mathematical model of a [`StepOutcome`].
pub struct StepOutcomeV {
    pub request: Option<OutboundRequestV>,
    pub domain_event: Option<DomainEventV>,
}

impl View for StepOutcome {
    type V = StepOutcomeV;

    open spec fn view(&self) -> StepOutcomeV {
        StepOutcomeV {
            request: match &self.request {
                Some(r) => Some(r@),
                None => None,
            },
            domain_event: match &self.domain_event {
                Some(d) => Some(d@),
                None => None,
            },
        }
    }
}

/// Mathematical model of a [`Session`].
pub struct SessionV {
    pub descriptor: AccountDescriptorV,
    pub phase: Phase,
    pub request_id: int,
    pub orders: Seq<OrderSnapshotV>,
    pub account_info: Option<AccountRecordV>,
}

/// The model of a sequence of order snapshots.
pub open spec fn orders_view(os: Seq<OrderSnapshot>) -> Seq<OrderSnapshotV> {
    Seq::new(os.len(), |i: int| os[i]@)
}

impl SessionV {
    /// Identity key of the session's account.
    pub open spec fn key(self) -> KeyV {
        self.descriptor.key()
    }

    /// A terminal session ignores every further event.
    pub open spec fn terminal(self) -> bool {
        self.phase is Fatal || self.phase is Exited
    }

    /// Session well-formedness: the descriptor could drive a session, the
    /// correlation counter never falls below its seed, and the order
    /// snapshot holds at most one entry per order key.
    pub open spec fn wf(self) -> bool {
        &&& self.descriptor.valid()
        &&& self.request_id >= REQUEST_ID_SEED
        &&& order_keys_unique(self.orders)
    }
}

/// No two order snapshots share a key.
pub open spec fn order_keys_unique(os: Seq<OrderSnapshotV>) -> bool {
    forall|i: int, j: int| 0 <= i < j < os.len() ==> os[i].key != os[j].key
}

/// A session fresh out of reconciliation: connecting, counter at its seed,
/// empty snapshots.
pub open spec fn fresh_session(d: AccountDescriptorV) -> SessionV {
    SessionV {
        descriptor: d,
        phase: Phase::Connecting,
        request_id: REQUEST_ID_SEED as int,
        orders: Seq::empty(),
        account_info: None,
    }
}

/// The phase a session moves to on an event.  Terminal phases absorb
/// everything; a front disconnect is terminal from any phase; otherwise only
/// the event kind the current phase waits for advances the pipeline, and a
/// paginated response advances it only when its last-in-batch flag is set.
pub open spec fn next_phase(p: Phase, e: EventV) -> Phase {
    if p is Fatal || p is Exited {
        p
    } else if e is FrontDisconnected {
        Phase::Exited
    } else {
        match p {
            Phase::Connecting => if e is FrontConnected {
                Phase::Authenticating
            } else {
                p
            },
            Phase::Authenticating => match e {
                EventV::AuthenticateResponse { error_id } => if error_id == 0 {
                    Phase::LoggingIn
                } else {
                    Phase::Fatal
                },
                _ => p,
            },
            Phase::LoggingIn => if e is LoginResponse {
                Phase::ConfirmingSettlement
            } else {
                p
            },
            Phase::ConfirmingSettlement => if e is SettlementConfirmResponse {
                Phase::QueryingAccount
            } else {
                p
            },
            Phase::QueryingAccount => match e {
                EventV::TradingAccountResponse { is_last, .. } => if is_last {
                    Phase::QueryingPositionDetail
                } else {
                    p
                },
                _ => p,
            },
            Phase::QueryingPositionDetail => match e {
                EventV::PositionDetailResponse { is_last } => if is_last {
                    Phase::QueryingPosition
                } else {
                    p
                },
                _ => p,
            },
            Phase::QueryingPosition => match e {
                EventV::PositionResponse { is_last } => if is_last {
                    Phase::QueryingInstrument
                } else {
                    p
                },
                _ => p,
            },
            Phase::QueryingInstrument => match e {
                EventV::InstrumentResponse { is_last } => if is_last {
                    Phase::QueryingMarketData
                } else {
                    p
                },
                _ => p,
            },
            Phase::QueryingMarketData => match e {
                EventV::MarketDataResponse { is_last } => if is_last {
                    Phase::QueryingOrders
                } else {
                    p
                },
                _ => p,
            },
            Phase::QueryingOrders => match e {
                EventV::OrderResponse { is_last, .. } => if is_last {
                    Phase::QueryingTrades
                } else {
                    p
                },
                _ => p,
            },
            Phase::QueryingTrades => match e {
                EventV::TradeResponse { is_last } => if is_last {
                    Phase::Ready
                } else {
                    p
                },
                _ => p,
            },
            Phase::Ready => p,
            Phase::Fatal => p,
            Phase::Exited => p,
        }
    }
}

/// Whether the event advances the pipeline in a way that issues a request.
pub open spec fn emits(p: Phase, e: EventV) -> bool {
    if p is Fatal || p is Exited || e is FrontDisconnected {
        false
    } else {
        match p {
            Phase::Connecting => e is FrontConnected,
            Phase::Authenticating => e matches EventV::AuthenticateResponse { error_id }
                && error_id == 0,
            Phase::LoggingIn => e is LoginResponse,
            Phase::ConfirmingSettlement => e is SettlementConfirmResponse,
            Phase::QueryingAccount => e matches EventV::TradingAccountResponse { is_last, .. }
                && is_last,
            Phase::QueryingPositionDetail => e matches EventV::PositionDetailResponse { is_last }
                && is_last,
            Phase::QueryingPosition => e matches EventV::PositionResponse { is_last } && is_last,
            Phase::QueryingInstrument => e matches EventV::InstrumentResponse { is_last }
                && is_last,
            Phase::QueryingMarketData => e matches EventV::MarketDataResponse { is_last }
                && is_last,
            Phase::QueryingOrders => e matches EventV::OrderResponse { is_last, .. } && is_last,
            Phase::QueryingTrades => false,
            Phase::Ready => false,
            Phase::Fatal => false,
            Phase::Exited => false,
        }
    }
}

/// The request the pipeline prescribes for this phase and event, with its
/// payload drawn from the descriptor.
pub open spec fn request_body(d: AccountDescriptorV, p: Phase, e: EventV) -> Option<RequestV> {
    if !emits(p, e) {
        None
    } else {
        match p {
            Phase::Connecting => Some(
                RequestV::Authenticate {
                    broker_id: d.broker_id,
                    user_id: d.account,
                    auth_code: d.auth_code,
                    user_product_info: d.user_product_info,
                    app_id: d.app_id,
                },
            ),
            Phase::Authenticating => Some(
                RequestV::Login {
                    broker_id: d.broker_id,
                    user_id: d.account,
                    password: d.password,
                },
            ),
            Phase::LoggingIn => Some(
                RequestV::SettlementInfoConfirm {
                    broker_id: d.broker_id,
                    investor_id: d.account,
                },
            ),
            Phase::ConfirmingSettlement => Some(
                RequestV::QueryTradingAccount { broker_id: d.broker_id, investor_id: d.account },
            ),
            Phase::QueryingAccount => Some(
                RequestV::QueryPositionDetail { broker_id: d.broker_id, investor_id: d.account },
            ),
            Phase::QueryingPositionDetail => Some(
                RequestV::QueryPosition { broker_id: d.broker_id, investor_id: d.account },
            ),
            Phase::QueryingPosition => Some(RequestV::QueryInstrument),
            Phase::QueryingInstrument => Some(RequestV::QueryMarketData),
            Phase::QueryingMarketData => Some(
                RequestV::QueryOrders { broker_id: d.broker_id, investor_id: d.account },
            ),
            Phase::QueryingOrders => Some(
                RequestV::QueryTrades { broker_id: d.broker_id, investor_id: d.account },
            ),
            _ => None,
        }
    }
}

/// The outbound request of one step: the prescribed body under the next
/// correlation id, if the step issues one.
pub open spec fn outbound(d: AccountDescriptorV, rid: int, p: Phase, e: EventV) -> Option<
    OutboundRequestV,
> {
    match request_body(d, p, e) {
        Some(rq) => Some(OutboundRequestV { request_id: rid + 1, request: rq }),
        None => None,
    }
}

/// The correlation counter after one step: bumped exactly when a request is
/// issued, so ids are strictly increasing and never reused.
pub open spec fn counter_after(rid: int, p: Phase, e: EventV) -> int {
    if emits(p, e) {
        rid + 1
    } else {
        rid
    }
}

/// "Newest wins" insertion of an order record into the snapshot.
pub open spec fn upsert_order(os: Seq<OrderSnapshotV>, o: OrderSnapshotV) -> Seq<OrderSnapshotV>
    decreases os.len(),
{
    if os.len() == 0 {
        seq![o]
    } else if os[0].key == o.key {
        seq![o] + os.skip(1)
    } else {
        seq![os[0]] + upsert_order(os.skip(1), o)
    }
}

/// The order snapshot after one step: an order record accumulates (newest
/// wins) in any live phase; everything else leaves it alone.
pub open spec fn orders_after(p: Phase, os: Seq<OrderSnapshotV>, e: EventV) -> Seq<OrderSnapshotV> {
    if p is Fatal || p is Exited {
        os
    } else {
        match e {
            EventV::OrderResponse { record: Some(o), .. } => upsert_order(os, o),
            _ => os,
        }
    }
}

/// The account snapshot after one step: a trading-account record replaces it
/// (newest wins) in any live phase.
pub open spec fn account_info_after(p: Phase, ai: Option<AccountRecordV>, e: EventV) -> Option<
    AccountRecordV,
> {
    if p is Fatal || p is Exited {
        ai
    } else {
        match e {
            EventV::TradingAccountResponse { record: Some(r), .. } => Some(r),
            _ => ai,
        }
    }
}

/// The domain event one step publishes: an order record that arrives in the
/// steady state is surfaced for the sink.
pub open spec fn domain_event_for(p: Phase, e: EventV) -> Option<DomainEventV> {
    if p is Ready {
        match e {
            EventV::OrderResponse { record: Some(o), .. } => Some(DomainEventV::OrderChanged(o)),
            _ => None,
        }
    } else {
        None
    }
}

/// The whole session state after one step.
pub open spec fn step_state(s: SessionV, e: EventV) -> SessionV {
    SessionV {
        descriptor: s.descriptor,
        phase: next_phase(s.phase, e),
        request_id: counter_after(s.request_id, s.phase, e),
        orders: orders_after(s.phase, s.orders, e),
        account_info: account_info_after(s.phase, s.account_info, e),
    }
}

/// The model of what one step returns.
pub open spec fn step_outcome(s: SessionV, e: EventV) -> StepOutcomeV {
    StepOutcomeV {
        request: outbound(s.descriptor, s.request_id, s.phase, e),
        domain_event: domain_event_for(s.phase, e),
    }
}

/// The runtime state of one account's session.  The surrounding program owns
/// the connector handle; the session owns only the decisions.
pub struct Session {
    pub descriptor: AccountDescriptor,
    pub phase: Phase,
    pub request_id: i32,
    pub orders: Vec<OrderSnapshot>,
    pub account_info: Option<AccountRecord>,
}

impl View for Session {
    type V = SessionV;

    open spec fn view(&self) -> SessionV {
        SessionV {
            descriptor: self.descriptor@,
            phase: self.phase,
            request_id: self.request_id as int,
            orders: orders_view(self.orders@),
            account_info: match &self.account_info {
                Some(r) => Some(r@),
                None => None,
            },
        }
    }
}

proof fn lemma_upsert_at(os: Seq<OrderSnapshotV>, o: OrderSnapshotV, i: int)
    requires
        0 <= i < os.len(),
        os[i].key == o.key,
        forall|j: int| 0 <= j < i ==> os[j].key != o.key,
    ensures
        upsert_order(os, o) == os.update(i, o),
    decreases i,
{
    if i == 0 {
        assert(upsert_order(os, o) =~= os.update(0, o));
    } else {
        lemma_upsert_at(os.skip(1), o, i - 1);
        assert(os.skip(1).update(i - 1, o) =~= os.update(i, o).skip(1));
        assert(upsert_order(os, o) =~= os.update(i, o));
    }
}

proof fn lemma_upsert_absent(os: Seq<OrderSnapshotV>, o: OrderSnapshotV)
    requires
        forall|j: int| 0 <= j < os.len() ==> os[j].key != o.key,
    ensures
        upsert_order(os, o) == os.push(o),
    decreases os.len(),
{
    if os.len() == 0 {
        assert(upsert_order(os, o) =~= os.push(o));
    } else {
        lemma_upsert_absent(os.skip(1), o);
        assert(upsert_order(os, o) =~= os.push(o));
    }
}

/// Upserting preserves key uniqueness.
pub proof fn lemma_upsert_keys_unique(os: Seq<OrderSnapshotV>, o: OrderSnapshotV)
    requires
        order_keys_unique(os),
    ensures
        order_keys_unique(upsert_order(os, o)),
    decreases os.len(),
{
    if os.len() == 0 {
    } else if os[0].key == o.key {
        assert forall|i: int, j: int|
            0 <= i < j < upsert_order(os, o).len() implies upsert_order(os, o)[i].key
            != upsert_order(os, o)[j].key by {
            assert(upsert_order(os, o) == seq![o] + os.skip(1));
        }
    } else {
        assert(order_keys_unique(os.skip(1)));
        lemma_upsert_keys_unique(os.skip(1), o);
        let r = upsert_order(os, o);
        assert(r == seq![os[0]] + upsert_order(os.skip(1), o));
        lemma_upsert_membership(os.skip(1), o);
        assert forall|i: int, j: int| 0 <= i < j < r.len() implies r[i].key != r[j].key by {
            if i == 0 {
                let inner = upsert_order(os.skip(1), o);
                assert(r[j] == inner[j - 1]);
                if inner[j - 1].key == o.key {
                } else {
                    let k = choose|k: int|
                        0 <= k < os.skip(1).len() && os.skip(1)[k] == inner[j - 1];
                    assert(os[k + 1] == inner[j - 1]);
                }
            }
        }
    }
}

/// Every element of an upsert result is the new record or came from the input.
proof fn lemma_upsert_membership(os: Seq<OrderSnapshotV>, o: OrderSnapshotV)
    ensures
        forall|i: int|
            0 <= i < upsert_order(os, o).len() ==> (upsert_order(os, o)[i] == o || exists|k: int|
                0 <= k < os.len() && os[k] == upsert_order(os, o)[i]),
    decreases os.len(),
{
    if os.len() == 0 {
    } else if os[0].key == o.key {
        assert forall|i: int| 0 <= i < upsert_order(os, o).len() implies (upsert_order(os, o)[i]
            == o || exists|k: int| 0 <= k < os.len() && os[k] == upsert_order(os, o)[i]) by {
            if i > 0 {
                assert(os[i] == upsert_order(os, o)[i]);
            }
        }
    } else {
        lemma_upsert_membership(os.skip(1), o);
        let r = upsert_order(os, o);
        assert forall|i: int| 0 <= i < r.len() implies (r[i] == o || exists|k: int|
            0 <= k < os.len() && os[k] == r[i]) by {
            if i == 0 {
                assert(os[0] == r[0]);
            } else {
                let inner = upsert_order(os.skip(1), o);
                assert(r[i] == inner[i - 1]);
                if inner[i - 1] == o {
                } else {
                    let k = choose|k: int| 0 <= k < os.skip(1).len() && os.skip(1)[k] == inner[i
                        - 1];
                    assert(os[k + 1] == r[i]);
                }
            }
        }
    }
}

impl Session {
    /// Session well-formedness, at the model level.
    pub open spec fn wf(self) -> bool {
        self@.wf()
    }

    /// A fresh session for a (valid) descriptor: connecting, counter at its
    /// seed, empty snapshots.
    pub fn new(descriptor: AccountDescriptor) -> (s: Session)
        requires
            descriptor@.valid(),
        ensures
            s@ == fresh_session(descriptor@),
            s.wf(),
    {
        let s = Session {
            descriptor,
            phase: Phase::Connecting,
            request_id: REQUEST_ID_SEED,
            orders: Vec::new(),
            account_info: None,
        };
        proof {
            assert(orders_view(s.orders@) =~= Seq::<OrderSnapshotV>::empty());
        }
        s
    }

    /// Hand out the next correlation id: the counter is bumped first, so ids
    /// are strictly increasing and the seed itself is never used.
    pub fn get_request_id(&mut self) -> (r: i32)
        requires
            old(self).request_id < i32::MAX,
        ensures
            final(self)@ == (SessionV { request_id: old(self)@.request_id + 1, ..old(self)@ }),
            r as int == old(self)@.request_id + 1,
    {
        self.request_id = self.request_id + 1;
        self.request_id
    }

    /// "Newest wins" insertion of an order record into the snapshot.
    fn apply_order(&mut self, o: OrderSnapshot)
        ensures
            final(self)@ == (SessionV {
                orders: upsert_order(old(self)@.orders, o@),
                ..old(self)@
            }),
    {
        let ghost os0 = orders_view(self.orders@);
        let mut i: usize = 0;
        while i < self.orders.len()
            invariant
                i <= self.orders.len(),
                os0 == orders_view(self.orders@),
                os0 == old(self)@.orders,
                self@ == (SessionV { orders: os0, ..old(self)@ }),
                forall|j: int| 0 <= j < i ==> os0[j].key != o@.key,
            decreases self.orders.len() - i,
        {
            if self.orders[i].key == o.key {
                proof {
                    lemma_upsert_at(os0, o@, i as int);
                }
                self.orders[i] = o;
                proof {
                    assert(orders_view(self.orders@) =~= os0.update(i as int, o@));
                }
                return ;
            }
            i = i + 1;
        }
        proof {
            lemma_upsert_absent(os0, o@);
        }
        self.orders.push(o);
        proof {
            assert(orders_view(self.orders@) =~= os0.push(o@));
        }
    }

    /// Process one inbound connector event: advance the phase per the
    /// pipeline, issue the prescribed request under a fresh correlation id,
    /// accumulate snapshot records, and surface steady-state order changes.
    pub fn step(&mut self, e: Event) -> (out: StepOutcome)
        requires
            old(self).request_id < i32::MAX,
        ensures
            final(self)@ == step_state(old(self)@, e@),
            out@ == step_outcome(old(self)@, e@),
    {
        if self.phase == Phase::Fatal || self.phase == Phase::Exited {
            return StepOutcome { request: None, domain_event: None };
        }
        match e {
            Event::FrontConnected => {
                if self.phase == Phase::Connecting {
                    let rid = self.get_request_id();
                    self.phase = Phase::Authenticating;
                    StepOutcome {
                        request: Some(
                            OutboundRequest {
                                request_id: rid,
                                request: Request::Authenticate {
                                    broker_id: self.descriptor.broker_id.clone(),
                                    user_id: self.descriptor.account.clone(),
                                    auth_code: self.descriptor.auth_code.clone(),
                                    user_product_info: self.descriptor.user_product_info.clone(),
                                    app_id: self.descriptor.app_id.clone(),
                                },
                            },
                        ),
                        domain_event: None,
                    }
                } else {
                    StepOutcome { request: None, domain_event: None }
                }
            },
            Event::FrontDisconnected => {
                self.phase = Phase::Exited;
                StepOutcome { request: None, domain_event: None }
            },
            Event::AuthenticateResponse { error_id } => {
                if self.phase == Phase::Authenticating {
                    if error_id == 0 {
                        let rid = self.get_request_id();
                        self.phase = Phase::LoggingIn;
                        StepOutcome {
                            request: Some(
                                OutboundRequest {
                                    request_id: rid,
                                    request: Request::Login {
                                        broker_id: self.descriptor.broker_id.clone(),
                                        user_id: self.descriptor.account.clone(),
                                        password: self.descriptor.password.clone(),
                                    },
                                },
                            ),
                            domain_event: None,
                        }
                    } else {
                        self.phase = Phase::Fatal;
                        StepOutcome { request: None, domain_event: None }
                    }
                } else {
                    StepOutcome { request: None, domain_event: None }
                }
            },
            Event::LoginResponse { error_id: _ } => {
                if self.phase == Phase::LoggingIn {
                    let rid = self.get_request_id();
                    self.phase = Phase::ConfirmingSettlement;
                    StepOutcome {
                        request: Some(
                            OutboundRequest {
                                request_id: rid,
                                request: Request::SettlementInfoConfirm {
                                    broker_id: self.descriptor.broker_id.clone(),
                                    investor_id: self.descriptor.account.clone(),
                                },
                            },
                        ),
                        domain_event: None,
                    }
                } else {
                    StepOutcome { request: None, domain_event: None }
                }
            },
            Event::SettlementConfirmResponse => {
                if self.phase == Phase::ConfirmingSettlement {
                    let rid = self.get_request_id();
                    self.phase = Phase::QueryingAccount;
                    StepOutcome {
                        request: Some(
                            OutboundRequest {
                                request_id: rid,
                                request: Request::QueryTradingAccount {
                                    broker_id: self.descriptor.broker_id.clone(),
                                    investor_id: self.descriptor.account.clone(),
                                },
                            },
                        ),
                        domain_event: None,
                    }
                } else {
                    StepOutcome { request: None, domain_event: None }
                }
            },
            Event::TradingAccountResponse { record, is_last } => {
                if let Some(r) = record {
                    self.account_info = Some(r);
                }
                if self.phase == Phase::QueryingAccount && is_last {
                    let rid = self.get_request_id();
                    self.phase = Phase::QueryingPositionDetail;
                    StepOutcome {
                        request: Some(
                            OutboundRequest {
                                request_id: rid,
                                request: Request::QueryPositionDetail {
                                    broker_id: self.descriptor.broker_id.clone(),
                                    investor_id: self.descriptor.account.clone(),
                                },
                            },
                        ),
                        domain_event: None,
                    }
                } else {
                    StepOutcome { request: None, domain_event: None }
                }
            },
            Event::PositionDetailResponse { is_last } => {
                if self.phase == Phase::QueryingPositionDetail && is_last {
                    let rid = self.get_request_id();
                    self.phase = Phase::QueryingPosition;
                    StepOutcome {
                        request: Some(
                            OutboundRequest {
                                request_id: rid,
                                request: Request::QueryPosition {
                                    broker_id: self.descriptor.broker_id.clone(),
                                    investor_id: self.descriptor.account.clone(),
                                },
                            },
                        ),
                        domain_event: None,
                    }
                } else {
                    StepOutcome { request: None, domain_event: None }
                }
            },
            Event::PositionResponse { is_last } => {
                if self.phase == Phase::QueryingPosition && is_last {
                    let rid = self.get_request_id();
                    self.phase = Phase::QueryingInstrument;
                    StepOutcome {
                        request: Some(
                            OutboundRequest { request_id: rid, request: Request::QueryInstrument },
                        ),
                        domain_event: None,
                    }
                } else {
                    StepOutcome { request: None, domain_event: None }
                }
            },
            Event::InstrumentResponse { is_last } => {
                if self.phase == Phase::QueryingInstrument && is_last {
                    let rid = self.get_request_id();
                    self.phase = Phase::QueryingMarketData;
                    StepOutcome {
                        request: Some(
                            OutboundRequest { request_id: rid, request: Request::QueryMarketData },
                        ),
                        domain_event: None,
                    }
                } else {
                    StepOutcome { request: None, domain_event: None }
                }
            },
            Event::MarketDataResponse { is_last } => {
                if self.phase == Phase::QueryingMarketData && is_last {
                    let rid = self.get_request_id();
                    self.phase = Phase::QueryingOrders;
                    StepOutcome {
                        request: Some(
                            OutboundRequest {
                                request_id: rid,
                                request: Request::QueryOrders {
                                    broker_id: self.descriptor.broker_id.clone(),
                                    investor_id: self.descriptor.account.clone(),
                                },
                            },
                        ),
                        domain_event: None,
                    }
                } else {
                    StepOutcome { request: None, domain_event: None }
                }
            },
            Event::OrderResponse { record, is_last } => {
                let mut domain_event: Option<DomainEvent> = None;
                if let Some(r) = record {
                    if self.phase == Phase::Ready {
                        domain_event = Some(DomainEvent::OrderChanged(r.duplicate()));
                    }
                    self.apply_order(r);
                }
                if self.phase == Phase::QueryingOrders && is_last {
                    let rid = self.get_request_id();
                    self.phase = Phase::QueryingTrades;
                    StepOutcome {
                        request: Some(
                            OutboundRequest {
                                request_id: rid,
                                request: Request::QueryTrades {
                                    broker_id: self.descriptor.broker_id.clone(),
                                    investor_id: self.descriptor.account.clone(),
                                },
                            },
                        ),
                        domain_event,
                    }
                } else {
                    StepOutcome { request: None, domain_event }
                }
            },
            Event::TradeResponse { is_last } => {
                if self.phase == Phase::QueryingTrades && is_last {
                    self.phase = Phase::Ready;
                }
                StepOutcome { request: None, domain_event: None }
            },
        }
    }

    /// A one-word account of where the session stands, for status listings.
    pub fn status(&self) -> (r: &'static str)
        ensures
            r@ == status_text(self.phase),
    {
        match self.phase {
            Phase::Connecting => "connecting",
            Phase::Authenticating => "authenticating",
            Phase::LoggingIn => "logging in",
            Phase::ConfirmingSettlement => "confirming settlement",
            Phase::QueryingAccount => "querying account",
            Phase::QueryingPositionDetail => "querying position detail",
            Phase::QueryingPosition => "querying position",
            Phase::QueryingInstrument => "querying instrument",
            Phase::QueryingMarketData => "querying market data",
            Phase::QueryingOrders => "querying orders",
            Phase::QueryingTrades => "querying trades",
            Phase::Ready => "ready",
            Phase::Fatal => "fatal",
            Phase::Exited => "exited",
        }
    }

    /// A sentence describing where the session stands.
    pub fn status_description(&self) -> (r: &'static str)
        ensures
            r@ == status_description_text(self.phase),
    {
        match self.phase {
            Phase::Connecting => "waiting for the trade front to connect",
            Phase::Authenticating => "waiting for the authenticate response",
            Phase::LoggingIn => "waiting for the login response",
            Phase::ConfirmingSettlement => "waiting for the settlement confirmation",
            Phase::QueryingAccount => "querying the trading account",
            Phase::QueryingPositionDetail => "querying position details",
            Phase::QueryingPosition => "querying positions",
            Phase::QueryingInstrument => "querying instruments",
            Phase::QueryingMarketData => "querying market data",
            Phase::QueryingOrders => "querying orders",
            Phase::QueryingTrades => "querying trades",
            Phase::Ready => "ready: steady state reached",
            Phase::Fatal => "authentication rejected by the venue",
            Phase::Exited => "exited",
        }
    }
}

/// The status word for each phase.
pub open spec fn status_text(p: Phase) -> Seq<char> {
    match p {
        Phase::Connecting => "connecting"@,
        Phase::Authenticating => "authenticating"@,
        Phase::LoggingIn => "logging in"@,
        Phase::ConfirmingSettlement => "confirming settlement"@,
        Phase::QueryingAccount => "querying account"@,
        Phase::QueryingPositionDetail => "querying position detail"@,
        Phase::QueryingPosition => "querying position"@,
        Phase::QueryingInstrument => "querying instrument"@,
        Phase::QueryingMarketData => "querying market data"@,
        Phase::QueryingOrders => "querying orders"@,
        Phase::QueryingTrades => "querying trades"@,
        Phase::Ready => "ready"@,
        Phase::Fatal => "fatal"@,
        Phase::Exited => "exited"@,
    }
}

/// The status sentence for each phase.
pub open spec fn status_description_text(p: Phase) -> Seq<char> {
    match p {
        Phase::Connecting => "waiting for the trade front to connect"@,
        Phase::Authenticating => "waiting for the authenticate response"@,
        Phase::LoggingIn => "waiting for the login response"@,
        Phase::ConfirmingSettlement => "waiting for the settlement confirmation"@,
        Phase::QueryingAccount => "querying the trading account"@,
        Phase::QueryingPositionDetail => "querying position details"@,
        Phase::QueryingPosition => "querying positions"@,
        Phase::QueryingInstrument => "querying instruments"@,
        Phase::QueryingMarketData => "querying market data"@,
        Phase::QueryingOrders => "querying orders"@,
        Phase::QueryingTrades => "querying trades"@,
        Phase::Ready => "ready: steady state reached"@,
        Phase::Fatal => "authentication rejected by the venue"@,
        Phase::Exited => "exited"@,
    }
}

/// Stepping preserves session well-formedness, and the descriptor and key
/// never change for the session's lifetime.
pub proof fn lemma_step_preserves_wf(s: SessionV, e: EventV)
    requires
        s.wf(),
    ensures
        step_state(s, e).wf(),
        step_state(s, e).descriptor == s.descriptor,
        step_state(s, e).request_id >= s.request_id,
{
    let s2 = step_state(s, e);
    match e {
        EventV::OrderResponse { record, is_last } => {
            match record {
                Some(o) => {
                    lemma_upsert_keys_unique(s.orders, o);
                },
                None => {},
            }
        },
        _ => {},
    }
}

} // verus!
