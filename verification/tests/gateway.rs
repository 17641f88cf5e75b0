use gateway_sessions::account::AccountDescriptor;
use gateway_sessions::account::AccountError;
use gateway_sessions::account::AccountSet;
use gateway_sessions::registry::Registry;
use gateway_sessions::session::DomainEvent;
use gateway_sessions::session::Event;
use gateway_sessions::session::OrderSnapshot;
use gateway_sessions::session::Phase;
use gateway_sessions::session::Request;
use gateway_sessions::session::Session;

fn descriptor(broker: &str, account: &str, front: &str) -> AccountDescriptor {
    AccountDescriptor {
        broker_id: broker.to_string(),
        account: account.to_string(),
        trade_front: front.to_string(),
        fens_trade_front: String::new(),
        auth_code: "0000000000000000".to_string(),
        user_product_info: "client".to_string(),
        app_id: "client_app".to_string(),
        password: "SECRET-REDACTED".to_string(),
    }
}

fn order(key: &str, instrument: &str, volume: u32, price: i64) -> OrderSnapshot {
    OrderSnapshot {
        key: key.to_string(),
        instrument: instrument.to_string(),
        volume,
        price,
    }
}

/// Drive a fresh session through the whole pipeline to `Ready`.
fn run_pipeline(session: &mut Session) -> Vec<Request> {
    let events = vec![
        Event::FrontConnected,
        Event::AuthenticateResponse { error_id: 0 },
        Event::LoginResponse { error_id: 0 },
        Event::SettlementConfirmResponse,
        Event::TradingAccountResponse { record: None, is_last: true },
        Event::PositionDetailResponse { is_last: true },
        Event::PositionResponse { is_last: true },
        Event::InstrumentResponse { is_last: true },
        Event::MarketDataResponse { is_last: true },
        Event::OrderResponse { record: None, is_last: true },
        Event::TradeResponse { is_last: true },
    ];
    let mut requests = Vec::new();
    for e in events {
        let out = session.step(e);
        if let Some(r) = out.request {
            requests.push(r.request);
        }
    }
    requests
}

#[test]
fn fresh_session_starts_connecting_with_seed_counter() {
    let s = Session::new(descriptor("9999", "1001", "tcp://A"));
    assert_eq!(s.phase, Phase::Connecting);
    assert_eq!(s.request_id, 10);
    assert!(s.orders.is_empty());
}

#[test]
fn single_account_scenario_issues_authenticate_then_login() {
    // One descriptor submitted alone: a session is created in Connecting; a
    // connected event issues authenticate under correlation id 11 (seed 10
    // plus one); an accepted authenticate response issues login under id 12.
    let mut registry = Registry::new();
    let desired = vec![descriptor("9999", "1001", "tcp://A")];
    let report = registry.reconcile(&desired);
    assert_eq!(report.created.len(), 1);
    assert_eq!(registry.sessions.len(), 1);
    assert_eq!(registry.sessions[0].phase, Phase::Connecting);

    let broker = "9999".to_string();
    let account = "1001".to_string();
    let out = registry
        .handle_event(&broker, &account, Event::FrontConnected)
        .expect("session should exist");
    let auth = out.request.expect("authenticate should be issued");
    assert_eq!(auth.request_id, 11);
    match auth.request {
        Request::Authenticate { broker_id, user_id, .. } => {
            assert_eq!(broker_id, "9999");
            assert_eq!(user_id, "1001");
        }
        other => panic!("expected an authenticate request, got {:?}", kind_name(&other)),
    }
    assert_eq!(registry.sessions[0].phase, Phase::Authenticating);

    let out = registry
        .handle_event(&broker, &account, Event::AuthenticateResponse { error_id: 0 })
        .expect("session should exist");
    let login = out.request.expect("login should be issued");
    assert_eq!(login.request_id, 12);
    match login.request {
        Request::Login { broker_id, user_id, .. } => {
            assert_eq!(broker_id, "9999");
            assert_eq!(user_id, "1001");
        }
        other => panic!("expected a login request, got {:?}", kind_name(&other)),
    }
    assert_eq!(registry.sessions[0].phase, Phase::LoggingIn);
}

fn kind_name(r: &Request) -> &'static str {
    match r {
        Request::Authenticate { .. } => "authenticate",
        Request::Login { .. } => "login",
        Request::SettlementInfoConfirm { .. } => "settlement info confirm",
        Request::QueryTradingAccount { .. } => "query trading account",
        Request::QueryPositionDetail { .. } => "query position detail",
        Request::QueryPosition { .. } => "query position",
        Request::QueryInstrument => "query instrument",
        Request::QueryMarketData => "query market data",
        Request::QueryOrders { .. } => "query orders",
        Request::QueryTrades { .. } => "query trades",
    }
}

#[test]
fn pipeline_reaches_ready_after_ten_requests_in_order() {
    let mut s = Session::new(descriptor("9999", "1001", "tcp://A"));
    let requests = run_pipeline(&mut s);
    assert_eq!(s.phase, Phase::Ready);
    assert_eq!(requests.len(), 10);
    let kinds: Vec<&'static str> = requests.iter().map(kind_name).collect();
    assert_eq!(
        kinds,
        vec![
            "authenticate",
            "login",
            "settlement info confirm",
            "query trading account",
            "query position detail",
            "query position",
            "query instrument",
            "query market data",
            "query orders",
            "query trades",
        ]
    );
    // correlation ids are strictly increasing, fresh from the seed
    assert_eq!(s.request_id, 20);
}

#[test]
fn pipeline_correlation_ids_strictly_increase() {
    let mut s = Session::new(descriptor("9999", "1001", "tcp://A"));
    let events = vec![
        Event::FrontConnected,
        Event::AuthenticateResponse { error_id: 0 },
        Event::LoginResponse { error_id: 0 },
        Event::SettlementConfirmResponse,
        Event::TradingAccountResponse { record: None, is_last: true },
        Event::PositionDetailResponse { is_last: true },
        Event::PositionResponse { is_last: true },
        Event::InstrumentResponse { is_last: true },
        Event::MarketDataResponse { is_last: true },
        Event::OrderResponse { record: None, is_last: true },
        Event::TradeResponse { is_last: true },
    ];
    let mut ids = Vec::new();
    for e in events {
        if let Some(r) = s.step(e).request {
            ids.push(r.request_id);
        }
    }
    assert_eq!(ids, vec![11, 12, 13, 14, 15, 16, 17, 18, 19, 20]);
}

#[test]
fn batched_order_records_accumulate_with_one_transition() {
    // Three non-last records followed by one last record: all four records
    // land in the snapshot, and exactly one phase transition happens.
    let mut s = Session::new(descriptor("9999", "1001", "tcp://A"));
    s.step(Event::FrontConnected);
    s.step(Event::AuthenticateResponse { error_id: 0 });
    s.step(Event::LoginResponse { error_id: 0 });
    s.step(Event::SettlementConfirmResponse);
    s.step(Event::TradingAccountResponse { record: None, is_last: true });
    s.step(Event::PositionDetailResponse { is_last: true });
    s.step(Event::PositionResponse { is_last: true });
    s.step(Event::InstrumentResponse { is_last: true });
    s.step(Event::MarketDataResponse { is_last: true });
    assert_eq!(s.phase, Phase::QueryingOrders);

    let records = [
        order("o1", "au2512", 1, 80000),
        order("o2", "au2512", 2, 80010),
        order("o3", "rb2601", 3, 3500),
    ];
    let mut transitions = 0;
    for r in records {
        let before = s.phase;
        let out = s.step(Event::OrderResponse { record: Some(r), is_last: false });
        assert!(out.request.is_none());
        if s.phase != before {
            transitions += 1;
        }
    }
    let before = s.phase;
    let out = s.step(Event::OrderResponse {
        record: Some(order("o4", "rb2601", 4, 3501)),
        is_last: true,
    });
    if s.phase != before {
        transitions += 1;
    }
    assert_eq!(transitions, 1);
    assert_eq!(s.phase, Phase::QueryingTrades);
    assert_eq!(s.orders.len(), 4);
    assert!(out.request.is_some());
}

#[test]
fn order_updates_are_newest_wins() {
    let mut s = Session::new(descriptor("9999", "1001", "tcp://A"));
    s.step(Event::OrderResponse { record: Some(order("o1", "au2512", 1, 80000)), is_last: false });
    s.step(Event::OrderResponse { record: Some(order("o1", "au2512", 5, 80002)), is_last: false });
    assert_eq!(s.orders.len(), 1);
    assert_eq!(s.orders[0].volume, 5);
    assert_eq!(s.orders[0].price, 80002);
}

#[test]
fn ready_session_publishes_order_domain_events() {
    let mut s = Session::new(descriptor("9999", "1001", "tcp://A"));
    run_pipeline(&mut s);
    assert_eq!(s.phase, Phase::Ready);
    let out = s.step(Event::OrderResponse {
        record: Some(order("o9", "au2512", 7, 80020)),
        is_last: true,
    });
    assert!(out.request.is_none());
    match out.domain_event {
        Some(DomainEvent::OrderChanged(o)) => {
            assert_eq!(o.key, "o9");
            assert_eq!(o.volume, 7);
        }
        None => panic!("a steady-state order record should publish a domain event"),
    }
    assert_eq!(s.orders.len(), 1);
}

#[test]
fn authentication_rejection_is_fatal_for_that_session_only() {
    let mut registry = Registry::new();
    let desired = vec![
        descriptor("9999", "1001", "tcp://A"),
        descriptor("9999", "1002", "tcp://A"),
    ];
    registry.reconcile(&desired);
    let broker = "9999".to_string();
    let first = "1001".to_string();
    registry.handle_event(&broker, &first, Event::FrontConnected);
    let out = registry
        .handle_event(&broker, &first, Event::AuthenticateResponse { error_id: 3 })
        .expect("session should exist");
    assert!(out.request.is_none());
    assert_eq!(registry.sessions[0].phase, Phase::Fatal);
    // the sibling session is untouched
    assert_eq!(registry.sessions[1].phase, Phase::Connecting);
    // a fatal session ignores further events
    let out = registry
        .handle_event(&broker, &first, Event::FrontConnected)
        .expect("session should exist");
    assert!(out.request.is_none());
    assert_eq!(registry.sessions[0].phase, Phase::Fatal);
}

#[test]
fn disconnect_exits_the_session() {
    let mut s = Session::new(descriptor("9999", "1001", "tcp://A"));
    s.step(Event::FrontConnected);
    let out = s.step(Event::FrontDisconnected);
    assert!(out.request.is_none());
    assert_eq!(s.phase, Phase::Exited);
    let out = s.step(Event::FrontConnected);
    assert!(out.request.is_none());
    assert_eq!(s.phase, Phase::Exited);
}

#[test]
fn mismatched_events_are_ignored() {
    let mut s = Session::new(descriptor("9999", "1001", "tcp://A"));
    let out = s.step(Event::LoginResponse { error_id: 0 });
    assert!(out.request.is_none());
    assert_eq!(s.phase, Phase::Connecting);
    assert_eq!(s.request_id, 10);
}

#[test]
fn non_last_batch_records_do_not_advance_the_pipeline() {
    let mut s = Session::new(descriptor("9999", "1001", "tcp://A"));
    s.step(Event::FrontConnected);
    s.step(Event::AuthenticateResponse { error_id: 0 });
    s.step(Event::LoginResponse { error_id: 0 });
    s.step(Event::SettlementConfirmResponse);
    assert_eq!(s.phase, Phase::QueryingAccount);
    let out = s.step(Event::TradingAccountResponse { record: None, is_last: false });
    assert!(out.request.is_none());
    assert_eq!(s.phase, Phase::QueryingAccount);
    let out = s.step(Event::TradingAccountResponse { record: None, is_last: true });
    assert!(out.request.is_some());
    assert_eq!(s.phase, Phase::QueryingPositionDetail);
}

#[test]
fn reconcile_is_idempotent_on_an_unchanged_set() {
    let mut registry = Registry::new();
    let desired = vec![
        descriptor("9999", "1001", "tcp://A"),
        descriptor("8888", "2002", "tcp://B"),
    ];
    registry.reconcile(&desired);
    // advance one session so the second pass has state to preserve
    let broker = "9999".to_string();
    let account = "1001".to_string();
    registry.handle_event(&broker, &account, Event::FrontConnected);
    let phases: Vec<Phase> = registry.sessions.iter().map(|s| s.phase).collect();
    let counters: Vec<i32> = registry.sessions.iter().map(|s| s.request_id).collect();

    let report = registry.reconcile(&desired);
    assert_eq!(report.created.len(), 0);
    assert_eq!(report.removed.len(), 0);
    assert_eq!(report.invalid, 0);
    assert_eq!(registry.sessions.len(), 2);
    let phases2: Vec<Phase> = registry.sessions.iter().map(|s| s.phase).collect();
    let counters2: Vec<i32> = registry.sessions.iter().map(|s| s.request_id).collect();
    assert_eq!(phases, phases2);
    assert_eq!(counters, counters2);
}

#[test]
fn adding_one_account_creates_exactly_one_connecting_session() {
    let mut registry = Registry::new();
    let mut desired = vec![descriptor("9999", "1001", "tcp://A")];
    registry.reconcile(&desired);
    registry.handle_event(&"9999".to_string(), &"1001".to_string(), Event::FrontConnected);

    desired.push(descriptor("8888", "2002", "tcp://B"));
    let report = registry.reconcile(&desired);
    assert_eq!(report.created.len(), 1);
    assert_eq!(report.created[0].broker_id, "8888");
    assert_eq!(report.created[0].account, "2002");
    assert_eq!(report.removed.len(), 0);
    assert_eq!(registry.sessions.len(), 2);
    assert_eq!(registry.sessions[1].phase, Phase::Connecting);
    // the pre-existing session is untouched
    assert_eq!(registry.sessions[0].phase, Phase::Authenticating);
}

#[test]
fn removing_one_account_tears_down_exactly_that_session() {
    let mut registry = Registry::new();
    let desired = vec![
        descriptor("9999", "1001", "tcp://A"),
        descriptor("8888", "2002", "tcp://B"),
    ];
    registry.reconcile(&desired);
    assert_eq!(registry.sessions.len(), 2);

    let desired2 = vec![descriptor("9999", "1001", "tcp://A")];
    let report = registry.reconcile(&desired2);
    assert_eq!(report.created.len(), 0);
    assert_eq!(report.removed.len(), 1);
    assert_eq!(report.removed[0].broker_id, "8888");
    assert_eq!(report.removed[0].account, "2002");
    assert_eq!(registry.sessions.len(), 1);
    assert_eq!(registry.sessions[0].descriptor.broker_id, "9999");
}

#[test]
fn invalid_descriptor_creates_nothing_and_is_counted() {
    let mut registry = Registry::new();
    let accounts = AccountSet::new();
    let rows_before = registry.list_accounts(&accounts.accounts);

    let desired = vec![descriptor("", "1001", "tcp://A")];
    let report = registry.reconcile(&desired);
    assert_eq!(report.created.len(), 0);
    assert_eq!(report.invalid, 1);
    assert_eq!(registry.sessions.len(), 0);

    let rows_after = registry.list_accounts(&accounts.accounts);
    assert_eq!(rows_before.len(), rows_after.len());
}

#[test]
fn descriptor_without_front_address_is_invalid() {
    let d = AccountDescriptor {
        broker_id: "9999".to_string(),
        account: "1001".to_string(),
        trade_front: String::new(),
        fens_trade_front: String::new(),
        auth_code: String::new(),
        user_product_info: String::new(),
        app_id: String::new(),
        password: String::new(),
    };
    assert!(!d.is_valid());
    let mut registry = Registry::new();
    let report = registry.reconcile(&vec![d]);
    assert_eq!(report.invalid, 1);
    assert_eq!(registry.sessions.len(), 0);
}

#[test]
fn fens_front_alone_makes_a_descriptor_valid() {
    let mut d = descriptor("9999", "1001", "");
    assert!(!d.is_valid());
    d.fens_trade_front = "tcp://fens".to_string();
    assert!(d.is_valid());
}

#[test]
fn duplicate_account_add_is_rejected_and_session_count_unchanged() {
    let mut accounts = AccountSet::new();
    let mut registry = Registry::new();

    let r1 = accounts.add_account(descriptor("9999", "1001", "tcp://A"));
    assert!(r1.is_ok());
    registry.reconcile(&accounts.accounts);
    assert_eq!(registry.sessions.len(), 1);

    let r2 = accounts.add_account(descriptor("9999", "1001", "tcp://A"));
    assert_eq!(r2, Err(AccountError::AlreadyExists));
    assert_eq!(r2.unwrap_err().message(), "the account already exists");
    registry.reconcile(&accounts.accounts);
    assert_eq!(registry.sessions.len(), 1);
}

#[test]
fn add_account_rejects_missing_required_fields() {
    let mut accounts = AccountSet::new();
    let r = accounts.add_account(descriptor("9999", "", "tcp://A"));
    assert_eq!(r, Err(AccountError::EmptyAccount));
    assert_eq!(r.unwrap_err().message(), "the account id must not be empty");
    let r = accounts.add_account(descriptor("", "1001", "tcp://A"));
    assert_eq!(r, Err(AccountError::EmptyBroker));
    assert_eq!(r.unwrap_err().message(), "the broker id must not be empty");
    assert_eq!(accounts.accounts.len(), 0);
}

#[test]
fn delete_account_removes_the_key() {
    let mut accounts = AccountSet::new();
    accounts.add_account(descriptor("9999", "1001", "tcp://A")).unwrap();
    accounts.add_account(descriptor("8888", "2002", "tcp://B")).unwrap();
    accounts.delete_account(&"9999".to_string(), &"1001".to_string());
    assert_eq!(accounts.accounts.len(), 1);
    assert_eq!(accounts.accounts[0].broker_id, "8888");
}

#[test]
fn list_accounts_reports_status_per_session() {
    let mut accounts = AccountSet::new();
    accounts.add_account(descriptor("9999", "1001", "tcp://A")).unwrap();
    accounts.add_account(descriptor("8888", "2002", "tcp://B")).unwrap();
    let mut registry = Registry::new();
    // only the first account gets a session
    let desired = vec![descriptor("9999", "1001", "tcp://A")];
    registry.reconcile(&desired);
    registry.handle_event(&"9999".to_string(), &"1001".to_string(), Event::FrontConnected);

    let rows = registry.list_accounts(&accounts.accounts);
    assert_eq!(rows.len(), 2);
    assert_eq!(rows[0].broker_id, "9999");
    assert_eq!(rows[0].status, "authenticating");
    assert_eq!(rows[0].status_description, "waiting for the authenticate response");
    assert_eq!(rows[1].broker_id, "8888");
    assert_eq!(rows[1].status, "");
    assert_eq!(rows[1].status_description, "");
}

#[test]
fn status_words_follow_the_phase() {
    let mut s = Session::new(descriptor("9999", "1001", "tcp://A"));
    assert_eq!(s.status(), "connecting");
    assert_eq!(s.status_description(), "waiting for the trade front to connect");
    run_pipeline(&mut s);
    assert_eq!(s.status(), "ready");
    assert_eq!(s.status_description(), "ready: steady state reached");
}

#[test]
fn list_orders_aggregates_across_sessions() {
    let mut registry = Registry::new();
    let desired = vec![
        descriptor("9999", "1001", "tcp://A"),
        descriptor("8888", "2002", "tcp://B"),
    ];
    registry.reconcile(&desired);
    registry.handle_event(
        &"9999".to_string(),
        &"1001".to_string(),
        Event::OrderResponse { record: Some(order("a1", "au2512", 1, 80000)), is_last: false },
    );
    registry.handle_event(
        &"8888".to_string(),
        &"2002".to_string(),
        Event::OrderResponse { record: Some(order("b1", "rb2601", 2, 3500)), is_last: false },
    );
    let all = registry.list_orders();
    assert_eq!(all.len(), 2);
    assert_eq!(all[0].key, "a1");
    assert_eq!(all[1].key, "b1");
}

#[test]
fn get_order_finds_by_session_and_key() {
    let mut registry = Registry::new();
    let desired = vec![descriptor("9999", "1001", "tcp://A")];
    registry.reconcile(&desired);
    registry.handle_event(
        &"9999".to_string(),
        &"1001".to_string(),
        Event::OrderResponse { record: Some(order("a1", "au2512", 1, 80000)), is_last: false },
    );
    let broker = "9999".to_string();
    let account = "1001".to_string();
    let hit = registry.get_order(&broker, &account, &"a1".to_string());
    assert!(hit.is_some());
    assert_eq!(hit.unwrap().instrument, "au2512");
    assert!(registry.get_order(&broker, &account, &"zz".to_string()).is_none());
    assert!(registry.get_order(&"7777".to_string(), &account, &"a1".to_string()).is_none());
}

#[test]
fn handle_event_for_unknown_key_returns_nothing() {
    let mut registry = Registry::new();
    let out = registry.handle_event(&"9999".to_string(), &"1001".to_string(), Event::FrontConnected);
    assert!(out.is_none());
}

#[test]
fn duplicate_desired_keys_create_a_single_session() {
    let mut registry = Registry::new();
    let desired = vec![
        descriptor("9999", "1001", "tcp://A"),
        descriptor("9999", "1001", "tcp://B"),
    ];
    let report = registry.reconcile(&desired);
    assert_eq!(report.created.len(), 1);
    assert_eq!(registry.sessions.len(), 1);
    assert_eq!(registry.sessions[0].descriptor.trade_front, "tcp://A");
}

#[test]
fn trading_account_record_is_kept_newest_wins() {
    let mut s = Session::new(descriptor("9999", "1001", "tcp://A"));
    s.step(Event::TradingAccountResponse {
        record: Some(gateway_sessions::session::AccountRecord {
            account_id: "1001".to_string(),
            trading_day: "20260108".to_string(),
        }),
        is_last: false,
    });
    s.step(Event::TradingAccountResponse {
        record: Some(gateway_sessions::session::AccountRecord {
            account_id: "1001".to_string(),
            trading_day: "20260109".to_string(),
        }),
        is_last: false,
    });
    let info = s.account_info.expect("the record should be kept");
    assert_eq!(info.trading_day, "20260109");
}
