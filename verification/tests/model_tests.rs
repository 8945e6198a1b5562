use obkv::connection::{ConnState, Connection};
use obkv::error::{Error, ResultCodes, UsageKind};
use obkv::operation::{
    ObTableBatchOperationResult, ObTableOperationResult, ObTableOperationType, TableOpResult,
};
use obkv::proxy::Proxy;
use obkv::route::{LookupOutcome, RouteCache};
use obkv::table::Builder;
use obkv::row::Row;
use obkv::value::Value;

#[test]
fn value_round_trips_by_tag_and_content() {
    let v = Value::from(42i64);
    assert_eq!(Value::from(v.as_i64().unwrap()), v);
    let v = Value::from("abc".to_string());
    assert_eq!(Value::from(v.as_string().unwrap()), v);
    let v = Value::from(vec![1u8, 2, 3]);
    assert_eq!(Value::from(v.as_bytes().unwrap()), v);
    let v = Value::double_from_bits(0x4045000000000000);
    assert_eq!(Value::double_from_bits(v.as_double_bits().unwrap()), v);
    let v = Value::timestamp(1700000000000);
    assert_eq!(Value::timestamp(v.as_timestamp().unwrap()), v);
    assert!(Value::null().is_null());
}

#[test]
fn value_accessors_refuse_other_tags() {
    let v = Value::from(1i64);
    assert!(v.as_string().is_err());
    assert!(v.as_bytes().is_err());
    assert!(v.is_i64());
    assert!(!v.is_string());
    let v = Value::from_str_value("x");
    assert!(v.as_i64().is_err());
    assert!(v.is_string());
}

#[test]
fn row_preserves_insertion_order_and_removes() {
    let mut row = Row::new();
    row.insert("b", Value::from(1i64));
    row.insert("a", Value::from(2i64));
    row.insert("b", Value::from(3i64));
    assert_eq!(row.len(), 2);
    assert_eq!(row.name_at(0), "b".to_string());
    assert_eq!(row.name_at(1), "a".to_string());
    assert_eq!(row.get("b").unwrap().as_i64().unwrap(), 3);
    let removed = row.remove("b").unwrap();
    assert_eq!(removed.as_i64().unwrap(), 3);
    assert_eq!(row.len(), 1);
    assert!(row.get("b").is_none());
    assert!(row.remove("missing").is_none());
}

#[test]
fn result_codes_map_errnos_both_ways() {
    assert!(matches!(ResultCodes::from_i32(0), ResultCodes::ObSuccess));
    assert!(matches!(ResultCodes::from_i32(-5024), ResultCodes::ObErrPrimaryKeyDuplicate));
    assert!(matches!(ResultCodes::from_i32(-4038), ResultCodes::ObNotMaster));
    assert!(matches!(ResultCodes::from_i32(-9999), ResultCodes::Other(-9999)));
    assert_eq!(ResultCodes::from_i32(-4029).errno(), -4029);
}

#[test]
fn retriable_codes_are_the_stale_route_family() {
    assert!(ResultCodes::ObNotMaster.is_retriable());
    assert!(ResultCodes::ObSchemaError.is_retriable());
    assert!(!ResultCodes::ObErrPrimaryKeyDuplicate.is_retriable());
    assert!(Error::Timeout.is_retriable());
    assert!(Error::NotConnected.is_retriable());
    assert!(!Error::Auth("no".to_string()).is_retriable());
    assert!(Error::Server(ResultCodes::ObNotMaster, String::new()).invalidates_route());
    assert!(!Error::Timeout.invalidates_route());
}

#[test]
fn connection_allocates_fresh_ids_and_settles_them() {
    let mut c = Connection::new(8);
    assert!(matches!(c.state(), ConnState::Disconnected));
    // A send on a disconnected channel fails at once.
    assert!(matches!(c.begin_send(), Err(Error::NotConnected)));
    c.begin_connect();
    assert!(matches!(c.state(), ConnState::Handshaking));
    c.login_ok();
    assert!(matches!(c.state(), ConnState::Ready));
    let a = c.begin_send().unwrap();
    let b = c.begin_send().unwrap();
    assert_ne!(a, b);
    assert!(b > a);
    assert!(c.settle(a));
    // A duplicate or unknown id settles nothing.
    assert!(!c.settle(a));
    assert!(c.settle(b));
    c.on_fatal();
    assert!(matches!(c.state(), ConnState::Disconnected));
    assert!(matches!(c.begin_send(), Err(Error::NotConnected)));
}

#[test]
fn connection_congestion_at_high_water_mark() {
    let mut c = Connection::new(1);
    c.begin_connect();
    c.login_ok();
    let _ = c.begin_send().unwrap();
    assert!(matches!(c.begin_send(), Err(Error::Congestion)));
}

#[test]
fn route_cache_coalesces_concurrent_misses() {
    let mut r = RouteCache::new();
    // First miss owns the refresh; the next one awaits it.
    assert!(matches!(r.lookup(7, 0), LookupOutcome::StartRefresh));
    assert!(matches!(r.lookup(7, 0), LookupOutcome::MustAwait));
    // A different partition starts its own refresh.
    assert!(matches!(r.lookup(8, 0), LookupOutcome::StartRefresh));
    r.install(7, 0, 1, 1000);
    assert!(matches!(r.lookup(7, 10), LookupOutcome::Hit(0)));
    // Expired lazily: the next lookup misses again.
    assert!(matches!(r.lookup(7, 1000), LookupOutcome::StartRefresh));
}

#[test]
fn route_cache_version_never_goes_backwards() {
    let mut r = RouteCache::new();
    assert!(matches!(r.lookup(3, 0), LookupOutcome::StartRefresh));
    r.install(3, 1, 5, 1000);
    assert!(matches!(r.lookup(3, 0), LookupOutcome::Hit(1)));
    // An older refresh result cannot displace the newer route.
    r.install(3, 0, 4, 1000);
    assert!(matches!(r.lookup(3, 0), LookupOutcome::Hit(1)));
    r.install(3, 0, 6, 1000);
    assert!(matches!(r.lookup(3, 0), LookupOutcome::Hit(0)));
}

#[test]
fn batch_response_translates_in_order() {
    let mut resp = ObTableBatchOperationResult::new();
    let mut entity = Row::new();
    entity.insert("c2", Value::from("v".to_string()));
    resp.push(ObTableOperationResult::new(0, String::new(), ObTableOperationType::Get, entity, 0));
    resp.push(ObTableOperationResult::new(
        0,
        String::new(),
        ObTableOperationType::Insert,
        Row::new(),
        1,
    ));
    let out = resp.into_results().unwrap();
    assert_eq!(out.len(), 2);
    assert!(matches!(&out[0], TableOpResult::RetrieveRows(_)));
    assert!(matches!(out[1], TableOpResult::AffectedRows(1)));
}

#[test]
fn batch_response_surfaces_first_failure() {
    let mut resp = ObTableBatchOperationResult::new();
    resp.push(ObTableOperationResult::new(
        0,
        String::new(),
        ObTableOperationType::Insert,
        Row::new(),
        1,
    ));
    resp.push(ObTableOperationResult::new(
        -5024,
        "duplicate".to_string(),
        ObTableOperationType::Insert,
        Row::new(),
        0,
    ));
    let err = resp.into_results().unwrap_err();
    match err {
        Error::Server(code, msg) => {
            assert!(matches!(code, ResultCodes::ObErrPrimaryKeyDuplicate));
            assert_eq!(msg, "duplicate".to_string());
        }
        other => panic!("expected a server exception, got {other:?}"),
    }
}

#[test]
fn table_handle_reports_addr_and_timeout() {
    let mut proxy = Proxy::new(1, 16);
    proxy.connect_all();
    let t = Builder::new("10.0.0.7", 2881)
        .config(&obkv::ClientConfig::new())
        .tenant_name("sys")
        .user_name("root")
        .password("pwd")
        .database("test")
        .rpc_proxy(proxy)
        .build()
        .unwrap();
    assert_eq!(t.addr(), "10.0.0.7:2881".to_string());
    assert_eq!(t.operation_timeout(), 10000);
}

#[test]
fn build_without_proxy_reports_the_missing_field() {
    let err = match Builder::new("h", 80).tenant_name("sys").build() {
        Err(e) => e,
        Ok(_) => panic!("a proxyless builder must not finish"),
    };
    assert!(matches!(err, Error::Usage(UsageKind::MissingField)));
}

#[test]
fn backoff_doubles_and_caps() {
    assert_eq!(obkv::proxy::backoff_ms(0), 100);
    assert_eq!(obkv::proxy::backoff_ms(1), 200);
    assert_eq!(obkv::proxy::backoff_ms(6), 6400);
    assert_eq!(obkv::proxy::backoff_ms(7), 10000);
    assert_eq!(obkv::proxy::backoff_ms(100), 10000);
}

#[test]
fn deadline_expiry_reports_timeout_and_discards_late_response() {
    let mut c = Connection::new(8);
    c.begin_connect();
    c.login_ok();
    let id = c.begin_send().unwrap();
    let err = c.expire(id).unwrap();
    assert!(matches!(err, Error::Timeout));
    // A response arriving after the deadline finds no waiter.
    assert!(!c.settle(id));
    // Expiring a settled slot reports nothing: the response won the race.
    assert!(c.expire(id).is_none());
}
