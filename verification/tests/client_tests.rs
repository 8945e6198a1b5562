use obkv::client::{Client, PartitionStrategy};
use obkv::operation::{ObTableBatchOperation, ObTableOperationType, Operation, TableOpResult};
use obkv::error::{Error, ResultCodes, UsageKind};
use obkv::value::Value;
use obkv::ClientConfig;

fn client_one() -> Client {
    Client::new(1, ClientConfig::new(), PartitionStrategy::ByTable)
}

fn skey(s: &str) -> Vec<Value> {
    vec![Value::Str(s.to_string())]
}

fn scol(s: &str) -> Vec<String> {
    vec![s.to_string()]
}

fn sval(s: &str) -> Vec<Value> {
    vec![Value::Str(s.to_string())]
}

#[test]
fn insert_then_get() {
    let mut c = client_one();
    let n = c.insert("tbl", skey("foo"), scol("c2"), sval("bar")).unwrap();
    assert_eq!(n, 1);
    let row = c.get("tbl", skey("foo"), scol("c2")).unwrap();
    assert_eq!(row.len(), 1);
    let v = row.get("c2").unwrap();
    assert_eq!(v.as_string().unwrap(), "bar".to_string());
}

#[test]
fn duplicate_insert_fails_with_primary_key_duplicate() {
    let mut c = client_one();
    assert_eq!(c.insert("tbl", skey("foo"), scol("c2"), sval("bar")).unwrap(), 1);
    let err = c.insert("tbl", skey("foo"), scol("c2"), sval("baz")).unwrap_err();
    match err {
        Error::Server(code, _) => assert!(matches!(code, ResultCodes::ObErrPrimaryKeyDuplicate)),
        other => panic!("expected a server exception, got {other:?}"),
    }
    // The first value still stands.
    let row = c.get("tbl", skey("foo"), scol("c2")).unwrap();
    assert_eq!(row.get("c2").unwrap().as_string().unwrap(), "bar".to_string());
}

#[test]
fn replace_takes_both_paths() {
    let mut c = client_one();
    assert_eq!(c.insert("tbl", skey("foo"), scol("c2"), sval("old")).unwrap(), 1);
    // An existing row is replaced: the server reports two rows.
    assert_eq!(c.replace("tbl", skey("foo"), scol("c2"), sval("bar")).unwrap(), 2);
    let row = c.get("tbl", skey("foo"), scol("c2")).unwrap();
    assert_eq!(row.get("c2").unwrap().as_string().unwrap(), "bar".to_string());
    // A missing row takes the insert path.
    assert_eq!(c.replace("tbl", skey("unknown"), scol("c2"), sval("baz")).unwrap(), 1);
    let row = c.get("tbl", skey("unknown"), scol("c2")).unwrap();
    assert_eq!(row.get("c2").unwrap().as_string().unwrap(), "baz".to_string());
}

#[test]
fn increment_accumulates() {
    let mut c = client_one();
    assert_eq!(c.insert("tbl", skey("foo"), scol("c2"), sval("bar")).unwrap(), 1);
    assert_eq!(c.increment("tbl", skey("foo"), scol("c3"), vec![Value::Int(10)]).unwrap(), 1);
    let row = c.get("tbl", skey("foo"), scol("c3")).unwrap();
    assert_eq!(row.get("c3").unwrap().as_i64().unwrap(), 10);
    assert_eq!(c.increment("tbl", skey("foo"), scol("c3"), vec![Value::Int(15)]).unwrap(), 1);
    let row = c.get("tbl", skey("foo"), scol("c3")).unwrap();
    assert_eq!(row.get("c3").unwrap().as_i64().unwrap(), 25);
}

#[test]
fn increment_refuses_non_integer_column() {
    let mut c = client_one();
    assert_eq!(c.insert("tbl", skey("foo"), scol("c2"), sval("bar")).unwrap(), 1);
    let err = c.increment("tbl", skey("foo"), scol("c2"), vec![Value::Int(1)]).unwrap_err();
    match err {
        Error::Server(code, _) => assert_eq!(code.errno(), -5023),
        other => panic!("expected a server exception, got {other:?}"),
    }
}

#[test]
fn append_joins_strings() {
    let mut c = client_one();
    assert_eq!(c.insert("tbl", skey("foo"), scol("c2"), sval("bar")).unwrap(), 1);
    assert_eq!(c.append("tbl", skey("foo"), scol("c2"), sval("baz")).unwrap(), 1);
    let row = c.get("tbl", skey("foo"), scol("c2")).unwrap();
    assert_eq!(row.get("c2").unwrap().as_string().unwrap(), "barbaz".to_string());
}

#[test]
fn update_and_delete() {
    let mut c = client_one();
    assert_eq!(c.update("tbl", skey("ghost"), scol("c2"), sval("x")).unwrap(), 0);
    assert_eq!(c.insert("tbl", skey("foo"), scol("c2"), sval("bar")).unwrap(), 1);
    assert_eq!(c.update("tbl", skey("foo"), scol("c2"), sval("new")).unwrap(), 1);
    let row = c.get("tbl", skey("foo"), scol("c2")).unwrap();
    assert_eq!(row.get("c2").unwrap().as_string().unwrap(), "new".to_string());
    assert_eq!(c.delete("tbl", skey("foo")).unwrap(), 1);
    assert_eq!(c.delete("tbl", skey("foo")).unwrap(), 0);
    let row = c.get("tbl", skey("foo"), scol("c2")).unwrap();
    assert_eq!(row.len(), 0);
}

#[test]
fn insert_or_update_upserts() {
    let mut c = client_one();
    assert_eq!(c.insert_or_update("tbl", skey("k"), scol("c2"), sval("a")).unwrap(), 1);
    assert_eq!(c.insert_or_update("tbl", skey("k"), scol("c2"), sval("b")).unwrap(), 1);
    let row = c.get("tbl", skey("k"), scol("c2")).unwrap();
    assert_eq!(row.get("c2").unwrap().as_string().unwrap(), "b".to_string());
}

fn seed_range_rows(c: &mut Client) {
    for k in ["123", "124", "234", "456", "567"] {
        assert_eq!(c.insert("tbl", skey(k), scol("c2"), sval(k)).unwrap(), 1);
    }
}

fn collect_c2(cursor: &mut obkv::query::QueryStreamResult) -> Vec<String> {
    let mut out = Vec::new();
    while let Some(row) = cursor.next().unwrap() {
        out.push(row.get("c2").unwrap().as_string().unwrap());
    }
    out
}

#[test]
fn range_query_exclusive_bounds() {
    let mut c = client_one();
    seed_range_rows(&mut c);
    let q = c
        .query("tbl")
        .select(scol("c2"))
        .primary_index()
        .batch_size(10)
        .scan_order(true)
        .operation_timeout(5000)
        .add_scan_range(skey("123"), false, skey("567"), false);
    let mut cursor = c.execute_query(q).unwrap();
    assert_eq!(collect_c2(&mut cursor), vec!["124", "234", "456"]);
}

#[test]
fn range_query_reverse_inclusive() {
    let mut c = client_one();
    seed_range_rows(&mut c);
    let q = c
        .query("tbl")
        .select(scol("c2"))
        .scan_order(false)
        .add_scan_range(skey("123"), true, skey("567"), true);
    let mut cursor = c.execute_query(q).unwrap();
    assert_eq!(collect_c2(&mut cursor), vec!["567", "456", "234", "124", "123"]);
}

#[test]
fn empty_range_union_yields_nothing() {
    let mut c = client_one();
    seed_range_rows(&mut c);
    let q = c.query("tbl").select(scol("c2"));
    let mut cursor = c.execute_query(q).unwrap();
    assert_eq!(collect_c2(&mut cursor), Vec::<String>::new());
}

#[test]
fn inverted_range_yields_nothing() {
    let mut c = client_one();
    seed_range_rows(&mut c);
    let q = c.query("tbl").select(scol("c2")).add_scan_range(skey("567"), true, skey("123"), true);
    let mut cursor = c.execute_query(q).unwrap();
    assert_eq!(collect_c2(&mut cursor), Vec::<String>::new());
}

#[test]
fn cursor_close_then_next_fails() {
    let mut c = client_one();
    seed_range_rows(&mut c);
    let q = c.query("tbl").select(scol("c2")).add_scan_range(skey("123"), true, skey("567"), true);
    let mut cursor = c.execute_query(q).unwrap();
    assert!(cursor.cache_size() > 0);
    assert!(cursor.next().unwrap().is_some());
    cursor.close();
    // Closing drains the local buffer.
    assert_eq!(cursor.cache_size(), 0);
    let err = cursor.next().unwrap_err();
    assert!(matches!(err, Error::Usage(UsageKind::AlreadyClosed)));
}

#[test]
fn cursor_streams_in_ascending_key_order() {
    let mut c = client_one();
    seed_range_rows(&mut c);
    let q = c.query("tbl").select(scol("c2")).add_scan_range(skey("123"), true, skey("567"), true);
    let mut cursor = c.execute_query(q).unwrap();
    let got = collect_c2(&mut cursor);
    let mut sorted = got.clone();
    sorted.sort();
    assert_eq!(got, sorted);
    assert_eq!(got.len(), 5);
}

#[test]
fn cross_partition_atomic_batch_is_refused_without_effect() {
    let mut c = Client::new(2, ClientConfig::new(), PartitionStrategy::ByRowKey);
    // "124" starts with '1' and "234" with '2': they resolve to different
    // endpoints of the two-endpoint client.
    let mut batch = ObTableBatchOperation::new();
    batch.add_op(
        Operation::new(ObTableOperationType::Insert, skey("124"), scol("c2"), sval("a")).unwrap(),
    );
    batch.add_op(
        Operation::new(ObTableOperationType::Insert, skey("234"), scol("c2"), sval("b")).unwrap(),
    );
    batch.set_atomic_op(true);
    let err = c.batch("tbl", batch).unwrap_err();
    assert!(matches!(err, Error::Usage(UsageKind::CrossPartitionAtomic)));
    // Nothing reached any endpoint.
    assert_eq!(c.get("tbl", skey("124"), scol("c2")).unwrap().len(), 0);
    assert_eq!(c.get("tbl", skey("234"), scol("c2")).unwrap().len(), 0);
}

#[test]
fn batch_results_keep_submission_order() {
    let mut c = client_one();
    assert_eq!(c.insert("tbl", skey("a"), scol("c2"), sval("va")).unwrap(), 1);
    let mut batch = ObTableBatchOperation::new();
    batch.add_op(
        Operation::new(ObTableOperationType::Get, skey("a"), scol("c2"), Vec::new()).unwrap(),
    );
    batch.add_op(
        Operation::new(ObTableOperationType::Insert, skey("b"), scol("c2"), sval("vb")).unwrap(),
    );
    batch.add_op(
        Operation::new(ObTableOperationType::Del, skey("a"), Vec::new(), Vec::new()).unwrap(),
    );
    let out = c.batch("tbl", batch).unwrap();
    assert_eq!(out.len(), 3);
    match &out[0] {
        TableOpResult::RetrieveRows(row) => {
            assert_eq!(row.get("c2").unwrap().as_string().unwrap(), "va".to_string())
        }
        other => panic!("expected rows first, got {other:?}"),
    }
    assert!(matches!(out[1], TableOpResult::AffectedRows(1)));
    assert!(matches!(out[2], TableOpResult::AffectedRows(1)));
}

#[test]
fn mismatched_write_shape_is_refused() {
    let mut c = client_one();
    let err = c
        .insert("tbl", skey("foo"), vec!["c2".to_string(), "c3".to_string()], sval("bar"))
        .unwrap_err();
    assert!(matches!(err, Error::Usage(UsageKind::InvalidParam)));
    // Nothing was stored.
    assert_eq!(c.get("tbl", skey("foo"), scol("c2")).unwrap().len(), 0);
}

#[test]
fn empty_batch_answers_empty() {
    let mut c = client_one();
    let batch = ObTableBatchOperation::new();
    let out = c.batch("tbl", batch).unwrap();
    assert!(out.is_empty());
}

#[test]
fn batch_builders_shape_the_batch() {
    let mut c = client_one();
    let mut batch = ObTableBatchOperation::new();
    batch.insert(skey("x"), scol("c2"), sval("1")).unwrap();
    batch.get(skey("x"), scol("c2"));
    batch.delete(skey("x"));
    assert_eq!(batch.len(), 3);
    let out = c.batch("tbl", batch).unwrap();
    assert_eq!(out.len(), 3);
    assert!(matches!(out[0], TableOpResult::AffectedRows(1)));
    match &out[1] {
        TableOpResult::RetrieveRows(row) => {
            assert_eq!(row.get("c2").unwrap().as_string().unwrap(), "1".to_string())
        }
        other => panic!("expected rows, got {other:?}"),
    }
    assert!(matches!(out[2], TableOpResult::AffectedRows(1)));
    // A malformed write never joins the batch.
    let mut b2 = ObTableBatchOperation::new();
    let err = b2.insert(skey("x"), vec!["a".to_string(), "b".to_string()], sval("1")).unwrap_err();
    assert!(matches!(err, Error::Usage(UsageKind::InvalidParam)));
    assert_eq!(b2.len(), 0);
}

#[test]
fn get_with_empty_select_reads_every_column() {
    let mut c = client_one();
    assert_eq!(
        c.insert(
            "tbl",
            skey("k"),
            vec!["c2".to_string(), "c3".to_string()],
            vec![Value::Str("v".to_string()), Value::Int(7)],
        )
        .unwrap(),
        1
    );
    let row = c.get("tbl", skey("k"), Vec::new()).unwrap();
    assert_eq!(row.len(), 2);
    assert_eq!(row.get("c2").unwrap().as_string().unwrap(), "v".to_string());
    assert_eq!(row.get("c3").unwrap().as_i64().unwrap(), 7);
}

#[test]
fn one_operation_stays_within_the_retry_budget() {
    let mut c = client_one();
    assert_eq!(c.total_rpcs(), 0);
    let retry_budget = 1 + 1; // runtime_retry_times + 1 of the default configuration
    assert_eq!(c.insert("tbl", skey("foo"), scol("c2"), sval("bar")).unwrap(), 1);
    assert!(c.total_rpcs() <= retry_budget);
    let before = c.total_rpcs();
    let _ = c.get("tbl", skey("foo"), scol("c2")).unwrap();
    assert!(c.total_rpcs() - before <= retry_budget);
}
