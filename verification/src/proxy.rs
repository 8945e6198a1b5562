//! The endpoint proxy: a pool of connections to one endpoint, round-robin
//! choice among the ready ones, and the execution of one batch request as
//! one RPC against the endpoint's partitions.

use vstd::prelude::*;

use crate::connection::{ConnState, Connection};
use crate::error::Error;
use crate::memstore::{
    build_row, spec_chain, spec_find, spec_index_of, spec_insert_sorted, spec_props_lookup,
    spec_step, spec_table, MemStore, StoreModel,
};
use crate::row::{model_wf, spec_lookup};
use crate::operation::{
    ObTableBatchOperation, ObTableBatchOperationResult, ObTableOperationResult,
    ObTableOperationType, OperationModel, OperationResultModel,
};
use crate::row::{Row, RowModel};
use crate::value::Value;

verus! {

/// The partition a table name resolves to on this endpoint.
pub open spec fn spec_table_or_empty(s: Seq<(Seq<char>, StoreModel)>, name: Seq<char>) -> StoreModel {
    match spec_table(s, name) {
        Some(m) => m,
        None => Seq::empty(),
    }
}


/// A connection that can carry one more request: ready, under its
/// high-water mark, with a request id still to give.
pub open spec fn usable(c: Connection) -> bool {
    &&& c.spec_state() is Ready
    &&& c.pending_ids().len() < c.spec_high_water_mark()
    &&& c.spec_next_request_id() < u64::MAX
}

/// Whether slot `j` is among the first `off` slots of a round-robin walk
/// that starts at `start` in a pool of `n`.
pub open spec fn examined(start: int, off: int, n: int, j: int) -> bool {
    if j >= start {
        j - start < off
    } else {
        j + n - start < off
    }
}


/// One successful request walked the named partition through `ops`,
/// answering `rs`, and left every other partition alone.
pub open spec fn spec_executed(pre: Seq<(Seq<char>, StoreModel)>, post: Seq<(Seq<char>, StoreModel)>,
    name: Seq<char>, ops: Seq<OperationModel>, rs: Seq<OperationResultModel>) -> bool {
    exists|ts: Seq<StoreModel>|
        {
            &&& #[trigger] spec_chain(ts, ops, rs)
            &&& ts[0] == spec_table_or_empty(pre, name)
            &&& spec_table(post, name) == Some(ts.last())
        }
}

/// The delay before reconnect attempt `attempt`, in milliseconds: it
/// doubles from 100 ms and is capped at 10 s.
pub open spec fn spec_backoff_ms(attempt: u64) -> u64 {
    if attempt == 0 {
        100
    } else if attempt == 1 {
        200
    } else if attempt == 2 {
        400
    } else if attempt == 3 {
        800
    } else if attempt == 4 {
        1600
    } else if attempt == 5 {
        3200
    } else if attempt == 6 {
        6400
    } else {
        10000
    }
}

/// How long the host should wait before reconnect attempt `attempt`. The
/// host performs the sleep and the reconnect; the schedule is decided here.
pub fn backoff_ms(attempt: u64) -> (r: u64)
    ensures
        r == spec_backoff_ms(attempt),
        r <= 10000,
        attempt > 0 ==> r >= spec_backoff_ms((attempt - 1) as u64),
{
    match attempt {
        0 => 100,
        1 => 200,
        2 => 400,
        3 => 800,
        4 => 1600,
        5 => 3200,
        6 => 6400,
        _ => 10000,
    }
}

/// One endpoint's proxy.
pub struct Proxy {
    connections: Vec<Connection>,
    rr_counter: usize,
    rpcs_sent: u64,
    store: MemStore,
}

impl Proxy {
    /// The endpoint's data, as contracts see it.
    pub closed spec fn spec_store(self) -> Seq<(Seq<char>, StoreModel)> {
        self.store@
    }

    /// How many requests this proxy has put on the wire.
    pub closed spec fn spec_rpcs(self) -> u64 {
        self.rpcs_sent
    }

    pub closed spec fn spec_connections(self) -> Seq<Connection> {
        self.connections@
    }

    pub closed spec fn wf(self) -> bool {
        &&& self.connections@.len() > 0
        &&& forall|i: int| 0 <= i < self.connections@.len() ==> (#[trigger] self.connections@[i]).wf()
        &&& self.store.wf()
    }

    /// Whether some connection could carry a request right now.
    pub open spec fn spec_some_ready(self) -> bool {
        exists|i: int|
            0 <= i < self.spec_connections().len() && usable(
                #[trigger] self.spec_connections()[i],
            )
    }

    /// How many requests this proxy has put on the wire, observably.
    pub fn rpcs_sent(&self) -> (n: u64)
        ensures
            n == self.spec_rpcs(),
    {
        self.rpcs_sent
    }

    /// A proxy with a fresh pool of disconnected connections.
    pub fn new(pool_size: usize, high_water_mark: usize) -> (p: Proxy)
        requires
            pool_size > 0,
        ensures
            p.wf(),
            p.spec_rpcs() == 0,
            p.spec_store() == Seq::<(Seq<char>, StoreModel)>::empty(),
            p.spec_connections().len() == pool_size,
            forall|i: int|
                0 <= i < pool_size ==> (#[trigger] p.spec_connections()[i]).spec_state()
                    is Disconnected && p.spec_connections()[i].pending_ids().len() == 0
                    && p.spec_connections()[i].spec_next_request_id() == 0
                    && p.spec_connections()[i].spec_high_water_mark() == high_water_mark,
    {
        let mut connections: Vec<Connection> = Vec::new();
        let mut i: usize = 0;
        while i < pool_size
            invariant
                i <= pool_size,
                connections@.len() == i,
                forall|j: int|
                    0 <= j < i ==> (#[trigger] connections@[j]).wf() && connections@[j].spec_state()
                        is Disconnected && connections@[j].pending_ids().len() == 0
                        && connections@[j].spec_next_request_id() == 0
                        && connections@[j].spec_high_water_mark() == high_water_mark,
            decreases pool_size - i,
        {
            connections.push(Connection::new(high_water_mark));
            i += 1;
        }
        Proxy { connections, rr_counter: 0, rpcs_sent: 0, store: MemStore::new() }
    }

    /// Runs the transport establishment and login handshake of every
    /// disconnected connection in the pool.
    pub fn connect_all(&mut self)
        requires
            old(self).wf(),
            forall|i: int| #![auto]
                0 <= i < old(self).spec_connections().len()
                    ==> old(self).spec_connections()[i].spec_state() is Disconnected,
        ensures
            final(self).wf(),
            final(self).spec_connections().len() == old(self).spec_connections().len(),
            forall|i: int| #![auto]
                0 <= i < final(self).spec_connections().len()
                    ==> final(self).spec_connections()[i].spec_state() is Ready && final(self).spec_connections()[i].pending_ids() == old(self).spec_connections()[i].pending_ids()
                    && final(self).spec_connections()[i].spec_next_request_id() == old(self).spec_connections()[i].spec_next_request_id() && final(self).spec_connections()[i].spec_high_water_mark() == old(self).spec_connections()[i].spec_high_water_mark(),
            final(self).spec_store() == old(self).spec_store(),
            final(self).spec_rpcs() == old(self).spec_rpcs(),
    {
        let n = self.connections.len();
        proof {
            assert forall|j: int|
                0 <= j < n implies (#[trigger] self.connections@[j]).wf()
                    && self.connections@[j].spec_state() is Disconnected by {
                assert(old(self).spec_connections()[j].spec_state() is Disconnected);
                assert(old(self).spec_connections()[j].wf());
            }
        }
        let mut i: usize = 0;
        while i < n
            invariant
                n == self.connections@.len(),
                i <= n,
                self.store == old(self).store,
                self.rpcs_sent == old(self).rpcs_sent,
                old(self).wf(),
                forall|j: int|
                    0 <= j < n ==> (#[trigger] self.connections@[j]).wf() && (if j < i {
                        self.connections@[j].spec_state() is Ready
                    } else {
                        self.connections@[j].spec_state() is Disconnected
                    }) && self.connections@[j].pending_ids() == old(self).spec_connections()[j].pending_ids() && self.connections@[j].spec_next_request_id()
                        == old(self).spec_connections()[j].spec_next_request_id()
                        && self.connections@[j].spec_high_water_mark() == old(self).spec_connections()[j].spec_high_water_mark(),
            decreases n - i,
        {
            let ghost pre = self.connections@;
            let mut conn = self.connections.remove(i);
            conn.begin_connect();
            conn.login_ok();
            self.connections.insert(i, conn);
            proof {
                assert forall|j: int|
                    0 <= j < n implies #[trigger] self.connections@[j] == (if j == i {
                    conn
                } else {
                    pre[j]
                }) by {
                    assert(self.connections@[j] == pre.remove(i as int).insert(
                        i as int,
                        conn,
                    )[j]);
                }
            }
            i += 1;
        }
    }
}

impl Proxy {
    /// Executes one batch request as one RPC: allocates a request id on a
    /// ready connection, applies the operations in order to the named
    /// partition, and settles the id when the response arrives. Fails with
    /// a not-connected error when no connection can carry the request, and
    /// passes a congestion failure on. On success the response holds one
    /// sub-result per operation, in order, and the partition has stepped
    /// through exactly those operations.
    pub fn execute(&mut self, table_name: &str, batch: &ObTableBatchOperation) -> (r: Result<
        ObTableBatchOperationResult,
        Error,
    >)
        requires
            old(self).wf(),
            forall|i: int| 0 <= i < batch@.len() ==> (#[trigger] batch@[i]).wf(),
        ensures
            final(self).wf(),
            final(self).spec_rpcs() <= old(self).spec_rpcs() + 1,
            old(self).spec_some_ready() ==> r is Ok,
            r is Err ==> final(self).spec_store() == old(self).spec_store()
                && final(self).spec_rpcs() == old(self).spec_rpcs(),
            r matches Err(e) ==> (e is NotConnected || e is Congestion || e matches Error::Transport(
                _,
            )),
            r matches Ok(resp) ==> spec_executed(
                old(self).spec_store(),
                final(self).spec_store(),
                table_name@,
                batch@,
                resp@,
            ),
            r is Ok ==> forall|n2: Seq<char>|
                n2 != table_name@ ==> #[trigger] spec_table(final(self).spec_store(), n2)
                    == spec_table(old(self).spec_store(), n2),
            r matches Ok(resp) ==> resp@.len() == batch@.len(),
            r matches Ok(resp) ==> forall|i: int|
                0 <= i < batch@.len() ==> (#[trigger] resp@[i].op_type) == batch@[i].op_type,
            r is Err ==> final(self).spec_connections() == old(self).spec_connections(),
            r is Ok && old(self).spec_rpcs() < u64::MAX ==> final(self).spec_rpcs() == old(
                self,
            ).spec_rpcs() + 1,
            r is Ok && old(self).spec_rpcs() == u64::MAX ==> final(self).spec_rpcs() == old(
                self,
            ).spec_rpcs(),
            r matches Ok(resp) ==> forall|i: int|
                0 <= i < resp@.len() ==> (#[trigger] resp@[i].errno) == 0 || resp@[i].errno
                    == -5024i32 || resp@[i].errno == -5023i32,
            batch@.len() == 1 ==> match r {
                Ok(resp) => spec_step(
                    spec_table_or_empty(old(self).spec_store(), table_name@),
                    batch@[0],
                    spec_table_or_empty(final(self).spec_store(), table_name@),
                    resp@[0],
                ) && spec_table(final(self).spec_store(), table_name@) is Some,
                Err(_) => true,
            },
    {
        // Choose a connection by round robin among the ready ones.
        let n = self.connections.len();
        let start = self.rr_counter % n;
        self.rr_counter = if self.rr_counter == usize::MAX {
            0
        } else {
            self.rr_counter + 1
        };
        let mut off: usize = 0;
        let mut chosen: Option<(usize, u64)> = None;
        while off < n
            invariant_except_break
                chosen is None,
                self.connections@ == old(self).spec_connections(),
                forall|j: int|
                    0 <= j < n && examined(start as int, off as int, n as int, j) ==> !usable(
                        #[trigger] self.connections@[j],
                    ),
            invariant
                old(self).wf(),
                n == self.connections@.len(),
                n > 0,
                start < n,
                off <= n,
                self.store == old(self).store,
                self.rpcs_sent == old(self).rpcs_sent,
                forall|j: int| 0 <= j < n ==> (#[trigger] self.connections@[j]).wf(),
            ensures
                old(self).wf(),
                n == self.connections@.len(),
                self.store == old(self).store,
                self.rpcs_sent == old(self).rpcs_sent,
                forall|j: int| 0 <= j < n ==> (#[trigger] self.connections@[j]).wf(),
                chosen is None ==> self.connections@ == old(self).spec_connections() && forall|
                    j: int,
                |
                    0 <= j < n && examined(start as int, n as int, n as int, j) ==> !usable(
                        #[trigger] self.connections@[j],
                    ),
                chosen matches Some((idx, id)) ==> idx < n,
            decreases n - off,
        {
            let idx = if off < n - start {
                start + off
            } else {
                off - (n - start)
            };
            proof {
                assert(examined(start as int, off + 1, n as int, idx as int));
                assert forall|j: int|
                    0 <= j < n && examined(start as int, off + 1, n as int, j) && j != idx
                        implies examined(start as int, off as int, n as int, j) by {}
            }
            let ghost pre_conns = self.connections@;
            let mut conn = self.connections.remove(idx);
            if matches!(conn.state(), ConnState::Ready) {
                match conn.begin_send() {
                    Ok(id) => {
                        self.connections.insert(idx, conn);
                        proof {
                            assert forall|j: int|
                                0 <= j < n implies (#[trigger] self.connections@[j]).wf() by {
                                assert(self.connections@[j] == pre_conns.remove(
                                    idx as int,
                                ).insert(idx as int, conn)[j]);
                                if j != idx {
                                    assert(self.connections@[j] == pre_conns[j]);
                                }
                            }
                        }
                        chosen = Some((idx, id));
                        break ;
                    },
                    Err(_) => {
                        self.connections.insert(idx, conn);
                        proof {
                            assert(self.connections@ =~= pre_conns);
                            assert(!usable(self.connections@[idx as int]));
                        }
                    },
                }
            } else {
                self.connections.insert(idx, conn);
                proof {
                    assert(self.connections@ =~= pre_conns);
                    assert(!usable(self.connections@[idx as int]));
                }
            }
            off += 1;
        }

        let (idx, id) = match chosen {
            Some(p) => p,
            None => {
                proof {
                    assert forall|j: int|
                        0 <= j < n implies !usable(
                        #[trigger] old(self).spec_connections()[j],
                    ) by {
                        assert(examined(start as int, n as int, n as int, j));
                        assert(!usable(self.connections@[j]));
                    }
                }
                return Err(Error::NotConnected);
            },
        };

        // One request on the wire.
        if self.rpcs_sent < u64::MAX {
            self.rpcs_sent = self.rpcs_sent + 1;
        }

        // The endpoint walks the batch in order over the named partition.
        let ghost store_pre = self.store@;
        let ghost conns_mid = self.connections@;
        let ghost rpcs_mid = self.rpcs_sent;
        let mut t = self.store.take_table(table_name);
        let ghost store_taken = self.store;
        let ghost t0 = t@;
        let mut results = ObTableBatchOperationResult::new();
        let m = batch.len();
        let mut i: usize = 0;
        let ghost mut ts: Seq<StoreModel> = seq![t@];
        while i < m
            invariant
                self.store == store_taken,
                self.connections@ == conns_mid,
                self.rpcs_sent == rpcs_mid,
                m == batch@.len(),
                i <= m,
                forall|q: int| 0 <= q < batch@.len() ==> (#[trigger] batch@[q]).wf(),
                t.wf(),
                ts.len() == i + 1,
                ts[0] == t0,
                ts.last() == t@,
                results@.len() == i,
                forall|q: int|
                    0 <= q < i ==> #[trigger] spec_step(ts[q], batch@[q], ts[q + 1], results@[q]),
            decreases m - i,
        {
            let op = batch.op_at(i);
            let key = op.row_key();
            let ghost t_pre = t@;
            let res: ObTableOperationResult = match op.op_type() {
                ObTableOperationType::Get => {
                    let entity = t.get_row(&key, &op.columns_vec());
                    ObTableOperationResult::new(0, String::new(), ObTableOperationType::Get,
                        entity, 0)
                },
                ObTableOperationType::Insert => {
                    let row = build_row(&op.columns_vec(), &op.properties_vec());
                    let ghost rowm = row@;
                    let ok = t.insert_row(&key, row);
                    if ok {
                        proof {
                            assert(exists|r2: RowModel|
                                model_wf(r2) && t@ == spec_insert_sorted(t_pre, op@.row_key, r2)
                                    && (forall|c: Seq<char>| #[trigger]
                                    spec_lookup(r2, c) == spec_props_lookup(
                                        op@.columns,
                                        op@.properties,
                                        c,
                                    ))) by {
                                assert(model_wf(rowm) && t@ == spec_insert_sorted(
                                    t_pre,
                                    op@.row_key,
                                    rowm,
                                ) && (forall|c: Seq<char>| #[trigger]
                                    spec_lookup(rowm, c) == spec_props_lookup(
                                        op@.columns,
                                        op@.properties,
                                        c,
                                    )));
                            }
                        }
                        ObTableOperationResult::new(0, String::new(),
                            ObTableOperationType::Insert, Row::new(), 1)
                    } else {
                        ObTableOperationResult::new(-5024, "duplicate primary key".to_string(),
                            ObTableOperationType::Insert, Row::new(), 0)
                    }
                },
                ObTableOperationType::Del => {
                    let existed = t.delete_row(&key);
                    ObTableOperationResult::new(0, String::new(), ObTableOperationType::Del,
                        Row::new(),
                        if existed {
                            1
                        } else {
                            0
                        })
                },
                ObTableOperationType::Update => {
                    let affected = t.update_row(&key, &op.columns_vec(), &op.properties_vec());
                    ObTableOperationResult::new(0, String::new(), ObTableOperationType::Update,
                        Row::new(), affected)
                },
                ObTableOperationType::InsertOrUpdate => {
                    let affected = t.insert_or_update_row(&key, &op.columns_vec(),
                        &op.properties_vec());
                    ObTableOperationResult::new(0, String::new(),
                        ObTableOperationType::InsertOrUpdate, Row::new(), affected)
                },
                ObTableOperationType::Replace => {
                    let row = build_row(&op.columns_vec(), &op.properties_vec());
                    let ghost rowm = row@;
                    let affected = t.replace_row(&key, row);
                    proof {
                        assert(exists|r2: RowModel|
                            model_wf(r2) && (forall|c: Seq<char>| #[trigger]
                                spec_lookup(r2, c) == spec_props_lookup(
                                    op@.columns,
                                    op@.properties,
                                    c,
                                )) && (if spec_find(t_pre, op@.row_key) is Some {
                                affected == 2 && t@ == t_pre.update(
                                    spec_index_of(t_pre, op@.row_key),
                                    (op@.row_key, r2),
                                )
                            } else {
                                affected == 1 && t@ == spec_insert_sorted(
                                    t_pre,
                                    op@.row_key,
                                    r2,
                                )
                            })) by {
                            assert(model_wf(rowm) && (forall|c: Seq<char>| #[trigger]
                                spec_lookup(rowm, c) == spec_props_lookup(
                                    op@.columns,
                                    op@.properties,
                                    c,
                                )) && (if spec_find(t_pre, op@.row_key) is Some {
                                affected == 2 && t@ == t_pre.update(
                                    spec_index_of(t_pre, op@.row_key),
                                    (op@.row_key, rowm),
                                )
                            } else {
                                affected == 1 && t@ == spec_insert_sorted(
                                    t_pre,
                                    op@.row_key,
                                    rowm,
                                )
                            }));
                        }
                    }
                    ObTableOperationResult::new(0, String::new(), ObTableOperationType::Replace,
                        Row::new(), affected)
                },
                ObTableOperationType::Increment => {
                    match t.increment_row(&key, &op.columns_vec(), &op.properties_vec()) {
                        Ok(affected) => ObTableOperationResult::new(0, String::new(),
                            ObTableOperationType::Increment, Row::new(), affected),
                        Err(code) => ObTableOperationResult::new(code,
                            "object type does not match".to_string(),
                            ObTableOperationType::Increment, Row::new(), 0),
                    }
                },
                ObTableOperationType::Append => {
                    match t.append_row(&key, &op.columns_vec(), &op.properties_vec()) {
                        Ok(affected) => ObTableOperationResult::new(0, String::new(),
                            ObTableOperationType::Append, Row::new(), affected),
                        Err(code) => ObTableOperationResult::new(code,
                            "object type does not match".to_string(),
                            ObTableOperationType::Append, Row::new(), 0),
                    }
                },
            };
            results.push(res);
            proof {
                ts = ts.push(t@);
                assert(spec_step(t_pre, batch@[i as int], t@, res@));
                assert(ts[i as int] == t_pre);
                assert(ts[i + 1] == t@);
                assert forall|q: int|
                    0 <= q < i + 1 implies #[trigger] spec_step(ts[q], batch@[q], ts[q + 1],
                    results@[q]) by {
                    if q < i {
                        assert(ts[q] == ts.drop_last()[q]);
                        assert(ts[q + 1] == ts.drop_last()[q + 1]);
                    }
                }
            }
            i += 1;
        }
        self.store.put_table(table_name, t);

        // Deliver: the response settles the pending slot of its request id.
        let ghost conns_done = self.connections@;
        let mut conn = self.connections.remove(idx);
        let settled = conn.settle(id);
        self.connections.insert(idx, conn);
        proof {
            assert forall|j: int|
                0 <= j < self.connections@.len() implies (#[trigger] self.connections@[j]).wf() by {
                assert(self.connections@[j] == conns_done.remove(idx as int).insert(
                    idx as int,
                    conn,
                )[j]);
                if j != idx {
                    assert(self.connections@[j] == conns_done[j]);
                }
            }
            assert forall|q: int|
                0 <= q < batch@.len() implies (#[trigger] results@[q].op_type)
                == batch@[q].op_type by {
                assert(spec_step(ts[q], batch@[q], ts[q + 1], results@[q]));
            }
            assert forall|q: int|
                0 <= q < results@.len() implies (#[trigger] results@[q].errno) == 0
                    || results@[q].errno == -5024i32 || results@[q].errno == -5023i32 by {
                assert(spec_step(ts[q], batch@[q], ts[q + 1], results@[q]));
            }
            if batch@.len() == 1 {
                let q0: int = 0;
                assert(spec_step(ts[q0], batch@[q0], ts[q0 + 1], results@[q0]));
                assert(ts[0] == spec_table_or_empty(old(self).spec_store(), table_name@));
                assert(ts[1] == ts.last());
                assert(spec_table(self.store@, table_name@) == Some(ts.last()));
            }
            assert(spec_executed(old(self).spec_store(), self.store@, table_name@, batch@,
                results@)) by {
                assert(spec_chain(ts, batch@, results@));
                assert(ts[0] == spec_table_or_empty(old(self).spec_store(), table_name@));
                assert(spec_table(self.store@, table_name@) == Some(ts.last()));
            }
        }
        Ok(results)
    }
}

impl Proxy {
    /// Scans the named partition: the rows whose keys lie in the union of
    /// the ranges, in the requested key order, each row well formed.
    pub fn scan(&mut self, table_name: &str, ranges: &Vec<crate::memstore::ScanRange>,
        ascending: bool) -> (rows: Vec<(Vec<Value>, crate::row::Row)>)
        requires
            old(self).wf(),
        ensures
            final(self).wf(),
            final(self).spec_rpcs() <= old(self).spec_rpcs() + 1,
            old(self).spec_rpcs() < u64::MAX ==> final(self).spec_rpcs() == old(self).spec_rpcs()
                + 1,
            spec_table(final(self).spec_store(), table_name@) == Some(
                spec_table_or_empty(old(self).spec_store(), table_name@),
            ),
            forall|n2: Seq<char>|
                n2 != table_name@ ==> #[trigger] spec_table(final(self).spec_store(), n2)
                    == spec_table(old(self).spec_store(), n2),
            forall|j: int| 0 <= j < rows@.len() ==> (#[trigger] rows@[j].1).wf(),
            forall|j: int| #![auto]
                0 <= j < rows@.len() ==> crate::memstore::in_ranges(
                    crate::order::key_view(rows@[j].0@),
                    crate::memstore::ranges_view(ranges@),
                ) && crate::memstore::spec_find(
                    spec_table_or_empty(old(self).spec_store(), table_name@),
                    crate::order::key_view(rows@[j].0@),
                ) == Some(rows@[j].1@),
            forall|i: int| #![auto]
                0 <= i < spec_table_or_empty(old(self).spec_store(), table_name@).len()
                    && crate::memstore::in_ranges(
                    spec_table_or_empty(old(self).spec_store(), table_name@)[i].0,
                    crate::memstore::ranges_view(ranges@),
                ) ==> exists|j: int|
                    0 <= j < rows@.len() && crate::order::key_view(#[trigger] rows@[j].0@)
                        == spec_table_or_empty(old(self).spec_store(), table_name@)[i].0,
            ascending ==> forall|p1: int, p2: int| #![auto]
                0 <= p1 < p2 < rows@.len() ==> crate::order::key_lt(
                    crate::order::key_view(rows@[p1].0@),
                    crate::order::key_view(rows@[p2].0@),
                ),
            !ascending ==> forall|p1: int, p2: int| #![auto]
                0 <= p1 < p2 < rows@.len() ==> crate::order::key_lt(
                    crate::order::key_view(rows@[p2].0@),
                    crate::order::key_view(rows@[p1].0@),
                ),
    {
        if self.rpcs_sent < u64::MAX {
            self.rpcs_sent = self.rpcs_sent + 1;
        }
        let t = self.store.take_table(table_name);
        let rows = t.scan(ranges, ascending);
        proof {
            assert forall|j: int| 0 <= j < rows@.len() implies (#[trigger] rows@[j].1).wf() by {
                crate::memstore::lemma_find_wf(t@, crate::order::key_view(rows@[j].0@));
            }
        }
        self.store.put_table(table_name, t);
        rows
    }
}

} // verus!
