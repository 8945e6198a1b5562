//! The dispatcher: the public API surface of the client.
//!
//! A client owns one table handle per endpoint and a route cache. Each
//! operation's row key is mapped to a partition by the pluggable strategy,
//! the partition is resolved to an endpoint through the cache, and the
//! operation is executed there, retrying up to the configured bound with
//! the stale route dropped first where the server asked for it. An atomic
//! batch whose operations resolve to more than one endpoint is refused
//! before anything reaches the wire.

use vstd::prelude::*;
use vstd::string::StrSliceExecFns;

use crate::error::{Error, UsageKind};
use crate::memstore::ScanRange;
use crate::operation::{ObTableBatchOperation, ObTableOperationType, Operation, TableOpResult};
use crate::proxy::{spec_table_or_empty, Proxy};
use crate::query::{Query, QueryStreamResult};
use crate::row::Row;
use crate::route::{LookupOutcome, RouteCache};
use crate::operation::OperationModel;
use crate::operation::TableOpResultModel;
use crate::table::{spec_batch_outcome, spec_single_outcome, Builder, ObTable};
use crate::value::{Value, ValueModel};
use crate::ClientConfig;

verus! {

/// How a row key picks its partition.
#[derive(Clone, Copy, PartialEq, Eq, Structural, Debug)]
pub enum PartitionStrategy {
    /// Every row of a table lives on one endpoint.
    ByTable,
    /// Rows spread over the endpoints by their first key part.
    ByRowKey,
}

/// The sum of requests all endpoints ever put on the wire.
pub open spec fn sum_rpcs(s: Seq<ObTable>) -> int
    decreases s.len(),
{
    if s.len() == 0 {
        0
    } else {
        s[0].spec_proxy().spec_rpcs() + sum_rpcs(s.skip(1))
    }
}

/// Replacing one endpoint changes the sum by that endpoint's difference.
proof fn lemma_sum_rpcs_update(s: Seq<ObTable>, i: int, t: ObTable)
    requires
        0 <= i < s.len(),
    ensures
        sum_rpcs(s.update(i, t)) == sum_rpcs(s) - s[i].spec_proxy().spec_rpcs()
            + t.spec_proxy().spec_rpcs(),
    decreases s.len(),
{
    if i == 0 {
        assert(s.update(0, t).skip(1) =~= s.skip(1));
    } else {
        assert(s.update(i, t).skip(1) =~= s.skip(1).update(i - 1, t));
        assert(s.skip(1)[i - 1] == s[i]);
        lemma_sum_rpcs_update(s.skip(1), i - 1, t);
    }
}

/// No endpoint's data moved.
pub open spec fn spec_stores_unchanged(pre: Seq<ObTable>, post: Seq<ObTable>) -> bool {
    &&& post.len() == pre.len()
    &&& forall|j: int|
        0 <= j < pre.len() ==> (#[trigger] post[j].spec_store()) == pre[j].spec_store()
}

/// One batch ran at one endpoint and every other endpoint's data stayed
/// put; what the caller got is that endpoint's batch outcome.
pub open spec fn spec_dispatched(pre: Seq<ObTable>, post: Seq<ObTable>, table: Seq<char>,
    ops: Seq<OperationModel>, r: Result<Vec<TableOpResult>, Error>) -> bool {
    exists|ep: int|
        {
            &&& 0 <= ep < pre.len()
            &&& post.len() == pre.len()
            &&& (forall|j: int|
                0 <= j < pre.len() && j != ep ==> (#[trigger] post[j].spec_store())
                    == pre[j].spec_store())
            &&& #[trigger] spec_batch_outcome(
                pre[ep].spec_store(),
                post[ep].spec_store(),
                table,
                ops,
                r,
            )
        }
}

/// One operation stepped one endpoint's partition and every other
/// endpoint's data stayed put; what the caller got is that step's result.
pub open spec fn spec_client_single(pre: Seq<ObTable>, post: Seq<ObTable>, table: Seq<char>,
    op: OperationModel, r: Result<TableOpResultModel, Error>) -> bool {
    exists|ep: int|
        {
            &&& 0 <= ep < pre.len()
            &&& post.len() == pre.len()
            &&& (forall|j: int|
                0 <= j < pre.len() && j != ep ==> (#[trigger] post[j].spec_store())
                    == pre[j].spec_store())
            &&& #[trigger] spec_single_outcome(
                pre[ep].spec_store(),
                post[ep].spec_store(),
                table,
                op,
                r,
            )
        }
}

/// What a query over one partition answers: the cursor's rows are exactly
/// the stored rows whose keys lie in the union of the ranges, projected
/// onto the select list, in the requested key order.
pub open spec fn spec_query_result(tbl: crate::memstore::StoreModel, ranges: Seq<ScanRange>,
    select: Seq<String>, ascending: bool, cur: QueryStreamResult) -> bool {
    &&& cur.spec_keys().len() == cur.spec_rows().len()
    &&& forall|j: int| #![auto]
        0 <= j < cur.spec_keys().len() ==> crate::memstore::in_ranges(
            cur.spec_keys()[j],
            crate::memstore::ranges_view(ranges),
        ) && (crate::memstore::spec_find(tbl, cur.spec_keys()[j]) matches Some(m) && forall|
            c: Seq<char>,
        | #[trigger]
            crate::row::spec_lookup(cur.spec_rows()[j], c) == (if select.len() == 0
                || crate::memstore::col_names(select).contains(c) {
                crate::row::spec_lookup(m, c)
            } else {
                None
            }))
    &&& forall|i: int| #![auto]
        0 <= i < tbl.len() && crate::memstore::in_ranges(
            tbl[i].0,
            crate::memstore::ranges_view(ranges),
        ) ==> exists|j: int|
            0 <= j < cur.spec_keys().len() && cur.spec_keys()[j] == tbl[i].0
    &&& (ascending ==> forall|p1: int, p2: int| #![auto]
        0 <= p1 < p2 < cur.spec_keys().len() ==> crate::order::key_lt(
            cur.spec_keys()[p1],
            cur.spec_keys()[p2],
        ))
    &&& (!ascending ==> forall|p1: int, p2: int| #![auto]
        0 <= p1 < p2 < cur.spec_keys().len() ==> crate::order::key_lt(
            cur.spec_keys()[p2],
            cur.spec_keys()[p1],
        ))
}

/// A non-atomic batch ran one operation at a time, in submission order:
/// `chain` walks the endpoints from before the first operation to after the
/// last, each step dispatching one operation, and `out` collects each
/// step's translated result.
pub open spec fn spec_each_dispatched(chain: Seq<Seq<ObTable>>, table: Seq<char>, ops: Seq<
    OperationModel,
>, out: Seq<TableOpResultModel>) -> bool {
    &&& chain.len() == ops.len() + 1
    &&& out.len() == ops.len()
    &&& forall|i: int|
        0 <= i < ops.len() ==> #[trigger] spec_client_single(
            chain[i],
            chain[i + 1],
            table,
            ops[i],
            Ok(out[i]),
        )
}

/// A non-atomic batch's overall effect: some per-operation chain runs from
/// the endpoints as they were to the endpoints as they are.
pub open spec fn spec_batch_each(pre: Seq<ObTable>, post: Seq<ObTable>, table: Seq<char>,
    ops: Seq<OperationModel>, out: Seq<TableOpResultModel>) -> bool {
    exists|chain: Seq<Seq<ObTable>>| #![auto]
        spec_each_dispatched(chain, table, ops, out) && chain[0] == pre && chain.last() == post
}

/// The model of an operation built from plain arguments.
pub open spec fn spec_op_of(kind: ObTableOperationType, row_key: Seq<Value>, columns: Seq<String>,
    properties: Seq<Value>) -> OperationModel {
    OperationModel {
        op_type: kind,
        row_key: row_key.map_values(|v: Value| v@),
        columns: columns.map_values(|c: String| c@),
        properties: properties.map_values(|v: Value| v@),
    }
}

/// The dispatcher.
pub struct Client {
    config: ClientConfig,
    endpoints: Vec<ObTable>,
    route: RouteCache,
    strategy: PartitionStrategy,
    version_counter: u64,
    now_ms: u64,
}

impl Client {
    pub closed spec fn spec_endpoints(self) -> Seq<ObTable> {
        self.endpoints@
    }

    pub closed spec fn spec_config(self) -> ClientConfig {
        self.config
    }

    pub closed spec fn spec_strategy(self) -> PartitionStrategy {
        self.strategy
    }

    pub closed spec fn wf(self) -> bool {
        &&& self.endpoints@.len() > 0
        &&& forall|i: int| 0 <= i < self.endpoints@.len() ==> (#[trigger] self.endpoints@[i]).wf()
        &&& self.route.wf()
    }

    /// Every endpoint can carry one more request right now: some connection
    /// is ready, under its high-water mark, with an id to give. A fresh
    /// client is sendable; requests consume ids, so a client that has
    /// exhausted an id space may stop being so.
    pub open spec fn spec_sendable(self) -> bool {
        forall|i: int|
            0 <= i < self.spec_endpoints().len() ==> (#[trigger] self.spec_endpoints()[i]).spec_proxy().spec_some_ready()
    }

    /// The partition a row key of `table` belongs to: under the by-table
    /// strategy the table's own hash; under the by-row-key strategy the
    /// first key part decides, an integer by its value and a string by its
    /// first character, so that one table's rows spread over the endpoints.
    pub open spec fn spec_partition_of(self, table: Seq<char>, key: Seq<ValueModel>) -> u64 {
        let n = self.spec_endpoints().len() as u64;
        match self.spec_strategy() {
            PartitionStrategy::ByTable => if table.len() == 0 {
                0u64
            } else {
                (table[0] as u64) % n
            },
            PartitionStrategy::ByRowKey => if key.len() == 0 {
                0u64
            } else {
                match key[0] {
                    ValueModel::Int(x) => (x as u64) % n,
                    ValueModel::Str(s) => if s.len() == 0 {
                        0u64
                    } else {
                        (s[0] as u64) % n
                    },
                    _ => 0u64,
                }
            },
        }
    }

    /// A client over `num_endpoints` in-process endpoints.
    pub fn new(num_endpoints: usize, config: ClientConfig, strategy: PartitionStrategy) -> (c:
        Client)
        requires
            num_endpoints > 0,
            config.connection_pool_size > 0,
        ensures
            c.wf(),
            c.spec_endpoints().len() == num_endpoints,
            c.spec_strategy() == strategy,
            c.spec_sendable(),
            c.spec_config() == config,
            sum_rpcs(c.spec_endpoints()) == 0,
    {
        let mut endpoints: Vec<ObTable> = Vec::new();
        let mut i: usize = 0;
        while i < num_endpoints
            invariant
                i <= num_endpoints,
                endpoints@.len() == i,
                config.connection_pool_size > 0,
                forall|j: int|
                    0 <= j < i ==> (#[trigger] endpoints@[j]).wf()
                        && endpoints@[j].spec_proxy().spec_rpcs() == 0
                        && endpoints@[j].spec_proxy().spec_some_ready(),
            decreases num_endpoints - i,
        {
            let mut proxy = Proxy::new(config.connection_pool_size, 1024);
            proxy.connect_all();
            proof {
                assert(proxy.spec_some_ready()) by {
                    assert(proxy.spec_connections()[0].spec_state() is Ready);
                    assert(crate::proxy::usable(proxy.spec_connections()[0]));
                }
            }
            let built = Builder::new("127.0.0.1", 2881).config(&config).tenant_name(
                "sys",
            ).user_name("root").database("test").rpc_proxy(proxy).build();
            let t = match built {
                Ok(t) => t,
                Err(_) => {
                    proof {
                        assert(false);
                    }
                    vstd::pervasive::unreached()
                },
            };
            endpoints.push(t);
            i += 1;
        }
        proof {
            lemma_sum_rpcs_zero(endpoints@);
        }
        Client {
            config,
            endpoints,
            route: RouteCache::new(),
            strategy,
            version_counter: 0,
            now_ms: 0,
        }
    }

    /// How many requests all endpoints together ever put on the wire: the
    /// count the retry bound speaks of.
    pub fn total_rpcs(&self) -> (n: u64)
        requires
            self.wf(),
            sum_rpcs(self.spec_endpoints()) <= u64::MAX,
        ensures
            n == sum_rpcs(self.spec_endpoints()),
    {
        let mut n: u64 = 0;
        let mut i: usize = 0;
        proof {
            assert(self.endpoints@.subrange(0, 0) =~= Seq::<ObTable>::empty());
        }
        while i < self.endpoints.len()
            invariant
                self.wf(),
                sum_rpcs(self.endpoints@) <= u64::MAX,
                i <= self.endpoints@.len(),
                n == sum_rpcs(self.endpoints@.subrange(0, i as int)),
            decreases self.endpoints@.len() - i,
        {
            proof {
                lemma_sum_rpcs_split(self.endpoints@, i as int);
                lemma_sum_rpcs_split(self.endpoints@, i as int + 1);
                assert(self.endpoints@.skip(i as int)[0] == self.endpoints@[i as int]);
                assert(self.endpoints@.skip(i as int).skip(1) =~= self.endpoints@.skip(
                    i as int + 1,
                ));
                lemma_sum_rpcs_nonneg(self.endpoints@.skip(i as int + 1));
                lemma_sum_rpcs_nonneg(self.endpoints@.subrange(0, i as int));
            }
            n = n + self.endpoints[i].rpcs_sent();
            i += 1;
        }
        proof {
            assert(self.endpoints@.subrange(0, self.endpoints@.len() as int) =~= self.endpoints@);
        }
        n
    }

    /// The partition of a row key, executably.
    pub fn partition_of(&self, table: &str, key: &Vec<Value>) -> (p: u64)
        requires
            self.wf(),
        ensures
            p == self.spec_partition_of(table@, crate::order::key_view(key@)),
    {
        let n = self.endpoints.len() as u64;
        match self.strategy {
            PartitionStrategy::ByTable => {
                if table.unicode_len() == 0 {
                    0
                } else {
                    (table.get_char(0) as u64) % n
                }
            },
            PartitionStrategy::ByRowKey => {
                if key.len() == 0 {
                    0
                } else {
                    proof {
                        assert(crate::order::key_view(key@)[0] == key@[0]@);
                    }
                    match &key[0] {
                        Value::Int(x) => ((*x) as u64) % n,
                        Value::Str(s) => {
                            if s.as_str().unicode_len() == 0 {
                                0
                            } else {
                                (s.as_str().get_char(0) as u64) % n
                            }
                        },
                        _ => 0,
                    }
                }
            },
        }
    }

    /// Resolves a partition to its endpoint through the route cache. A
    /// miss performs the one metadata refresh and installs the fresh route
    /// with a bumped version and the configured time-to-live.
    fn resolve(&mut self, p: u64) -> (ep: usize)
        requires
            old(self).wf(),
        ensures
            final(self).wf(),
            ep < final(self).spec_endpoints().len(),
            final(self).spec_endpoints() == old(self).spec_endpoints(),
            final(self).spec_config() == old(self).spec_config(),
            final(self).spec_strategy() == old(self).spec_strategy(),
    {
        let n = self.endpoints.len();
        match self.route.lookup(p, self.now_ms) {
            LookupOutcome::Hit(ep) => {
                if ep < n {
                    return ep;
                }
                // A stale route pointing past the pool is dropped.
                self.route.invalidate(p);
                (p % (n as u64)) as usize
            },
            LookupOutcome::MustAwait => {
                // Another caller owns the refresh and will install its
                // result; route by the strategy meanwhile, leaving the
                // owner's in-flight marker alone.
                let ep = (p % (n as u64)) as usize;
                proof {
                    assert((p % (n as u64)) < (n as u64)) by (nonlinear_arith)
                        requires
                            n > 0,
                    ;
                }
                ep
            },
            LookupOutcome::StartRefresh => {
                // This caller owns the refresh: one metadata request, then
                // the result is installed for everyone.
                let ep = (p % (n as u64)) as usize;
                self.bump_version();
                let v = self.version_counter;
                let exp = self.expiry();
                self.route.install(p, ep, v, exp);
                proof {
                    assert((p % (n as u64)) < (n as u64)) by (nonlinear_arith)
                        requires
                            n > 0,
                    ;
                }
                ep
            },
        }
    }

    /// The next route version.
    fn bump_version(&mut self)
        requires
            old(self).wf(),
        ensures
            final(self).wf(),
            final(self).spec_endpoints() == old(self).spec_endpoints(),
            final(self).spec_config() == old(self).spec_config(),
            final(self).spec_strategy() == old(self).spec_strategy(),
    {
        if self.version_counter < u64::MAX {
            self.version_counter = self.version_counter + 1;
        }
    }

    /// When a route installed now expires.
    fn expiry(&self) -> (t: u64)
    {
        if self.now_ms <= u64::MAX - self.config.metadata_refresh_interval {
            self.now_ms + self.config.metadata_refresh_interval
        } else {
            u64::MAX
        }
    }

    /// Moves the client's clock, as the host observes time passing; cached
    /// routes expire lazily against it.
    pub fn advance_time(&mut self, ms: u64)
        requires
            old(self).wf(),
        ensures
            final(self).wf(),
            final(self).spec_endpoints() == old(self).spec_endpoints(),
            final(self).spec_config() == old(self).spec_config(),
            final(self).spec_strategy() == old(self).spec_strategy(),
    {
        if self.now_ms <= u64::MAX - ms {
            self.now_ms = self.now_ms + ms;
        } else {
            self.now_ms = u64::MAX;
        }
    }

    /// Executes one request against the endpoint its partition resolves
    /// to, retrying a retriable failure up to `runtime_retry_times` more
    /// times, with the stale route dropped first where the server said the
    /// partition moved. No call puts more than `runtime_retry_times + 1`
    /// requests on the wire.
    pub fn execute_with_retry(&mut self, table: &str, batch: &ObTableBatchOperation,
        partition: u64) -> (r: Result<Vec<TableOpResult>, Error>)
        requires
            old(self).wf(),
            forall|i: int| 0 <= i < batch@.len() ==> (#[trigger] batch@[i]).wf(),
        ensures
            final(self).wf(),
            final(self).spec_endpoints().len() == old(self).spec_endpoints().len(),
            final(self).spec_config() == old(self).spec_config(),
            final(self).spec_strategy() == old(self).spec_strategy(),
            sum_rpcs(final(self).spec_endpoints()) <= sum_rpcs(old(self).spec_endpoints()) + old(self).spec_config().runtime_retry_times + 1,
            r matches Ok(out) ==> out@.len() == batch@.len() && forall|i: int|
                0 <= i < batch@.len() ==> ((#[trigger] out@[i]@) is RetrieveRows <==> batch@[i].op_type
                    == ObTableOperationType::Get),
            (r is Ok || (r matches Err(e) && e matches Error::Server(_, _))) ==> spec_dispatched(
                old(self).spec_endpoints(),
                final(self).spec_endpoints(),
                table@,
                batch@,
                r,
            ),
            batch@.len() == 1 ==> match r {
                Ok(out) => out@.len() == 1 && spec_client_single(
                    old(self).spec_endpoints(),
                    final(self).spec_endpoints(),
                    table@,
                    batch@[0],
                    Ok(out@[0]@),
                ),
                Err(e) => (e matches Error::Server(_, _)) ==> spec_client_single(
                    old(self).spec_endpoints(),
                    final(self).spec_endpoints(),
                    table@,
                    batch@[0],
                    Err(e),
                ),
            },
            match r {
                Err(e) => e is NotConnected || e is Congestion || e matches Error::Transport(_)
                    || e matches Error::Server(_, _),
                Ok(_) => true,
            },
            match r {
                Err(Error::Server(code, _)) => code.spec_errno() == -5024i32 || code.spec_errno()
                    == -5023i32,
                _ => true,
            },
            match r {
                Err(e) => (e is NotConnected || e is Congestion || e matches Error::Transport(_))
                    ==> spec_stores_unchanged(
                    old(self).spec_endpoints(),
                    final(self).spec_endpoints(),
                ),
                Ok(_) => true,
            },
            old(self).spec_sendable() ==> (r is Ok || (r matches Err(e)
                && e matches Error::Server(_, _))),
    {
        let retries = self.config.runtime_retry_times;
        let mut attempt: u64 = 0;
        loop
            invariant
                self.wf(),
                self.config == old(self).spec_config(),
                self.strategy == old(self).spec_strategy(),
                self.endpoints@.len() == old(self).spec_endpoints().len(),
                retries == old(self).spec_config().runtime_retry_times,
                attempt <= retries,
                forall|i: int| 0 <= i < batch@.len() ==> (#[trigger] batch@[i]).wf(),
                sum_rpcs(self.endpoints@) <= sum_rpcs(old(self).spec_endpoints()) + attempt,
                spec_stores_unchanged(old(self).spec_endpoints(), self.endpoints@),
                attempt == 0 ==> self.endpoints@ == old(self).spec_endpoints(),
                attempt > 0 ==> !old(self).spec_sendable(),
            decreases retries - attempt,
        {
            let ep = self.resolve(partition);
            let ghost eps_pre = self.endpoints@;
            let mut t = self.endpoints.remove(ep);
            let out = t.execute_batch_ref(table, batch);
            let ghost t_now = t;
            self.endpoints.insert(ep, t);
            proof {
                assert(self.endpoints@ =~= eps_pre.update(ep as int, t_now));
                lemma_sum_rpcs_update(eps_pre, ep as int, t_now);
                assert forall|j: int|
                    0 <= j < self.endpoints@.len() implies (#[trigger] self.endpoints@[j]).wf() by {
                    if j != ep {
                        assert(self.endpoints@[j] == eps_pre[j]);
                    }
                }
            }
            let transient = matches!(&out, Err(Error::NotConnected) | Err(Error::Congestion)
                | Err(Error::Transport(_)));
            if !transient {
                // Success, or a server exception surfaced as-is with its
                // code and message. A stale-route code would first drop the
                // cached route; the endpoint's contract confines server
                // codes here to duplicate-key and object-type errors, which
                // never retry.
                match &out {
                    Err(e) => if e.invalidates_route() {
                        self.route.invalidate(partition);
                    },
                    Ok(_) => (),
                }
                proof {
                    let pre_eps = old(self).spec_endpoints();
                    assert(eps_pre[ep as int].spec_store() == pre_eps[ep as int].spec_store());
                    let is_sv = match &out {
                        Err(Error::Server(_, _)) => true,
                        _ => false,
                    };
                    if out is Ok || is_sv {
                        assert(spec_batch_outcome(pre_eps[ep as int].spec_store(),
                        self.endpoints@[ep as int].spec_store(), table@, batch@, out));
                        assert(spec_dispatched(pre_eps, self.endpoints@, table@, batch@, out));
                        if batch@.len() == 1 {
                            match &out {
                                Ok(outv) => {
                                    assert(spec_single_outcome(pre_eps[ep as int].spec_store(),
                                    self.endpoints@[ep as int].spec_store(), table@, batch@[0],
                                    Ok(outv@[0]@)));
                                    assert(spec_client_single(pre_eps, self.endpoints@, table@,
                                    batch@[0], Ok(outv@[0]@)));
                                },
                                Err(e) => {
                                    if e matches Error::Server(_, _) {
                                        assert(spec_single_outcome(
                                            pre_eps[ep as int].spec_store(),
                                            self.endpoints@[ep as int].spec_store(),
                                            table@,
                                            batch@[0],
                                            Err(*e),
                                        ));
                                        assert(spec_client_single(pre_eps, self.endpoints@,
                                        table@, batch@[0], Err(*e)));
                                    }
                                },
                            }
                        }
                    }
                }
                return out;
            }
            // A transport-level failure left the endpoint's data untouched;
            // retry on a fresh resolution while the budget lasts.
            proof {
                if attempt == 0 && old(self).spec_sendable() {
                    assert(eps_pre[ep as int].spec_proxy().spec_some_ready());
                    assert(false);
                }
            }
            match out {
                Err(e) => {
                    if attempt < retries {
                        attempt = attempt + 1;
                    } else {
                        return Err(e);
                    }
                },
                Ok(_) => {
                    proof {
                        assert(false);
                    }
                    return Err(Error::NotConnected);
                },
            }
        }
    }
}

impl Client {
    /// Whether an atomic batch's operations resolve to more than one
    /// partition.
    pub open spec fn spec_cross_partition(self, table: Seq<char>, ops: Seq<
        crate::operation::OperationModel,
    >) -> bool {
        exists|i: int, j: int|
            0 <= i < ops.len() && 0 <= j < ops.len() && self.spec_partition_of(
                table,
                (#[trigger] ops[i]).row_key,
            ) != self.spec_partition_of(table, (#[trigger] ops[j]).row_key)
    }

    /// Runs one operation, retried per the policy.
    fn run_one(&mut self, table: &str, op: Operation) -> (r: Result<TableOpResult, Error>)
        requires
            old(self).wf(),
            op@.wf(),
        ensures
            final(self).wf(),
            final(self).spec_endpoints().len() == old(self).spec_endpoints().len(),
            final(self).spec_config() == old(self).spec_config(),
            final(self).spec_strategy() == old(self).spec_strategy(),
            sum_rpcs(final(self).spec_endpoints()) <= sum_rpcs(old(self).spec_endpoints()) + old(self).spec_config().runtime_retry_times + 1,
            r matches Ok(out) ==> (out@ is RetrieveRows <==> op@.op_type
                == ObTableOperationType::Get),
            match r {
                Ok(out) => spec_client_single(
                    old(self).spec_endpoints(),
                    final(self).spec_endpoints(),
                    table@,
                    op@,
                    Ok(out@),
                ),
                Err(e) => (e matches Error::Server(_, _)) ==> spec_client_single(
                    old(self).spec_endpoints(),
                    final(self).spec_endpoints(),
                    table@,
                    op@,
                    Err(e),
                ),
            },
            match r {
                Err(e) => e is NotConnected || e is Congestion || e matches Error::Transport(_)
                    || e matches Error::Server(_, _),
                Ok(_) => true,
            },
            match r {
                Err(Error::Server(code, _)) => code.spec_errno() == -5024i32 || code.spec_errno()
                    == -5023i32,
                _ => true,
            },
            match r {
                Err(e) => (e is NotConnected || e is Congestion || e matches Error::Transport(_))
                    ==> spec_stores_unchanged(
                    old(self).spec_endpoints(),
                    final(self).spec_endpoints(),
                ),
                Ok(_) => true,
            },
            old(self).spec_sendable() ==> (r is Ok || (r matches Err(e)
                && e matches Error::Server(_, _))),
    {
        let key = op.row_key();
        let partition = self.partition_of(table, &key);
        let mut b = ObTableBatchOperation::new();
        let ghost opm = op@;
        b.add_op(op);
        proof {
            assert(b@ =~= seq![opm]);
        }
        let out = self.execute_with_retry(table, &b, partition);
        match out {
            Ok(mut v) => {
                proof {
                    assert(v@.len() == 1);
                }
                let one = v.remove(0);
                proof {
                    assert(spec_client_single(old(self).spec_endpoints(),
                    self.spec_endpoints(), table@, opm, Ok(one@)));
                }
                Ok(one)
            },
            Err(e) => Err(e),
        }
    }

    /// Reads the listed columns of the row under `row_key`; every column
    /// when the list is empty. A missing row reads as an empty row.
    pub fn get(&mut self, table: &str, row_key: Vec<Value>, columns: Vec<String>) -> (r: Result<
        Row,
        Error,
    >)
        requires
            old(self).wf(),
        ensures
            final(self).wf(),
            sum_rpcs(final(self).spec_endpoints()) <= sum_rpcs(old(self).spec_endpoints()) + old(self).spec_config().runtime_retry_times + 1,
            match r {
                Ok(row) => spec_client_single(
                    old(self).spec_endpoints(),
                    final(self).spec_endpoints(),
                    table@,
                    spec_op_of(ObTableOperationType::Get, row_key@, columns@, Seq::empty()),
                    Ok(TableOpResultModel::RetrieveRows(row@)),
                ),
                Err(e) => (e matches Error::Server(_, _)) ==> spec_client_single(
                    old(self).spec_endpoints(),
                    final(self).spec_endpoints(),
                    table@,
                    spec_op_of(ObTableOperationType::Get, row_key@, columns@, Seq::empty()),
                    Err(e),
                ),
            },
            match r {
                Err(e) => e is NotConnected || e is Congestion || e matches Error::Transport(_)
                    || e matches Error::Server(_, _),
                Ok(_) => true,
            },
            match r {
                Err(Error::Server(code, _)) => code.spec_errno() == -5024i32 || code.spec_errno()
                    == -5023i32,
                _ => true,
            },
            match r {
                Err(e) => !(e matches Error::Server(_, _)) ==> spec_stores_unchanged(
                    old(self).spec_endpoints(),
                    final(self).spec_endpoints(),
                ),
                Ok(_) => true,
            },
            old(self).spec_sendable() ==> (r is Ok || (r matches Err(e)
                && e matches Error::Server(_, _))),
    {
        let props: Vec<Value> = Vec::new();
        proof {
            assert(props@ =~= Seq::<Value>::empty());
        }
        let op = match Operation::new(ObTableOperationType::Get, row_key, columns, props) {
            Ok(op) => op,
            Err(_) => {
                proof {
                    assert(false);
                }
                vstd::pervasive::unreached()
            },
        };
        let ghost opm = op@;
        proof {
            assert(opm == spec_op_of(ObTableOperationType::Get, row_key@, columns@, Seq::empty()));
        }
        match self.run_one(table, op) {
            Ok(TableOpResult::RetrieveRows(row)) => Ok(row),
            Ok(TableOpResult::AffectedRows(_)) => {
                proof {
                    assert(false);
                }
                Err(Error::NotConnected)
            },
            Err(e) => Err(e),
        }
    }

    /// Runs one write of the given kind, answering the affected count.
    fn write_one(&mut self, kind: ObTableOperationType, table: &str, row_key: Vec<Value>,
        columns: Vec<String>, properties: Vec<Value>) -> (r: Result<u64, Error>)
        requires
            old(self).wf(),
            kind != ObTableOperationType::Get,
            kind != ObTableOperationType::Del,
        ensures
            final(self).wf(),
            sum_rpcs(final(self).spec_endpoints()) <= sum_rpcs(old(self).spec_endpoints()) + old(self).spec_config().runtime_retry_times + 1,
            columns@.len() != properties@.len() ==> r == Err::<u64, Error>(
                Error::Usage(UsageKind::InvalidParam),
            ) && *final(self) == *old(self),
            match r {
                Ok(n) => spec_client_single(
                    old(self).spec_endpoints(),
                    final(self).spec_endpoints(),
                    table@,
                    spec_op_of(kind, row_key@, columns@, properties@),
                    Ok(TableOpResultModel::AffectedRows(n)),
                ),
                Err(e) => (e matches Error::Server(_, _)) ==> spec_client_single(
                    old(self).spec_endpoints(),
                    final(self).spec_endpoints(),
                    table@,
                    spec_op_of(kind, row_key@, columns@, properties@),
                    Err(e),
                ),
            },
            match r {
                Err(e) => e is NotConnected || e is Congestion || e matches Error::Transport(_)
                    || e matches Error::Server(_, _) || e == Error::Usage(UsageKind::InvalidParam),
                Ok(_) => true,
            },
            match r {
                Err(Error::Server(code, _)) => code.spec_errno() == -5024i32 || code.spec_errno()
                    == -5023i32,
                _ => true,
            },
            match r {
                Err(e) => !(e matches Error::Server(_, _)) ==> spec_stores_unchanged(
                    old(self).spec_endpoints(),
                    final(self).spec_endpoints(),
                ),
                Ok(_) => true,
            },
            old(self).spec_sendable() && columns@.len() == properties@.len() ==> (r is Ok || (
            r matches Err(e) && e matches Error::Server(_, _))),
    {
        let op = match Operation::new(kind, row_key, columns, properties) {
            Ok(op) => op,
            Err(e) => {
                return Err(e);
            },
        };
        match self.run_one(table, op) {
            Ok(TableOpResult::AffectedRows(n)) => Ok(n),
            Ok(TableOpResult::RetrieveRows(_)) => {
                proof {
                    assert(false);
                }
                Err(Error::NotConnected)
            },
            Err(e) => Err(e),
        }
    }

    /// Stores a fresh row; a duplicate key surfaces the server's code.
    pub fn insert(&mut self, table: &str, row_key: Vec<Value>, columns: Vec<String>,
        properties: Vec<Value>) -> (r: Result<u64, Error>)
        requires
            old(self).wf(),
        ensures
            final(self).wf(),
            sum_rpcs(final(self).spec_endpoints()) <= sum_rpcs(old(self).spec_endpoints()) + old(self).spec_config().runtime_retry_times + 1,
            columns@.len() != properties@.len() ==> r == Err::<u64, Error>(
                Error::Usage(UsageKind::InvalidParam),
            ) && *final(self) == *old(self),
            match r {
                Ok(n) => spec_client_single(
                    old(self).spec_endpoints(),
                    final(self).spec_endpoints(),
                    table@,
                    spec_op_of(ObTableOperationType::Insert, row_key@, columns@, properties@),
                    Ok(TableOpResultModel::AffectedRows(n)),
                ),
                Err(e) => (e matches Error::Server(_, _)) ==> spec_client_single(
                    old(self).spec_endpoints(),
                    final(self).spec_endpoints(),
                    table@,
                    spec_op_of(ObTableOperationType::Insert, row_key@, columns@, properties@),
                    Err(e),
                ),
            },
            match r {
                Err(e) => e is NotConnected || e is Congestion || e matches Error::Transport(_)
                    || e matches Error::Server(_, _) || e == Error::Usage(UsageKind::InvalidParam),
                Ok(_) => true,
            },
            match r {
                Err(Error::Server(code, _)) => code.spec_errno() == -5024i32 || code.spec_errno()
                    == -5023i32,
                _ => true,
            },
            match r {
                Err(e) => !(e matches Error::Server(_, _)) ==> spec_stores_unchanged(
                    old(self).spec_endpoints(),
                    final(self).spec_endpoints(),
                ),
                Ok(_) => true,
            },
            old(self).spec_sendable() && columns@.len() == properties@.len() ==> (r is Ok || (
            r matches Err(e) && e matches Error::Server(_, _))),
    {
        self.write_one(ObTableOperationType::Insert, table, row_key, columns, properties)
    }

    /// Writes the listed columns of an existing row.
    pub fn update(&mut self, table: &str, row_key: Vec<Value>, columns: Vec<String>,
        properties: Vec<Value>) -> (r: Result<u64, Error>)
        requires
            old(self).wf(),
        ensures
            final(self).wf(),
            sum_rpcs(final(self).spec_endpoints()) <= sum_rpcs(old(self).spec_endpoints()) + old(self).spec_config().runtime_retry_times + 1,
            columns@.len() != properties@.len() ==> r == Err::<u64, Error>(
                Error::Usage(UsageKind::InvalidParam),
            ) && *final(self) == *old(self),
            match r {
                Ok(n) => spec_client_single(
                    old(self).spec_endpoints(),
                    final(self).spec_endpoints(),
                    table@,
                    spec_op_of(ObTableOperationType::Update, row_key@, columns@, properties@),
                    Ok(TableOpResultModel::AffectedRows(n)),
                ),
                Err(e) => (e matches Error::Server(_, _)) ==> spec_client_single(
                    old(self).spec_endpoints(),
                    final(self).spec_endpoints(),
                    table@,
                    spec_op_of(ObTableOperationType::Update, row_key@, columns@, properties@),
                    Err(e),
                ),
            },
            match r {
                Err(e) => e is NotConnected || e is Congestion || e matches Error::Transport(_)
                    || e matches Error::Server(_, _) || e == Error::Usage(UsageKind::InvalidParam),
                Ok(_) => true,
            },
            match r {
                Err(Error::Server(code, _)) => code.spec_errno() == -5024i32 || code.spec_errno()
                    == -5023i32,
                _ => true,
            },
            match r {
                Err(e) => !(e matches Error::Server(_, _)) ==> spec_stores_unchanged(
                    old(self).spec_endpoints(),
                    final(self).spec_endpoints(),
                ),
                Ok(_) => true,
            },
            old(self).spec_sendable() && columns@.len() == properties@.len() ==> (r is Ok || (
            r matches Err(e) && e matches Error::Server(_, _))),
    {
        self.write_one(ObTableOperationType::Update, table, row_key, columns, properties)
    }

    /// Replaces the row wholesale, or stores it fresh.
    pub fn replace(&mut self, table: &str, row_key: Vec<Value>, columns: Vec<String>,
        properties: Vec<Value>) -> (r: Result<u64, Error>)
        requires
            old(self).wf(),
        ensures
            final(self).wf(),
            sum_rpcs(final(self).spec_endpoints()) <= sum_rpcs(old(self).spec_endpoints()) + old(self).spec_config().runtime_retry_times + 1,
            columns@.len() != properties@.len() ==> r == Err::<u64, Error>(
                Error::Usage(UsageKind::InvalidParam),
            ) && *final(self) == *old(self),
            match r {
                Ok(n) => spec_client_single(
                    old(self).spec_endpoints(),
                    final(self).spec_endpoints(),
                    table@,
                    spec_op_of(ObTableOperationType::Replace, row_key@, columns@, properties@),
                    Ok(TableOpResultModel::AffectedRows(n)),
                ),
                Err(e) => (e matches Error::Server(_, _)) ==> spec_client_single(
                    old(self).spec_endpoints(),
                    final(self).spec_endpoints(),
                    table@,
                    spec_op_of(ObTableOperationType::Replace, row_key@, columns@, properties@),
                    Err(e),
                ),
            },
            match r {
                Err(e) => e is NotConnected || e is Congestion || e matches Error::Transport(_)
                    || e matches Error::Server(_, _) || e == Error::Usage(UsageKind::InvalidParam),
                Ok(_) => true,
            },
            match r {
                Err(Error::Server(code, _)) => code.spec_errno() == -5024i32 || code.spec_errno()
                    == -5023i32,
                _ => true,
            },
            match r {
                Err(e) => !(e matches Error::Server(_, _)) ==> spec_stores_unchanged(
                    old(self).spec_endpoints(),
                    final(self).spec_endpoints(),
                ),
                Ok(_) => true,
            },
            old(self).spec_sendable() && columns@.len() == properties@.len() ==> (r is Ok || (
            r matches Err(e) && e matches Error::Server(_, _))),
    {
        self.write_one(ObTableOperationType::Replace, table, row_key, columns, properties)
    }

    /// Writes the listed columns, creating the row when it is missing.
    pub fn insert_or_update(&mut self, table: &str, row_key: Vec<Value>, columns: Vec<String>,
        properties: Vec<Value>) -> (r: Result<u64, Error>)
        requires
            old(self).wf(),
        ensures
            final(self).wf(),
            sum_rpcs(final(self).spec_endpoints()) <= sum_rpcs(old(self).spec_endpoints()) + old(self).spec_config().runtime_retry_times + 1,
            columns@.len() != properties@.len() ==> r == Err::<u64, Error>(
                Error::Usage(UsageKind::InvalidParam),
            ) && *final(self) == *old(self),
            match r {
                Ok(n) => spec_client_single(
                    old(self).spec_endpoints(),
                    final(self).spec_endpoints(),
                    table@,
                    spec_op_of(ObTableOperationType::InsertOrUpdate, row_key@, columns@, properties@),
                    Ok(TableOpResultModel::AffectedRows(n)),
                ),
                Err(e) => (e matches Error::Server(_, _)) ==> spec_client_single(
                    old(self).spec_endpoints(),
                    final(self).spec_endpoints(),
                    table@,
                    spec_op_of(ObTableOperationType::InsertOrUpdate, row_key@, columns@, properties@),
                    Err(e),
                ),
            },
            match r {
                Err(e) => e is NotConnected || e is Congestion || e matches Error::Transport(_)
                    || e matches Error::Server(_, _) || e == Error::Usage(UsageKind::InvalidParam),
                Ok(_) => true,
            },
            match r {
                Err(Error::Server(code, _)) => code.spec_errno() == -5024i32 || code.spec_errno()
                    == -5023i32,
                _ => true,
            },
            match r {
                Err(e) => !(e matches Error::Server(_, _)) ==> spec_stores_unchanged(
                    old(self).spec_endpoints(),
                    final(self).spec_endpoints(),
                ),
                Ok(_) => true,
            },
            old(self).spec_sendable() && columns@.len() == properties@.len() ==> (r is Ok || (
            r matches Err(e) && e matches Error::Server(_, _))),
    {
        self.write_one(ObTableOperationType::InsertOrUpdate, table, row_key, columns, properties)
    }

    /// Joins string deltas onto the listed columns.
    pub fn append(&mut self, table: &str, row_key: Vec<Value>, columns: Vec<String>,
        properties: Vec<Value>) -> (r: Result<u64, Error>)
        requires
            old(self).wf(),
        ensures
            final(self).wf(),
            sum_rpcs(final(self).spec_endpoints()) <= sum_rpcs(old(self).spec_endpoints()) + old(self).spec_config().runtime_retry_times + 1,
            columns@.len() != properties@.len() ==> r == Err::<u64, Error>(
                Error::Usage(UsageKind::InvalidParam),
            ) && *final(self) == *old(self),
            match r {
                Ok(n) => spec_client_single(
                    old(self).spec_endpoints(),
                    final(self).spec_endpoints(),
                    table@,
                    spec_op_of(ObTableOperationType::Append, row_key@, columns@, properties@),
                    Ok(TableOpResultModel::AffectedRows(n)),
                ),
                Err(e) => (e matches Error::Server(_, _)) ==> spec_client_single(
                    old(self).spec_endpoints(),
                    final(self).spec_endpoints(),
                    table@,
                    spec_op_of(ObTableOperationType::Append, row_key@, columns@, properties@),
                    Err(e),
                ),
            },
            match r {
                Err(e) => e is NotConnected || e is Congestion || e matches Error::Transport(_)
                    || e matches Error::Server(_, _) || e == Error::Usage(UsageKind::InvalidParam),
                Ok(_) => true,
            },
            match r {
                Err(Error::Server(code, _)) => code.spec_errno() == -5024i32 || code.spec_errno()
                    == -5023i32,
                _ => true,
            },
            match r {
                Err(e) => !(e matches Error::Server(_, _)) ==> spec_stores_unchanged(
                    old(self).spec_endpoints(),
                    final(self).spec_endpoints(),
                ),
                Ok(_) => true,
            },
            old(self).spec_sendable() && columns@.len() == properties@.len() ==> (r is Ok || (
            r matches Err(e) && e matches Error::Server(_, _))),
    {
        self.write_one(ObTableOperationType::Append, table, row_key, columns, properties)
    }

    /// Accumulates integer deltas into the listed columns.
    pub fn increment(&mut self, table: &str, row_key: Vec<Value>, columns: Vec<String>,
        properties: Vec<Value>) -> (r: Result<u64, Error>)
        requires
            old(self).wf(),
        ensures
            final(self).wf(),
            sum_rpcs(final(self).spec_endpoints()) <= sum_rpcs(old(self).spec_endpoints()) + old(self).spec_config().runtime_retry_times + 1,
            columns@.len() != properties@.len() ==> r == Err::<u64, Error>(
                Error::Usage(UsageKind::InvalidParam),
            ) && *final(self) == *old(self),
            match r {
                Ok(n) => spec_client_single(
                    old(self).spec_endpoints(),
                    final(self).spec_endpoints(),
                    table@,
                    spec_op_of(ObTableOperationType::Increment, row_key@, columns@, properties@),
                    Ok(TableOpResultModel::AffectedRows(n)),
                ),
                Err(e) => (e matches Error::Server(_, _)) ==> spec_client_single(
                    old(self).spec_endpoints(),
                    final(self).spec_endpoints(),
                    table@,
                    spec_op_of(ObTableOperationType::Increment, row_key@, columns@, properties@),
                    Err(e),
                ),
            },
            match r {
                Err(e) => e is NotConnected || e is Congestion || e matches Error::Transport(_)
                    || e matches Error::Server(_, _) || e == Error::Usage(UsageKind::InvalidParam),
                Ok(_) => true,
            },
            match r {
                Err(Error::Server(code, _)) => code.spec_errno() == -5024i32 || code.spec_errno()
                    == -5023i32,
                _ => true,
            },
            match r {
                Err(e) => !(e matches Error::Server(_, _)) ==> spec_stores_unchanged(
                    old(self).spec_endpoints(),
                    final(self).spec_endpoints(),
                ),
                Ok(_) => true,
            },
            old(self).spec_sendable() && columns@.len() == properties@.len() ==> (r is Ok || (
            r matches Err(e) && e matches Error::Server(_, _))),
    {
        self.write_one(ObTableOperationType::Increment, table, row_key, columns, properties)
    }

    /// Removes the row under `row_key`, answering how many rows went away.
    pub fn delete(&mut self, table: &str, row_key: Vec<Value>) -> (r: Result<u64, Error>)
        requires
            old(self).wf(),
        ensures
            final(self).wf(),
            sum_rpcs(final(self).spec_endpoints()) <= sum_rpcs(old(self).spec_endpoints()) + old(self).spec_config().runtime_retry_times + 1,
            match r {
                Ok(n) => spec_client_single(
                    old(self).spec_endpoints(),
                    final(self).spec_endpoints(),
                    table@,
                    spec_op_of(ObTableOperationType::Del, row_key@, Seq::empty(), Seq::empty()),
                    Ok(TableOpResultModel::AffectedRows(n)),
                ),
                Err(e) => (e matches Error::Server(_, _)) ==> spec_client_single(
                    old(self).spec_endpoints(),
                    final(self).spec_endpoints(),
                    table@,
                    spec_op_of(ObTableOperationType::Del, row_key@, Seq::empty(), Seq::empty()),
                    Err(e),
                ),
            },
            match r {
                Err(e) => e is NotConnected || e is Congestion || e matches Error::Transport(_)
                    || e matches Error::Server(_, _),
                Ok(_) => true,
            },
            match r {
                Err(Error::Server(code, _)) => code.spec_errno() == -5024i32 || code.spec_errno()
                    == -5023i32,
                _ => true,
            },
            match r {
                Err(e) => !(e matches Error::Server(_, _)) ==> spec_stores_unchanged(
                    old(self).spec_endpoints(),
                    final(self).spec_endpoints(),
                ),
                Ok(_) => true,
            },
            old(self).spec_sendable() ==> (r is Ok || (r matches Err(e)
                && e matches Error::Server(_, _))),
    {
        let cols: Vec<String> = Vec::new();
        let props: Vec<Value> = Vec::new();
        proof {
            assert(cols@ =~= Seq::<String>::empty());
            assert(props@ =~= Seq::<Value>::empty());
        }
        let op = match Operation::new(ObTableOperationType::Del, row_key, cols, props) {
            Ok(op) => op,
            Err(_) => {
                proof {
                    assert(false);
                }
                vstd::pervasive::unreached()
            },
        };
        match self.run_one(table, op) {
            Ok(TableOpResult::AffectedRows(n)) => Ok(n),
            Ok(TableOpResult::RetrieveRows(_)) => {
                proof {
                    assert(false);
                }
                Err(Error::NotConnected)
            },
            Err(e) => Err(e),
        }
    }

    /// Executes a batch. An atomic batch whose operations resolve to more
    /// than one endpoint is refused with a cross-partition error before any
    /// request reaches the wire; otherwise the results come back one per
    /// operation, in submission order: rows for a get, an affected count
    /// for a write.
    pub fn batch(&mut self, table: &str, batch_op: ObTableBatchOperation) -> (r: Result<
        Vec<TableOpResult>,
        Error,
    >)
        requires
            old(self).wf(),
            forall|i: int| 0 <= i < batch_op@.len() ==> (#[trigger] batch_op@[i]).wf(),
        ensures
            final(self).wf(),
            batch_op.spec_atomic() && old(self).spec_cross_partition(table@, batch_op@) ==> r
                == Err::<Vec<TableOpResult>, Error>(Error::Usage(UsageKind::CrossPartitionAtomic))
                && *final(self) == *old(self),
            r matches Ok(out) ==> out@.len() == batch_op@.len() && forall|i: int|
                0 <= i < batch_op@.len() ==> ((#[trigger] out@[i]@) is RetrieveRows
                    <==> batch_op@[i].op_type == ObTableOperationType::Get),
            batch_op.spec_atomic() && !old(self).spec_cross_partition(table@, batch_op@)
                ==> match r {
                Ok(_) => spec_dispatched(
                    old(self).spec_endpoints(),
                    final(self).spec_endpoints(),
                    table@,
                    batch_op@,
                    r,
                ),
                Err(e) => (e matches Error::Server(_, _)) ==> spec_dispatched(
                    old(self).spec_endpoints(),
                    final(self).spec_endpoints(),
                    table@,
                    batch_op@,
                    r,
                ),
            },
            old(self).spec_sendable() && batch_op.spec_atomic() && !old(self).spec_cross_partition(table@, batch_op@) ==> (r is Ok || (r matches Err(e)
                && e matches Error::Server(_, _))),
            !batch_op.spec_atomic() ==> match r {
                Ok(outv) => spec_batch_each(
                    old(self).spec_endpoints(),
                    final(self).spec_endpoints(),
                    table@,
                    batch_op@,
                    outv@.map_values(|t: TableOpResult| t@),
                ),
                Err(_) => true,
            },
    {
        let n = batch_op.len();
        if batch_op.is_atomic() {
            if n > 0 {
                let k0 = batch_op.op_at(0).row_key();
                let p0 = self.partition_of(table, &k0);
                let mut i: usize = 1;
                while i < n
                    invariant
                        self.wf(),
                        *self == *old(self),
                        n == batch_op@.len(),
                        1 <= i <= n,
                        p0 == self.spec_partition_of(table@, batch_op@[0].row_key),
                        forall|j: int|
                            0 <= j < i ==> self.spec_partition_of(
                                table@,
                                (#[trigger] batch_op@[j]).row_key,
                            ) == p0,
                    decreases n - i,
                {
                    let ki = batch_op.op_at(i).row_key();
                    let pi = self.partition_of(table, &ki);
                    if pi != p0 {
                        proof {
                            assert(self.spec_cross_partition(table@, batch_op@));
                        }
                        return Err(Error::Usage(UsageKind::CrossPartitionAtomic));
                    }
                    i += 1;
                }
                proof {
                    assert(!self.spec_cross_partition(table@, batch_op@)) by {
                        if self.spec_cross_partition(table@, batch_op@) {
                            let (w1, w2) = choose|i: int, j: int|
                                0 <= i < batch_op@.len() && 0 <= j < batch_op@.len()
                                    && self.spec_partition_of(
                                    table@,
                                    (#[trigger] batch_op@[i]).row_key,
                                ) != self.spec_partition_of(
                                    table@,
                                    (#[trigger] batch_op@[j]).row_key,
                                );
                            assert(self.spec_partition_of(table@, batch_op@[w1].row_key) == p0);
                            assert(self.spec_partition_of(table@, batch_op@[w2].row_key) == p0);
                        }
                    }
                }
                return self.execute_with_retry(table, &batch_op, p0);
            }
            proof {
                assert(!self.spec_cross_partition(table@, batch_op@));
            }
            return self.execute_with_retry(table, &batch_op, 0);
        }
        // A non-atomic batch: each operation goes to its own partition, and
        // the results keep submission order.
        let mut out: Vec<TableOpResult> = Vec::new();
        let ghost mut chain: Seq<Seq<ObTable>> = seq![old(self).spec_endpoints()];
        let mut i: usize = 0;
        while i < n
            invariant
                self.wf(),
                self.spec_endpoints().len() == old(self).spec_endpoints().len(),
                self.spec_config() == old(self).spec_config(),
                self.spec_strategy() == old(self).spec_strategy(),
                n == batch_op@.len(),
                i <= n,
                !batch_op.spec_atomic(),
                out@.len() == i,
                chain.len() == i + 1,
                chain[0] == old(self).spec_endpoints(),
                chain.last() == self.spec_endpoints(),
                forall|q: int| 0 <= q < batch_op@.len() ==> (#[trigger] batch_op@[q]).wf(),
                forall|j: int|
                    0 <= j < i ==> ((#[trigger] out@[j]@) is RetrieveRows <==> batch_op@[j].op_type
                        == ObTableOperationType::Get),
                forall|q: int|
                    0 <= q < i ==> #[trigger] spec_client_single(
                        chain[q],
                        chain[q + 1],
                        table@,
                        batch_op@[q],
                        Ok(out@[q]@),
                    ),
            decreases n - i,
        {
            let op = batch_op.op_at(i).duplicate();
            let ghost opm = op@;
            match self.run_one(table, op) {
                Ok(res) => {
                    out.push(res);
                    proof {
                        let pre_chain = chain;
                        chain = chain.push(self.spec_endpoints());
                        assert(chain[i as int] == pre_chain[i as int]);
                        assert(chain[i + 1] == self.spec_endpoints());
                        assert(spec_client_single(chain[i as int], chain[i + 1], table@,
                        batch_op@[i as int], Ok(out@[i as int]@)));
                        assert forall|q: int|
                            0 <= q < i + 1 implies #[trigger] spec_client_single(
                            chain[q],
                            chain[q + 1],
                            table@,
                            batch_op@[q],
                            Ok(out@[q]@),
                        ) by {
                            if q < i {
                                assert(chain[q] == pre_chain[q]);
                                assert(chain[q + 1] == pre_chain[q + 1]);
                            }
                        }
                    }
                },
                Err(e) => {
                    return Err(e);
                },
            }
            i += 1;
        }
        proof {
            let outm = out@.map_values(|t: TableOpResult| t@);
            assert(spec_batch_each(old(self).spec_endpoints(), self.spec_endpoints(), table@,
            batch_op@, outm)) by {
                assert forall|q: int|
                    0 <= q < batch_op@.len() implies #[trigger] spec_client_single(
                    chain[q],
                    chain[q + 1],
                    table@,
                    batch_op@[q],
                    Ok(outm[q]),
                ) by {
                    assert(outm[q] == out@[q]@);
                }
                assert(spec_each_dispatched(chain, table@, batch_op@, outm));
            }
        }
        Ok(out)
    }

    /// Builds a ranged query over `table`.
    pub fn query(&self, table: &str) -> (q: Query)
        ensures
            q.spec_table() == table@,
            q.spec_select().len() == 0,
            q.spec_ranges().len() == 0,
            q.spec_ascending(),
    {
        Query::new(table)
    }

    /// Executes a ranged query and hands back the stream cursor. Under the
    /// by-table strategy the whole table lives on one endpoint and the
    /// cursor streams in the requested key order; under the by-row-key
    /// strategy the endpoints' runs come one after the other.
    pub fn execute_query(&mut self, q: Query) -> (r: Result<QueryStreamResult, Error>)
        requires
            old(self).wf(),
        ensures
            final(self).wf(),
            r is Ok,
            (old(self).spec_strategy() is ByTable || old(self).spec_endpoints().len() == 1)
                ==> match r {
                Ok(cur) => {
                    &&& !cur.spec_closed()
                    &&& cur.spec_pos() == 0
                    &&& cur.spec_ascending() == q.spec_ascending()
                    &&& exists|ep: int|
                        0 <= ep < old(self).spec_endpoints().len() && #[trigger] spec_query_result(
                            spec_table_or_empty(
                                old(self).spec_endpoints()[ep].spec_store(),
                                q.spec_table(),
                            ),
                            q.spec_ranges(),
                            q.spec_select(),
                            q.spec_ascending(),
                            cur,
                        )
                },
                Err(_) => false,
            },
    {
        let (table_name, select_columns, ranges, ascending, _batch_size) = q.into_parts();
        let single = matches!(self.strategy, PartitionStrategy::ByTable) || self.endpoints.len()
            == 1;
        if single {
            let key: Vec<Value> = Vec::new();
            let p = self.partition_of(table_name.as_str(), &key);
            let ep = self.resolve(p);
            let rows = self.scan_endpoint(ep, table_name.as_str(), &ranges, ascending,
                &select_columns);
            let cur = QueryStreamResult::from_rows(rows, ascending, 1);
            proof {
                let tbl = spec_table_or_empty(
                    old(self).spec_endpoints()[ep as int].spec_store(),
                    q.spec_table(),
                );
                assert(spec_query_result(tbl, q.spec_ranges(), q.spec_select(),
                q.spec_ascending(), cur)) by {
                    assert forall|j: int| #![auto]
                        0 <= j < cur.spec_keys().len() implies crate::memstore::in_ranges(
                        cur.spec_keys()[j],
                        crate::memstore::ranges_view(q.spec_ranges()),
                    ) && (crate::memstore::spec_find(tbl, cur.spec_keys()[j]) matches Some(m)
                        && forall|c: Seq<char>| #[trigger]
                        crate::row::spec_lookup(cur.spec_rows()[j], c) == (if q.spec_select().len()
                            == 0 || crate::memstore::col_names(q.spec_select()).contains(c) {
                            crate::row::spec_lookup(m, c)
                        } else {
                            None
                        })) by {
                        assert(cur.spec_keys()[j] == crate::order::key_view(rows@[j].0@));
                        assert(cur.spec_rows()[j] == rows@[j].1@);
                    }
                    assert forall|i2: int| #![auto]
                        0 <= i2 < tbl.len() && crate::memstore::in_ranges(
                            tbl[i2].0,
                            crate::memstore::ranges_view(q.spec_ranges()),
                        ) implies exists|j: int|
                        0 <= j < cur.spec_keys().len() && cur.spec_keys()[j] == tbl[i2].0 by {
                        let w = choose|j: int|
                            0 <= j < rows@.len() && crate::order::key_view(#[trigger] rows@[j].0@)
                                == tbl[i2].0;
                        assert(cur.spec_keys()[w] == crate::order::key_view(rows@[w].0@));
                    }
                    assert forall|p1: int, p2: int| #![auto]
                        0 <= p1 < p2 < cur.spec_keys().len() && q.spec_ascending() implies
                        crate::order::key_lt(cur.spec_keys()[p1], cur.spec_keys()[p2]) by {
                        assert(cur.spec_keys()[p1] == crate::order::key_view(rows@[p1].0@));
                        assert(cur.spec_keys()[p2] == crate::order::key_view(rows@[p2].0@));
                    }
                    assert forall|p1: int, p2: int| #![auto]
                        0 <= p1 < p2 < cur.spec_keys().len() && !q.spec_ascending() implies
                        crate::order::key_lt(cur.spec_keys()[p2], cur.spec_keys()[p1]) by {
                        assert(cur.spec_keys()[p1] == crate::order::key_view(rows@[p1].0@));
                        assert(cur.spec_keys()[p2] == crate::order::key_view(rows@[p2].0@));
                    }
                }
            }
            Ok(cur)
        } else {
            // A row-key-partitioned client fans the scan out: the cursor
            // streams each endpoint's run in order, one endpoint after the
            // other, and is not marked ascending.
            let mut all: Vec<(Vec<Value>, Row)> = Vec::new();
            let mut ep: usize = 0;
            while ep < self.endpoints.len()
                invariant
                    self.wf(),
                    self.endpoints@.len() == old(self).spec_endpoints().len(),
                    self.config == old(self).spec_config(),
                    self.strategy == old(self).spec_strategy(),
                decreases self.endpoints@.len() - ep,
            {
                let mut rows = self.scan_endpoint(ep, table_name.as_str(), &ranges, ascending,
                    &select_columns);
                all.append(&mut rows);
                ep += 1;
            }
            Ok(QueryStreamResult::from_rows(all, false, 1))
        }
    }

    /// Scans one endpoint's partition of the table, rows projected onto the
    /// select list, sorted in the requested order; the endpoint's data is
    /// only read.
    fn scan_endpoint(&mut self, ep: usize, table_name: &str, ranges: &Vec<ScanRange>,
        ascending: bool, select_columns: &Vec<String>) -> (rows: Vec<(Vec<Value>, Row)>)
        requires
            old(self).wf(),
            ep < old(self).spec_endpoints().len(),
        ensures
            final(self).wf(),
            final(self).spec_endpoints().len() == old(self).spec_endpoints().len(),
            final(self).spec_config() == old(self).spec_config(),
            final(self).spec_strategy() == old(self).spec_strategy(),
            forall|j: int|
                0 <= j < old(self).spec_endpoints().len() && j != ep ==> (#[trigger] final(self).spec_endpoints()[j]).spec_store() == old(self).spec_endpoints()[j].spec_store(),
            crate::memstore::spec_table(
                final(self).spec_endpoints()[ep as int].spec_store(),
                table_name@,
            ) == Some(
                spec_table_or_empty(
                    old(self).spec_endpoints()[ep as int].spec_store(),
                    table_name@,
                ),
            ),
            ({
                let tbl = spec_table_or_empty(
                    old(self).spec_endpoints()[ep as int].spec_store(),
                    table_name@,
                );
                &&& forall|j: int| #![auto]
                    0 <= j < rows@.len() ==> crate::memstore::in_ranges(
                        crate::order::key_view(rows@[j].0@),
                        crate::memstore::ranges_view(ranges@),
                    ) && (crate::memstore::spec_find(tbl, crate::order::key_view(rows@[j].0@))
                        matches Some(m) && forall|c: Seq<char>| #[trigger]
                        crate::row::spec_lookup(rows@[j].1@, c) == (if select_columns@.len() == 0
                            || crate::memstore::col_names(select_columns@).contains(c) {
                            crate::row::spec_lookup(m, c)
                        } else {
                            None
                        }))
                &&& forall|i: int| #![auto]
                    0 <= i < tbl.len() && crate::memstore::in_ranges(
                        tbl[i].0,
                        crate::memstore::ranges_view(ranges@),
                    ) ==> exists|j: int|
                        0 <= j < rows@.len() && crate::order::key_view(#[trigger] rows@[j].0@)
                            == tbl[i].0
            }),
            ascending ==> forall|p1: int, p2: int| #![auto]
                0 <= p1 < p2 < rows@.len() ==> crate::order::key_lt(
                    crate::order::key_view(rows@[p1].0@),
                    crate::order::key_view(rows@[p2].0@),
                ),
            !ascending ==> forall|p1: int, p2: int| #![auto]
                0 <= p1 < p2 < rows@.len() ==> crate::order::key_lt(
                    crate::order::key_view(rows@[p2].0@),
                    crate::order::key_view(rows@[p1].0@),
                ),
    {
        let ghost eps_pre = self.endpoints@;
        let ghost tbl = spec_table_or_empty(eps_pre[ep as int].spec_store(), table_name@);
        let mut t = self.endpoints.remove(ep);
        let raw = t.scan_table(table_name, ranges, ascending);
        let ghost t_now = t;
        self.endpoints.insert(ep, t);
        proof {
            assert(self.endpoints@ =~= eps_pre.update(ep as int, t_now));
            assert forall|j: int|
                0 <= j < self.endpoints@.len() implies (#[trigger] self.endpoints@[j]).wf() by {
                if j != ep {
                    assert(self.endpoints@[j] == eps_pre[j]);
                }
            }
        }
        // Project each row onto the select list, keeping its key.
        let mut out: Vec<(Vec<Value>, Row)> = Vec::new();
        let n = raw.len();
        let mut i: usize = 0;
        while i < n
            invariant
                n == raw@.len(),
                i <= n,
                out@.len() == i,
                forall|j: int| #![auto]
                    0 <= j < i ==> crate::order::key_view(out@[j].0@) == crate::order::key_view(
                        raw@[j].0@,
                    ),
                forall|j: int, c: Seq<char>| #![auto]
                    0 <= j < i ==> crate::row::spec_lookup(out@[j].1@, c) == (
                    if select_columns@.len() == 0 || crate::memstore::col_names(
                        select_columns@,
                    ).contains(c) {
                        crate::row::spec_lookup(raw@[j].1@, c)
                    } else {
                        None
                    }),
                forall|j: int| 0 <= j < raw@.len() ==> (#[trigger] raw@[j].1).wf(),
            decreases n - i,
        {
            let k = crate::memstore::clone_key(&raw[i].0);
            let projected = crate::memstore::project_row(&raw[i].1, select_columns);
            out.push((k, projected));
            i += 1;
        }
        proof {
            assert forall|i2: int| #![auto]
                0 <= i2 < tbl.len() && crate::memstore::in_ranges(
                    tbl[i2].0,
                    crate::memstore::ranges_view(ranges@),
                ) implies exists|j: int|
                0 <= j < out@.len() && crate::order::key_view(#[trigger] out@[j].0@)
                    == tbl[i2].0 by {
                let w = choose|j: int|
                    0 <= j < raw@.len() && crate::order::key_view(#[trigger] raw@[j].0@)
                        == tbl[i2].0;
                assert(crate::order::key_view(out@[w].0@) == tbl[i2].0);
            }
        }
        out
    }
}


/// A prefix and the rest account for the whole sum.
proof fn lemma_sum_rpcs_split(s: Seq<ObTable>, i: int)
    requires
        0 <= i <= s.len(),
    ensures
        sum_rpcs(s.subrange(0, i)) + sum_rpcs(s.skip(i)) == sum_rpcs(s),
    decreases i,
{
    if i == 0 {
        assert(s.subrange(0, 0) =~= Seq::<ObTable>::empty());
        assert(s.skip(0) =~= s);
    } else {
        assert(s.subrange(0, i)[0] == s[0]);
        assert(s.subrange(0, i).skip(1) =~= s.skip(1).subrange(0, i - 1));
        assert(s.skip(1).skip(i - 1) =~= s.skip(i));
        lemma_sum_rpcs_split(s.skip(1), i - 1);
    }
}

/// No endpoint subtracts from the count.
proof fn lemma_sum_rpcs_nonneg(s: Seq<ObTable>)
    ensures
        sum_rpcs(s) >= 0,
    decreases s.len(),
{
    if s.len() > 0 {
        lemma_sum_rpcs_nonneg(s.skip(1));
    }
}

/// An empty pool has sent nothing; fresh endpoints add nothing.
proof fn lemma_sum_rpcs_zero(s: Seq<ObTable>)
    requires
        forall|i: int| 0 <= i < s.len() ==> (#[trigger] s[i]).spec_proxy().spec_rpcs() == 0,
    ensures
        sum_rpcs(s) == 0,
    decreases s.len(),
{
    if s.len() > 0 {
        assert forall|i: int|
            0 <= i < s.skip(1).len() implies (#[trigger] s.skip(1)[i]).spec_proxy().spec_rpcs()
            == 0 by {
            assert(s.skip(1)[i] == s[i + 1]);
        }
        lemma_sum_rpcs_zero(s.skip(1));
    }
}

} // verus!
