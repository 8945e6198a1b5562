//! The table handle: one endpoint proxy bound to a tenant, user and
//! database, executing batch requests and translating their responses.

use vstd::prelude::*;

use vstd::string::StringExecFns;

use crate::error::{Error, UsageKind};
use crate::memstore::{in_ranges, ranges_view, spec_find, spec_step, spec_table, StoreModel};
use crate::operation::{
    lemma_first_failure_none_all, lemma_first_failure_some, spec_first_failure,
    spec_translate_one, ObTableBatchOperation, ObTableOperationType, OperationModel,
    OperationResultModel, TableOpResult, TableOpResultModel,
};
use crate::proxy::{spec_executed, spec_table_or_empty, Proxy};
use crate::strutil::{spec_dec_signed, str_to_owned};
use crate::ClientConfig;

verus! {

/// What one batch call answers: some response chain ran at the endpoint
/// (`spec_executed`), and the caller got either every sub-result translated
/// in submission order, or the first non-success sub-result as a server
/// exception carrying its code and message.
pub open spec fn spec_batch_outcome(pre: Seq<(Seq<char>, StoreModel)>, post: Seq<
    (Seq<char>, StoreModel),
>, table: Seq<char>, ops: Seq<OperationModel>, r: Result<Vec<TableOpResult>, Error>) -> bool {
    exists|rs: Seq<OperationResultModel>|
        {
            &&& #[trigger] spec_executed(pre, post, table, ops, rs)
            &&& match spec_first_failure(rs) {
                None => r matches Ok(out) && out@.len() == ops.len() && (forall|i: int|
                    0 <= i < rs.len() ==> out@[i]@ == spec_translate_one(rs[i])),
                Some(fi) => r matches Err(e) && e matches Error::Server(code, msg)
                    && code.spec_errno() == rs[fi].errno && !(code is ObSuccess) && msg@
                    == rs[fi].message,
            }
        }
}

/// What one single-operation call answers: the named partition took exactly
/// one `spec_step` of the operation, and the caller got that step's
/// sub-result — translated on success, or as a server exception carrying
/// the step's code and message.
pub open spec fn spec_single_outcome(pre: Seq<(Seq<char>, StoreModel)>, post: Seq<
    (Seq<char>, StoreModel),
>, table: Seq<char>, op: OperationModel, r: Result<TableOpResultModel, Error>) -> bool {
    exists|res: OperationResultModel|
        {
            &&& #[trigger] spec_step(
                spec_table_or_empty(pre, table),
                op,
                spec_table_or_empty(post, table),
                res,
            )
            &&& match r {
                Ok(t) => res.errno == 0 && t == spec_translate_one(res),
                Err(e) => e matches Error::Server(code, msg) && code.spec_errno() == res.errno
                    && res.errno != 0 && msg@ == res.message,
            }
        }
}

/// A handle on one endpoint for table operations.
pub struct ObTable {
    config: ClientConfig,
    ip: String,
    port: i32,
    tenant_name: String,
    user_name: String,
    database: String,
    rpc_proxy: Proxy,
}

impl ObTable {
    pub closed spec fn spec_config(self) -> ClientConfig {
        self.config
    }

    pub closed spec fn spec_ip(self) -> Seq<char> {
        self.ip@
    }

    pub closed spec fn spec_port(self) -> i32 {
        self.port
    }

    pub closed spec fn spec_tenant(self) -> Seq<char> {
        self.tenant_name@
    }

    pub closed spec fn spec_user(self) -> Seq<char> {
        self.user_name@
    }

    pub closed spec fn spec_database(self) -> Seq<char> {
        self.database@
    }

    /// The endpoint's data, as contracts see it.
    pub open spec fn spec_store(self) -> Seq<(Seq<char>, StoreModel)> {
        self.spec_proxy().spec_store()
    }

    pub closed spec fn spec_proxy(self) -> Proxy {
        self.rpc_proxy
    }

    pub open spec fn wf(self) -> bool {
        self.spec_proxy().wf()
    }

    /// How many requests this endpoint has seen, observably.
    pub fn rpcs_sent(&self) -> (n: u64)
        ensures
            n == self.spec_proxy().spec_rpcs(),
    {
        self.rpc_proxy.rpcs_sent()
    }

    /// The per-request deadline, in milliseconds.
    pub fn operation_timeout(&self) -> (t: u64)
        ensures
            t == self.spec_config().rpc_operation_timeout,
    {
        self.config.rpc_operation_timeout
    }

    /// The endpoint's address, written `host:port`.
    pub fn addr(&self) -> (r: String)
        ensures
            r@ == self.spec_ip() + seq![':'] + spec_dec_signed(self.spec_port() as int),
    {
        let mut s = self.ip.clone();
        s.append(":");
        proof {
            reveal_strlit(":");
            assert(s@ =~= self.spec_ip() + seq![':']);
        }
        s.append(crate::strutil::i32_to_dec(self.port).as_str());
        s
    }

    /// Executes one batch against this endpoint and translates the
    /// response: one entry per operation in submission order, or the first
    /// non-success sub-result as a server exception, or the transport-level
    /// failure as it happened.
    pub fn execute_batch(&mut self, table_name: &str, batch_op: ObTableBatchOperation) -> (r:
        Result<Vec<TableOpResult>, Error>)
        requires
            old(self).wf(),
            forall|i: int| 0 <= i < batch_op@.len() ==> (#[trigger] batch_op@[i]).wf(),
        ensures
            final(self).wf(),
            final(self).spec_proxy().spec_rpcs() <= old(self).spec_proxy().spec_rpcs() + 1,
            old(self).spec_proxy().spec_some_ready() ==> !(r matches Err(e) && (e is NotConnected
                || e is Congestion || e matches Error::Transport(_))),
            r matches Err(e) && (e is NotConnected || e is Congestion || e matches Error::Transport(
                _,
            )) ==> final(self).spec_store() == old(self).spec_store(),
            (r is Ok || (r matches Err(e) && e matches Error::Server(_, _)))
                ==> spec_batch_outcome(
                old(self).spec_store(),
                final(self).spec_store(),
                table_name@,
                batch_op@,
                r,
            ),
            r matches Err(e) ==> (e is NotConnected || e is Congestion || e matches Error::Transport(
                _,
            ) || e matches Error::Server(_, _)),
            match r {
                Err(Error::Server(code, _)) => code.spec_errno() == -5024i32 || code.spec_errno()
                    == -5023i32,
                _ => true,
            },
            batch_op@.len() == 1 ==> match r {
                Ok(out) => out@.len() == 1 && spec_single_outcome(
                    old(self).spec_store(),
                    final(self).spec_store(),
                    table_name@,
                    batch_op@[0],
                    Ok(out@[0]@),
                ),
                Err(e) => (e matches Error::Server(_, _)) ==> spec_single_outcome(
                    old(self).spec_store(),
                    final(self).spec_store(),
                    table_name@,
                    batch_op@[0],
                    Err(e),
                ),
            },
    {
        self.execute_batch_ref(table_name, &batch_op)
    }

    /// As [`Self::execute_batch`], with the batch borrowed, so one request
    /// can be retried without rebuilding it.
    pub fn execute_batch_ref(&mut self, table_name: &str, batch_op: &ObTableBatchOperation) -> (r:
        Result<Vec<TableOpResult>, Error>)
        requires
            old(self).wf(),
            forall|i: int| 0 <= i < batch_op@.len() ==> (#[trigger] batch_op@[i]).wf(),
        ensures
            final(self).wf(),
            final(self).spec_proxy().spec_rpcs() <= old(self).spec_proxy().spec_rpcs() + 1,
            old(self).spec_proxy().spec_some_ready() ==> !(r matches Err(e) && (e is NotConnected
                || e is Congestion || e matches Error::Transport(_))),
            r matches Err(e) && (e is NotConnected || e is Congestion || e matches Error::Transport(
                _,
            )) ==> final(self).spec_store() == old(self).spec_store(),
            (r is Ok || (r matches Err(e) && e matches Error::Server(_, _)))
                ==> spec_batch_outcome(
                old(self).spec_store(),
                final(self).spec_store(),
                table_name@,
                batch_op@,
                r,
            ),
            r matches Err(e) ==> (e is NotConnected || e is Congestion || e matches Error::Transport(
                _,
            ) || e matches Error::Server(_, _)),
            match r {
                Err(Error::Server(code, _)) => code.spec_errno() == -5024i32 || code.spec_errno()
                    == -5023i32,
                _ => true,
            },
            batch_op@.len() == 1 ==> match r {
                Ok(out) => out@.len() == 1 && spec_single_outcome(
                    old(self).spec_store(),
                    final(self).spec_store(),
                    table_name@,
                    batch_op@[0],
                    Ok(out@[0]@),
                ),
                Err(e) => (e matches Error::Server(_, _)) ==> spec_single_outcome(
                    old(self).spec_store(),
                    final(self).spec_store(),
                    table_name@,
                    batch_op@[0],
                    Err(e),
                ),
            },
            r matches Ok(out) ==> out@.len() == batch_op@.len() && forall|i: int|
                0 <= i < batch_op@.len() ==> ((#[trigger] out@[i]@) is RetrieveRows
                    <==> batch_op@[i].op_type == ObTableOperationType::Get),
    {
        let resp = match self.rpc_proxy.execute(table_name, batch_op) {
            Ok(resp) => resp,
            Err(e) => {
                proof {
                    assert(e is NotConnected || e is Congestion || e matches Error::Transport(_));
                    assert(self.spec_store() == old(self).spec_store());
                }
                return Err(e);
            },
        };
        let ghost rs = resp@;
        let out = resp.into_results();
        proof {
            assert(spec_executed(old(self).spec_store(), self.spec_store(), table_name@,
            batch_op@, rs));
            lemma_first_failure_some(rs);
            match spec_first_failure(rs) {
                Some(fi) => {
                    assert(0 <= fi < rs.len());
                    assert(rs[fi].errno == 0 || rs[fi].errno == -5024i32 || rs[fi].errno
                        == -5023i32);
                },
                None => {},
            }
            if spec_first_failure(rs) is None {
                lemma_first_failure_none_all(rs);
                assert forall|i: int|
                    0 <= i < batch_op@.len() implies ((#[trigger] rs[i].op_type)
                    == batch_op@[i].op_type) by {}
            }
            assert(spec_batch_outcome(old(self).spec_store(), self.spec_store(), table_name@,
            batch_op@, out)) by {
                assert(spec_executed(old(self).spec_store(), self.spec_store(), table_name@,
                batch_op@, rs));
            }
            if batch_op@.len() == 1 {
                let q0: int = 0;
                let res0 = rs[q0];
                match spec_first_failure(rs) {
                    None => {
                        assert(res0.errno == 0);
                    },
                    Some(fi) => {
                        assert(fi == 0);
                    },
                }
                match &out {
                    Ok(outv) => {
                        assert(spec_single_outcome(old(self).spec_store(), self.spec_store(),
                        table_name@, batch_op@[q0], Ok(outv@[q0]@))) by {
                            assert(spec_step(
                                spec_table_or_empty(old(self).spec_store(), table_name@),
                                batch_op@[q0],
                                spec_table_or_empty(self.spec_store(), table_name@),
                                res0,
                            ));
                        }
                    },
                    Err(e) => {
                        if e matches Error::Server(_, _) {
                            assert(spec_single_outcome(old(self).spec_store(), self.spec_store(),
                            table_name@, batch_op@[q0], Err(*e))) by {
                                assert(spec_step(
                                    spec_table_or_empty(old(self).spec_store(), table_name@),
                                    batch_op@[q0],
                                    spec_table_or_empty(self.spec_store(), table_name@),
                                    res0,
                                ));
                            }
                        }
                    },
                }
            }
        }
        out
    }
}

impl ObTable {
    /// Scans this endpoint's partition of the table, in the requested key
    /// order.
    pub fn scan_table(&mut self, table_name: &str, ranges: &Vec<crate::memstore::ScanRange>,
        ascending: bool) -> (rows: Vec<(Vec<crate::value::Value>, crate::row::Row)>)
        requires
            old(self).wf(),
        ensures
            final(self).wf(),
            final(self).spec_proxy().spec_rpcs() <= old(self).spec_proxy().spec_rpcs() + 1,
            spec_table(final(self).spec_store(), table_name@) == Some(
                spec_table_or_empty(old(self).spec_store(), table_name@),
            ),
            forall|n2: Seq<char>|
                n2 != table_name@ ==> #[trigger] spec_table(final(self).spec_store(), n2)
                    == spec_table(old(self).spec_store(), n2),
            forall|j: int| 0 <= j < rows@.len() ==> (#[trigger] rows@[j].1).wf(),
            forall|j: int| #![auto]
                0 <= j < rows@.len() ==> in_ranges(
                    crate::order::key_view(rows@[j].0@),
                    ranges_view(ranges@),
                ) && spec_find(
                    spec_table_or_empty(old(self).spec_store(), table_name@),
                    crate::order::key_view(rows@[j].0@),
                ) == Some(rows@[j].1@),
            forall|i: int| #![auto]
                0 <= i < spec_table_or_empty(old(self).spec_store(), table_name@).len()
                    && in_ranges(
                    spec_table_or_empty(old(self).spec_store(), table_name@)[i].0,
                    ranges_view(ranges@),
                ) ==> exists|j: int|
                    0 <= j < rows@.len() && crate::order::key_view(#[trigger] rows@[j].0@)
                        == spec_table_or_empty(old(self).spec_store(), table_name@)[i].0,
            ascending ==> forall|p1: int, p2: int| #![auto]
                0 <= p1 < p2 < rows@.len() ==> crate::order::key_lt(
                    crate::order::key_view(rows@[p1].0@),
                    crate::order::key_view(rows@[p2].0@),
                ),
            !ascending ==> forall|p1: int, p2: int| #![auto]
                0 <= p1 < p2 < rows@.len() ==> crate::order::key_lt(
                    crate::order::key_view(rows@[p2].0@),
                    crate::order::key_view(rows@[p1].0@),
                ),
    {
        self.rpc_proxy.scan(table_name, ranges, ascending)
    }
}

/// Assembles a table handle field by field.
pub struct Builder {
    config: ClientConfig,
    ip: String,
    port: i32,
    tenant_name: String,
    user_name: String,
    password: String,
    database: String,
    rpc_proxy: Option<Proxy>,
}

impl Builder {
    pub closed spec fn spec_proxy(self) -> Option<Proxy> {
        self.rpc_proxy
    }

    pub closed spec fn spec_ip(self) -> Seq<char> {
        self.ip@
    }

    pub closed spec fn spec_port(self) -> i32 {
        self.port
    }

    pub closed spec fn spec_config(self) -> ClientConfig {
        self.config
    }

    pub closed spec fn spec_tenant(self) -> Seq<char> {
        self.tenant_name@
    }

    pub closed spec fn spec_user(self) -> Seq<char> {
        self.user_name@
    }

    pub closed spec fn spec_password(self) -> Seq<char> {
        self.password@
    }

    pub closed spec fn spec_database(self) -> Seq<char> {
        self.database@
    }

    /// Every field the builder holds besides the one a setter touches.
    pub open spec fn spec_same_but_strings(self, o: Builder) -> bool {
        &&& self.spec_proxy() == o.spec_proxy()
        &&& self.spec_ip() == o.spec_ip()
        &&& self.spec_port() == o.spec_port()
        &&& self.spec_config() == o.spec_config()
    }

    /// Starts a builder for the endpoint at `ip:port`.
    pub fn new(ip: &str, port: i32) -> (b: Builder)
        ensures
            b.spec_ip() == ip@,
            b.spec_port() == port,
            b.spec_proxy() is None,
            b.spec_config() == ClientConfig::spec_default(),
            b.spec_tenant().len() == 0,
            b.spec_user().len() == 0,
            b.spec_password().len() == 0,
            b.spec_database().len() == 0,
    {
        let b = Builder {
            config: ClientConfig::new(),
            ip: str_to_owned(ip),
            port,
            tenant_name: str_to_owned(""),
            user_name: str_to_owned(""),
            password: str_to_owned(""),
            database: str_to_owned(""),
            rpc_proxy: None,
        };
        proof {
            reveal_strlit("");
        }
        b
    }

    pub fn config(self, config: &ClientConfig) -> (b: Builder)
        ensures
            b.spec_config() == *config,
            b.spec_proxy() == self.spec_proxy(),
            b.spec_ip() == self.spec_ip(),
            b.spec_port() == self.spec_port(),
            b.spec_tenant() == self.spec_tenant(),
            b.spec_user() == self.spec_user(),
            b.spec_password() == self.spec_password(),
            b.spec_database() == self.spec_database(),
    {
        Builder { config: config.clone_config(), ..self }
    }

    pub fn tenant_name(self, s: &str) -> (b: Builder)
        ensures
            b.spec_tenant() == s@,
            b.spec_same_but_strings(*&self),
            b.spec_user() == self.spec_user(),
            b.spec_password() == self.spec_password(),
            b.spec_database() == self.spec_database(),
    {
        Builder { tenant_name: str_to_owned(s), ..self }
    }

    pub fn user_name(self, s: &str) -> (b: Builder)
        ensures
            b.spec_user() == s@,
            b.spec_same_but_strings(*&self),
            b.spec_tenant() == self.spec_tenant(),
            b.spec_password() == self.spec_password(),
            b.spec_database() == self.spec_database(),
    {
        Builder { user_name: str_to_owned(s), ..self }
    }

    pub fn password(self, s: &str) -> (b: Builder)
        ensures
            b.spec_password() == s@,
            b.spec_same_but_strings(*&self),
            b.spec_tenant() == self.spec_tenant(),
            b.spec_user() == self.spec_user(),
            b.spec_database() == self.spec_database(),
    {
        Builder { password: str_to_owned(s), ..self }
    }

    pub fn database(self, s: &str) -> (b: Builder)
        ensures
            b.spec_database() == s@,
            b.spec_same_but_strings(*&self),
            b.spec_tenant() == self.spec_tenant(),
            b.spec_user() == self.spec_user(),
            b.spec_password() == self.spec_password(),
    {
        Builder { database: str_to_owned(s), ..self }
    }

    pub fn rpc_proxy(self, rpc_proxy: Proxy) -> (b: Builder)
        ensures
            b.spec_proxy() == Some(rpc_proxy),
            b.spec_ip() == self.spec_ip(),
            b.spec_port() == self.spec_port(),
            b.spec_config() == self.spec_config(),
            b.spec_tenant() == self.spec_tenant(),
            b.spec_user() == self.spec_user(),
            b.spec_password() == self.spec_password(),
            b.spec_database() == self.spec_database(),
    {
        Builder { rpc_proxy: Some(rpc_proxy), ..self }
    }

    /// Finishes the handle. The proxy is the one required field; a builder
    /// that never got one fails with a client-usage error naming it,
    /// rather than failing at run time.
    pub fn build(self) -> (r: Result<ObTable, Error>)
        ensures
            self.spec_proxy() is None ==> r == Err::<ObTable, Error>(
                Error::Usage(UsageKind::MissingField),
            ),
            self.spec_proxy() matches Some(p) ==> r matches Ok(t) && {
                &&& t.spec_proxy() == p
                &&& p.wf() ==> t.wf()
                &&& t.spec_ip() == self.spec_ip()
                &&& t.spec_port() == self.spec_port()
                &&& t.spec_config() == self.spec_config()
                &&& t.spec_tenant() == self.spec_tenant()
                &&& t.spec_user() == self.spec_user()
                &&& t.spec_database() == self.spec_database()
            },
    {
        let Builder { config, ip, port, tenant_name, user_name, password: _, database, rpc_proxy } =
            self;
        let rpc_proxy = match rpc_proxy {
            Some(p) => p,
            None => {
                return Err(Error::Usage(UsageKind::MissingField));
            },
        };
        Ok(ObTable { config, ip, port, tenant_name, user_name, database, rpc_proxy })
    }
}

} // verus!
