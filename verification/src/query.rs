//! Ranged queries and their stream cursors.
//!
//! A query is built up from select columns, scan ranges, a batch size, a
//! scan order and a per-fetch deadline, then executed by the client, which
//! hands back a cursor over the result stream. The cursor buffers fetched
//! rows, yields them one by one, and refuses use after close.

use vstd::prelude::*;

use crate::error::{Error, UsageKind};
use crate::memstore::{KeyModel, ScanRange};
use crate::order::{key_lt, key_view};
use crate::row::{Row, RowModel};
use crate::strutil::str_to_owned;
use crate::value::Value;

verus! {

/// A ranged query under construction.
#[derive(Debug)]
pub struct Query {
    table_name: String,
    select_columns: Vec<String>,
    index_name: String,
    batch_size: usize,
    ascending: bool,
    operation_timeout: u64,
    ranges: Vec<ScanRange>,
}

impl Query {
    pub closed spec fn spec_table(self) -> Seq<char> {
        self.table_name@
    }

    pub closed spec fn spec_select(self) -> Seq<String> {
        self.select_columns@
    }

    pub closed spec fn spec_ranges(self) -> Seq<ScanRange> {
        self.ranges@
    }

    pub closed spec fn spec_ascending(self) -> bool {
        self.ascending
    }

    pub closed spec fn spec_batch_size(self) -> usize {
        self.batch_size
    }

    pub closed spec fn spec_timeout(self) -> u64 {
        self.operation_timeout
    }

    /// A query over `table`: every column, ascending, no ranges yet.
    pub fn new(table: &str) -> (q: Query)
        ensures
            q.spec_table() == table@,
            q.spec_select().len() == 0,
            q.spec_ranges().len() == 0,
            q.spec_ascending(),
    {
        Query {
            table_name: str_to_owned(table),
            select_columns: Vec::new(),
            index_name: str_to_owned("PRIMARY"),
            batch_size: 100,
            ascending: true,
            operation_timeout: 10000,
            ranges: Vec::new(),
        }
    }

    /// Selects the columns the rows come back with; an empty list selects
    /// every column.
    pub fn select(self, columns: Vec<String>) -> (q: Query)
        ensures
            q.spec_select() == columns@,
            q.spec_table() == self.spec_table(),
            q.spec_ranges() == self.spec_ranges(),
            q.spec_ascending() == self.spec_ascending(),
    {
        Query { select_columns: columns, ..self }
    }

    /// Scans by the primary key order.
    pub fn primary_index(self) -> (q: Query)
        ensures
            q.spec_table() == self.spec_table(),
            q.spec_select() == self.spec_select(),
            q.spec_ranges() == self.spec_ranges(),
            q.spec_ascending() == self.spec_ascending(),
    {
        let q = Query { index_name: str_to_owned("PRIMARY"), ..self };
        q
    }

    /// Names the index to scan by. Only the primary key order is modeled;
    /// the name is carried for request fidelity and does not change what a
    /// scan returns.
    pub fn index(self, name: &str) -> (q: Query)
        ensures
            q.spec_table() == self.spec_table(),
            q.spec_select() == self.spec_select(),
            q.spec_ranges() == self.spec_ranges(),
            q.spec_ascending() == self.spec_ascending(),
    {
        Query { index_name: str_to_owned(name), ..self }
    }

    /// Bounds how many rows one fetch brings back.
    pub fn batch_size(self, n: usize) -> (q: Query)
        ensures
            q.spec_batch_size() == n,
            q.spec_table() == self.spec_table(),
            q.spec_select() == self.spec_select(),
            q.spec_ranges() == self.spec_ranges(),
            q.spec_ascending() == self.spec_ascending(),
    {
        Query { batch_size: n, ..self }
    }

    /// Ascending when `asc`, else descending by primary key.
    pub fn scan_order(self, asc: bool) -> (q: Query)
        ensures
            q.spec_ascending() == asc,
            q.spec_table() == self.spec_table(),
            q.spec_select() == self.spec_select(),
            q.spec_ranges() == self.spec_ranges(),
    {
        Query { ascending: asc, ..self }
    }

    /// Bounds each fetch, in milliseconds.
    pub fn operation_timeout(self, ms: u64) -> (q: Query)
        ensures
            q.spec_timeout() == ms,
            q.spec_table() == self.spec_table(),
            q.spec_select() == self.spec_select(),
            q.spec_ranges() == self.spec_ranges(),
            q.spec_ascending() == self.spec_ascending(),
    {
        Query { operation_timeout: ms, ..self }
    }

    /// Adds one scan range, each bound inclusive or not.
    pub fn add_scan_range(self, start: Vec<Value>, start_inclusive: bool, end: Vec<Value>,
        end_inclusive: bool) -> (q: Query)
        ensures
            q.spec_ranges().len() == self.spec_ranges().len() + 1,
            q.spec_ranges()[q.spec_ranges().len() - 1]@ == (crate::memstore::RangeModel {
                start: key_view(start@),
                start_inclusive,
                end: key_view(end@),
                end_inclusive,
            }),
            forall|i: int|
                0 <= i < self.spec_ranges().len() ==> q.spec_ranges()[i] == self.spec_ranges()[i],
            q.spec_table() == self.spec_table(),
            q.spec_select() == self.spec_select(),
            q.spec_ascending() == self.spec_ascending(),
    {
        let mut q = self;
        q.ranges.push(ScanRange::new(start, start_inclusive, end, end_inclusive));
        q
    }

    /// The pieces an execution needs, handed over.
    pub fn into_parts(self) -> (r: (String, Vec<String>, Vec<ScanRange>, bool, usize))
        ensures
            r.0@ == self.spec_table(),
            r.1@ == self.spec_select(),
            r.2@ == self.spec_ranges(),
            r.3 == self.spec_ascending(),
            r.4 == self.spec_batch_size(),
    {
        (self.table_name, self.select_columns, self.ranges, self.ascending, self.batch_size)
    }
}

/// A cursor over a streamed query result. The buffered rows came back in
/// stream order; `next` yields them one by one and refuses a closed cursor.
pub struct QueryStreamResult {
    rows: Vec<(Vec<Value>, Row)>,
    pos: usize,
    session_id: u64,
    ascending: bool,
    closed: bool,
}

impl QueryStreamResult {
    /// The keys of the streamed rows, in stream order.
    pub closed spec fn spec_keys(self) -> Seq<KeyModel> {
        self.rows@.map_values(|p: (Vec<Value>, Row)| key_view(p.0@))
    }

    /// The streamed rows, in stream order.
    pub closed spec fn spec_rows(self) -> Seq<RowModel> {
        self.rows@.map_values(|p: (Vec<Value>, Row)| p.1@)
    }

    /// How many rows were already yielded.
    pub closed spec fn spec_pos(self) -> int {
        self.pos as int
    }

    pub closed spec fn spec_closed(self) -> bool {
        self.closed
    }

    /// Whether the stream is ascending: the query asked for ascending order
    /// and the keys come non-decreasing.
    pub closed spec fn spec_ascending(self) -> bool {
        self.ascending
    }

    pub closed spec fn wf(self) -> bool {
        &&& self.pos <= self.rows@.len()
        &&& (self.ascending ==> forall|p1: int, p2: int| #![auto]
            0 <= p1 < p2 < self.spec_keys().len() ==> key_lt(
                self.spec_keys()[p1],
                self.spec_keys()[p2],
            ))
    }

    /// Wraps a fetched stream. The rows must come sorted when the query was
    /// ascending; the scan guarantees that.
    pub fn from_rows(rows: Vec<(Vec<Value>, Row)>, ascending: bool, session_id: u64) -> (c:
        QueryStreamResult)
        requires
            ascending ==> forall|p1: int, p2: int| #![auto]
                0 <= p1 < p2 < rows@.len() ==> key_lt(
                    key_view(rows@[p1].0@),
                    key_view(rows@[p2].0@),
                ),
        ensures
            c.wf(),
            !c.spec_closed(),
            c.spec_pos() == 0,
            c.spec_ascending() == ascending,
            c.spec_rows() == rows@.map_values(|p: (Vec<Value>, Row)| p.1@),
            c.spec_keys() == rows@.map_values(|p: (Vec<Value>, Row)| key_view(p.0@)),
    {
        let c = QueryStreamResult { rows, pos: 0, session_id, ascending, closed: false };
        proof {
            assert forall|p1: int, p2: int| #![auto]
                0 <= p1 < p2 < c.spec_keys().len() && c.ascending implies key_lt(
                c.spec_keys()[p1],
                c.spec_keys()[p2],
            ) by {
                assert(c.spec_keys()[p1] == key_view(c.rows@[p1].0@));
                assert(c.spec_keys()[p2] == key_view(c.rows@[p2].0@));
            }
        }
        c
    }

    /// How many fetched rows wait in the buffer.
    pub fn cache_size(&self) -> (n: usize)
        requires
            self.wf(),
        ensures
            n == self.spec_keys().len() - self.spec_pos(),
    {
        self.rows.len() - self.pos
    }

    /// Yields the next row, or `None` at the end of the stream. A closed
    /// cursor answers every call with an already-closed error.
    pub fn next(&mut self) -> (r: Result<Option<Row>, Error>)
        requires
            old(self).wf(),
        ensures
            final(self).wf(),
            old(self).spec_closed() ==> r == Err::<Option<Row>, Error>(
                Error::Usage(UsageKind::AlreadyClosed),
            ) && *final(self) == *old(self),
            !old(self).spec_closed() && old(self).spec_pos() < old(self).spec_keys().len() ==> {
                &&& r matches Ok(Some(row)) && row@ == old(self).spec_rows()[old(self).spec_pos()]
                &&& final(self).spec_pos() == old(self).spec_pos() + 1
                &&& final(self).spec_rows() == old(self).spec_rows()
                &&& final(self).spec_keys() == old(self).spec_keys()
                &&& final(self).spec_ascending() == old(self).spec_ascending()
                &&& !final(self).spec_closed()
            },
            !old(self).spec_closed() && old(self).spec_pos() >= old(self).spec_keys().len() ==> r
                == Ok::<Option<Row>, Error>(None) && *final(self) == *old(self),
    {
        if self.closed {
            return Err(Error::Usage(UsageKind::AlreadyClosed));
        }
        if self.pos < self.rows.len() {
            let row = self.rows[self.pos].1.duplicate();
            proof {
                assert(self.spec_rows()[self.pos as int] == self.rows@[self.pos as int].1@);
            }
            self.pos = self.pos + 1;
            Ok(Some(row))
        } else {
            Ok(None)
        }
    }

    /// Closes the cursor: the session is released best-effort, the local
    /// buffers drain, and every later `next` fails with an already-closed
    /// error.
    pub fn close(&mut self)
        requires
            old(self).wf(),
        ensures
            final(self).wf(),
            final(self).spec_closed(),
            final(self).spec_keys().len() == 0,
            final(self).spec_rows().len() == 0,
            final(self).spec_pos() == 0,
    {
        self.closed = true;
        self.rows = Vec::new();
        self.pos = 0;
    }
}

/// Cursor monotonicity: on an ascending stream, consecutive rows come with
/// strictly growing primary keys, so each yielded key is at least the one
/// yielded before it.
pub proof fn lemma_cursor_monotonic(c: QueryStreamResult, p: int)
    requires
        c.wf(),
        c.spec_ascending(),
        0 <= p,
        p + 1 < c.spec_keys().len(),
    ensures
        key_lt(c.spec_keys()[p], c.spec_keys()[p + 1]),
{
}

} // verus!
