//! Logical table operations, batches of them, and their results.

use vstd::prelude::*;

use crate::error::{Error, ResultCodes, UsageKind};
use crate::row::{Row, RowModel};
use crate::value::{Value, ValueModel};

verus! {

/// The kind of a single table operation.
#[derive(Clone, Copy, PartialEq, Eq, Structural, Debug)]
pub enum ObTableOperationType {
    Get,
    Insert,
    Del,
    Update,
    InsertOrUpdate,
    Replace,
    Increment,
    Append,
}

impl ObTableOperationType {
    /// Whether an operation of this kind carries column values.
    pub open spec fn spec_carries_values(self) -> bool {
        self != ObTableOperationType::Get && self != ObTableOperationType::Del
    }
}

/// One operation, as contracts see it.
pub struct OperationModel {
    pub op_type: ObTableOperationType,
    pub row_key: Seq<ValueModel>,
    pub columns: Seq<Seq<char>>,
    pub properties: Seq<ValueModel>,
}

/// One logical operation on one row.
#[derive(Debug)]
pub struct Operation {
    op_type: ObTableOperationType,
    row_key: Vec<Value>,
    columns: Vec<String>,
    properties: Vec<Value>,
}

impl View for Operation {
    type V = OperationModel;

    closed spec fn view(&self) -> OperationModel {
        OperationModel {
            op_type: self.op_type,
            row_key: self.row_key@.map_values(|v: Value| v@),
            columns: self.columns@.map_values(|c: String| c@),
            properties: self.properties@.map_values(|v: Value| v@),
        }
    }
}

impl OperationModel {
    /// Gets and deletes carry no column values; writes carry one value per
    /// named column.
    pub open spec fn wf(self) -> bool {
        if self.op_type.spec_carries_values() {
            self.columns.len() == self.properties.len()
        } else {
            self.properties.len() == 0
        }
    }
}

impl Operation {
    /// Builds an operation, rejecting shapes the wire contract refuses: a
    /// get or delete with column values, or a write whose column names and
    /// values differ in number.
    pub fn new(op_type: ObTableOperationType, row_key: Vec<Value>, columns: Vec<String>,
        properties: Vec<Value>) -> (r: Result<Operation, Error>)
        ensures
            match r {
                Ok(op) => op@ == (OperationModel {
                    op_type,
                    row_key: row_key@.map_values(|v: Value| v@),
                    columns: columns@.map_values(|c: String| c@),
                    properties: properties@.map_values(|v: Value| v@),
                }) && op@.wf(),
                Err(e) => e == Error::Usage(UsageKind::InvalidParam) && !(OperationModel {
                    op_type,
                    row_key: row_key@.map_values(|v: Value| v@),
                    columns: columns@.map_values(|c: String| c@),
                    properties: properties@.map_values(|v: Value| v@),
                }).wf(),
            },
    {
        let ok = if matches!(op_type, ObTableOperationType::Get | ObTableOperationType::Del) {
            properties.len() == 0
        } else {
            columns.len() == properties.len()
        };
        if ok {
            Ok(Operation { op_type, row_key, columns, properties })
        } else {
            Err(Error::Usage(UsageKind::InvalidParam))
        }
    }

    pub fn op_type(&self) -> (t: ObTableOperationType)
        ensures
            t == self@.op_type,
    {
        self.op_type
    }

    /// The number of key parts.
    pub fn row_key_len(&self) -> (n: usize)
        ensures
            n == self@.row_key.len(),
    {
        self.row_key.len()
    }

    /// The key part at `i`.
    pub fn row_key_at(&self, i: usize) -> (v: Value)
        requires
            i < self@.row_key.len(),
        ensures
            v@ == self@.row_key[i as int],
    {
        self.row_key[i].duplicate()
    }

    /// The whole row key.
    pub fn row_key(&self) -> (k: Vec<Value>)
        ensures
            k@.map_values(|v: Value| v@) == self@.row_key,
    {
        let mut k: Vec<Value> = Vec::new();
        let mut i: usize = 0;
        while i < self.row_key.len()
            invariant
                i <= self.row_key.len(),
                k@.len() == i,
                self@.row_key.len() == self.row_key.len(),
                forall|j: int| 0 <= j < i ==> k@[j]@ == self@.row_key[j],
            decreases self.row_key.len() - i,
        {
            k.push(self.row_key[i].duplicate());
            proof {
                assert(self@.row_key[i as int] == self.row_key@[i as int]@);
            }
            i += 1;
        }
        proof {
            assert forall|j: int|
                0 <= j < k@.len() implies k@.map_values(|v: Value| v@)[j] == self@.row_key[j] by {
                assert(k@[j]@ == self@.row_key[j]);
            }
            assert(k@.map_values(|v: Value| v@) =~= self@.row_key);
        }
        k
    }

    /// The column names, copied.
    pub fn columns_vec(&self) -> (cs: Vec<String>)
        ensures
            cs@.map_values(|c: String| c@) == self@.columns,
            cs@.len() == self@.columns.len(),
    {
        let mut cs: Vec<String> = Vec::new();
        let mut i: usize = 0;
        while i < self.columns.len()
            invariant
                i <= self.columns.len(),
                cs@.len() == i,
                self@.columns.len() == self.columns.len(),
                forall|j: int| 0 <= j < i ==> cs@[j]@ == self@.columns[j],
            decreases self.columns.len() - i,
        {
            cs.push(self.columns[i].clone());
            proof {
                assert(self@.columns[i as int] == self.columns@[i as int]@);
            }
            i += 1;
        }
        proof {
            assert forall|j: int|
                0 <= j < cs@.len() implies cs@.map_values(|c: String| c@)[j] == self@.columns[j] by {
                assert(cs@[j]@ == self@.columns[j]);
            }
            assert(cs@.map_values(|c: String| c@) =~= self@.columns);
        }
        cs
    }

    /// The column values, copied.
    pub fn properties_vec(&self) -> (ps: Vec<Value>)
        ensures
            ps@.map_values(|v: Value| v@) == self@.properties,
            ps@.len() == self@.properties.len(),
    {
        let mut ps: Vec<Value> = Vec::new();
        let mut i: usize = 0;
        while i < self.properties.len()
            invariant
                i <= self.properties.len(),
                ps@.len() == i,
                self@.properties.len() == self.properties.len(),
                forall|j: int| 0 <= j < i ==> ps@[j]@ == self@.properties[j],
            decreases self.properties.len() - i,
        {
            ps.push(self.properties[i].duplicate());
            proof {
                assert(self@.properties[i as int] == self.properties@[i as int]@);
            }
            i += 1;
        }
        proof {
            assert forall|j: int|
                0 <= j < ps@.len() implies ps@.map_values(|v: Value| v@)[j]
                    == self@.properties[j] by {
                assert(ps@[j]@ == self@.properties[j]);
            }
            assert(ps@.map_values(|v: Value| v@) =~= self@.properties);
        }
        ps
    }

    /// A copy of the operation, part for part.
    pub fn duplicate(&self) -> (r: Operation)
        ensures
            r@ == self@,
    {
        let r = Operation {
            op_type: self.op_type,
            row_key: self.row_key_vec_copy(),
            columns: self.columns_vec(),
            properties: self.properties_vec(),
        };
        r
    }

    /// The row key, copied.
    fn row_key_vec_copy(&self) -> (k: Vec<Value>)
        ensures
            k@.map_values(|v: Value| v@) == self@.row_key,
    {
        self.row_key()
    }

    pub fn columns_len(&self) -> (n: usize)
        ensures
            n == self@.columns.len(),
    {
        self.columns.len()
    }

    pub fn column_at(&self, i: usize) -> (c: String)
        requires
            i < self@.columns.len(),
        ensures
            c@ == self@.columns[i as int],
    {
        self.columns[i].clone()
    }

    pub fn property_at(&self, i: usize) -> (v: Value)
        requires
            i < self@.properties.len(),
        ensures
            v@ == self@.properties[i as int],
    {
        self.properties[i].duplicate()
    }

    pub fn properties_len(&self) -> (n: usize)
        ensures
            n == self@.properties.len(),
    {
        self.properties.len()
    }
}

/// A batch: an ordered sequence of operations plus its flags. An atomic
/// batch must route to a single partition.
#[derive(Debug)]
pub struct ObTableBatchOperation {
    ops: Vec<Operation>,
    atomic: bool,
    same_properties_names: bool,
}

impl View for ObTableBatchOperation {
    type V = Seq<OperationModel>;

    closed spec fn view(&self) -> Seq<OperationModel> {
        self.ops@.map_values(|op: Operation| op@)
    }
}

impl ObTableBatchOperation {
    pub closed spec fn spec_atomic(self) -> bool {
        self.atomic
    }

    pub closed spec fn spec_same_properties_names(self) -> bool {
        self.same_properties_names
    }

    /// An empty, non-atomic batch.
    pub fn new() -> (r: ObTableBatchOperation)
        ensures
            r@ == Seq::<OperationModel>::empty(),
            !r.spec_atomic(),
    {
        let r = ObTableBatchOperation { ops: Vec::new(), atomic: false,
            same_properties_names: false };
        proof {
            assert(r@ =~= Seq::<OperationModel>::empty());
        }
        r
    }

    pub fn len(&self) -> (n: usize)
        ensures
            n == self@.len(),
    {
        self.ops.len()
    }

    pub fn is_atomic(&self) -> (b: bool)
        ensures
            b == self.spec_atomic(),
    {
        self.atomic
    }

    /// Requests all-or-nothing execution; the dispatcher refuses an atomic
    /// batch whose operations route to more than one partition.
    pub fn set_atomic_op(&mut self, atomic: bool)
        ensures
            final(self)@ == old(self)@,
            final(self).spec_atomic() == atomic,
    {
        self.atomic = atomic;
    }

    /// Marks that every operation writes the same column list, so the wire
    /// form can carry the names once.
    pub fn set_same_properties_names(&mut self, v: bool)
        ensures
            final(self)@ == old(self)@,
            final(self).spec_atomic() == old(self).spec_atomic(),
            final(self).spec_same_properties_names() == v,
    {
        self.same_properties_names = v;
    }

    /// Appends one operation; the batch keeps submission order.
    pub fn add_op(&mut self, op: Operation)
        ensures
            final(self)@ == old(self)@.push(op@),
            final(self).spec_atomic() == old(self).spec_atomic(),
    {
        self.ops.push(op);
        proof {
            assert(self@ =~= old(self)@.push(op@));
        }
    }

    /// Appends a read of `columns` under `row_key`.
    pub fn get(&mut self, row_key: Vec<Value>, columns: Vec<String>)
        ensures
            final(self)@.len() == old(self)@.len() + 1,
            final(self)@.last().op_type == ObTableOperationType::Get,
            final(self)@.last().row_key == row_key@.map_values(|v: Value| v@),
            final(self)@.last().columns == columns@.map_values(|c: String| c@),
            final(self)@.last().wf(),
            forall|i: int| 0 <= i < old(self)@.len() ==> final(self)@[i] == old(self)@[i],
            final(self).spec_atomic() == old(self).spec_atomic(),
    {
        match Operation::new(ObTableOperationType::Get, row_key, columns, Vec::new()) {
            Ok(op) => self.add_op(op),
            Err(_) => {
                proof {
                    assert(false);
                }
            },
        }
    }

    /// Appends a delete of the row under `row_key`.
    pub fn delete(&mut self, row_key: Vec<Value>)
        ensures
            final(self)@.len() == old(self)@.len() + 1,
            final(self)@.last().op_type == ObTableOperationType::Del,
            final(self)@.last().row_key == row_key@.map_values(|v: Value| v@),
            final(self)@.last().wf(),
            forall|i: int| 0 <= i < old(self)@.len() ==> final(self)@[i] == old(self)@[i],
            final(self).spec_atomic() == old(self).spec_atomic(),
    {
        match Operation::new(ObTableOperationType::Del, row_key, Vec::new(), Vec::new()) {
            Ok(op) => self.add_op(op),
            Err(_) => {
                proof {
                    assert(false);
                }
            },
        }
    }

    /// Appends one write of the given kind; the column names and values
    /// must come in equal numbers.
    pub fn write(&mut self, kind: ObTableOperationType, row_key: Vec<Value>, columns: Vec<String>,
        properties: Vec<Value>) -> (r: Result<(), Error>)
        requires
            kind != ObTableOperationType::Get,
            kind != ObTableOperationType::Del,
        ensures
            columns@.len() != properties@.len() ==> r == Err::<(), Error>(
                Error::Usage(UsageKind::InvalidParam),
            ) && final(self)@ == old(self)@,
            columns@.len() == properties@.len() ==> {
                &&& r == Ok::<(), Error>(())
                &&& final(self)@.len() == old(self)@.len() + 1
                &&& final(self)@.last().op_type == kind
                &&& final(self)@.last().row_key == row_key@.map_values(|v: Value| v@)
                &&& final(self)@.last().columns == columns@.map_values(|c: String| c@)
                &&& final(self)@.last().properties == properties@.map_values(|v: Value| v@)
                &&& final(self)@.last().wf()
                &&& forall|i: int| 0 <= i < old(self)@.len() ==> final(self)@[i] == old(self)@[i]
            },
            final(self).spec_atomic() == old(self).spec_atomic(),
    {
        match Operation::new(kind, row_key, columns, properties) {
            Ok(op) => {
                self.add_op(op);
                Ok(())
            },
            Err(e) => Err(e),
        }
    }

    /// Appends an insert.
    pub fn insert(&mut self, row_key: Vec<Value>, columns: Vec<String>, properties: Vec<Value>) -> (
        r: Result<(), Error>)
        ensures
            columns@.len() != properties@.len() ==> r == Err::<(), Error>(
                Error::Usage(UsageKind::InvalidParam),
            ) && final(self)@ == old(self)@,
            columns@.len() == properties@.len() ==> {
                &&& r == Ok::<(), Error>(())
                &&& final(self)@.len() == old(self)@.len() + 1
                &&& final(self)@.last().op_type == ObTableOperationType::Insert
                &&& final(self)@.last().row_key == row_key@.map_values(|v: Value| v@)
                &&& final(self)@.last().columns == columns@.map_values(|c: String| c@)
                &&& final(self)@.last().properties == properties@.map_values(|v: Value| v@)
                &&& final(self)@.last().wf()
                &&& forall|i: int| 0 <= i < old(self)@.len() ==> final(self)@[i] == old(self)@[i]
            },
            final(self).spec_atomic() == old(self).spec_atomic(),
    {
        self.write(ObTableOperationType::Insert, row_key, columns, properties)
    }

    /// Appends an update.
    pub fn update(&mut self, row_key: Vec<Value>, columns: Vec<String>, properties: Vec<Value>) -> (
        r: Result<(), Error>)
        ensures
            columns@.len() != properties@.len() ==> r == Err::<(), Error>(
                Error::Usage(UsageKind::InvalidParam),
            ) && final(self)@ == old(self)@,
            columns@.len() == properties@.len() ==> {
                &&& r == Ok::<(), Error>(())
                &&& final(self)@.len() == old(self)@.len() + 1
                &&& final(self)@.last().op_type == ObTableOperationType::Update
                &&& final(self)@.last().row_key == row_key@.map_values(|v: Value| v@)
                &&& final(self)@.last().columns == columns@.map_values(|c: String| c@)
                &&& final(self)@.last().properties == properties@.map_values(|v: Value| v@)
                &&& final(self)@.last().wf()
                &&& forall|i: int| 0 <= i < old(self)@.len() ==> final(self)@[i] == old(self)@[i]
            },
            final(self).spec_atomic() == old(self).spec_atomic(),
    {
        self.write(ObTableOperationType::Update, row_key, columns, properties)
    }

    /// Appends a replace.
    pub fn replace(&mut self, row_key: Vec<Value>, columns: Vec<String>, properties: Vec<
        Value,
    >) -> (r: Result<(), Error>)
        ensures
            columns@.len() != properties@.len() ==> r == Err::<(), Error>(
                Error::Usage(UsageKind::InvalidParam),
            ) && final(self)@ == old(self)@,
            columns@.len() == properties@.len() ==> {
                &&& r == Ok::<(), Error>(())
                &&& final(self)@.len() == old(self)@.len() + 1
                &&& final(self)@.last().op_type == ObTableOperationType::Replace
                &&& final(self)@.last().row_key == row_key@.map_values(|v: Value| v@)
                &&& final(self)@.last().columns == columns@.map_values(|c: String| c@)
                &&& final(self)@.last().properties == properties@.map_values(|v: Value| v@)
                &&& final(self)@.last().wf()
                &&& forall|i: int| 0 <= i < old(self)@.len() ==> final(self)@[i] == old(self)@[i]
            },
            final(self).spec_atomic() == old(self).spec_atomic(),
    {
        self.write(ObTableOperationType::Replace, row_key, columns, properties)
    }

    /// Appends an insert-or-update.
    pub fn insert_or_update(&mut self, row_key: Vec<Value>, columns: Vec<String>, properties: Vec<
        Value,
    >) -> (r: Result<(), Error>)
        ensures
            columns@.len() != properties@.len() ==> r == Err::<(), Error>(
                Error::Usage(UsageKind::InvalidParam),
            ) && final(self)@ == old(self)@,
            columns@.len() == properties@.len() ==> {
                &&& r == Ok::<(), Error>(())
                &&& final(self)@.len() == old(self)@.len() + 1
                &&& final(self)@.last().op_type == ObTableOperationType::InsertOrUpdate
                &&& final(self)@.last().row_key == row_key@.map_values(|v: Value| v@)
                &&& final(self)@.last().columns == columns@.map_values(|c: String| c@)
                &&& final(self)@.last().properties == properties@.map_values(|v: Value| v@)
                &&& final(self)@.last().wf()
                &&& forall|i: int| 0 <= i < old(self)@.len() ==> final(self)@[i] == old(self)@[i]
            },
            final(self).spec_atomic() == old(self).spec_atomic(),
    {
        self.write(ObTableOperationType::InsertOrUpdate, row_key, columns, properties)
    }

    /// Appends an increment.
    pub fn increment(&mut self, row_key: Vec<Value>, columns: Vec<String>, properties: Vec<
        Value,
    >) -> (r: Result<(), Error>)
        ensures
            columns@.len() != properties@.len() ==> r == Err::<(), Error>(
                Error::Usage(UsageKind::InvalidParam),
            ) && final(self)@ == old(self)@,
            columns@.len() == properties@.len() ==> {
                &&& r == Ok::<(), Error>(())
                &&& final(self)@.len() == old(self)@.len() + 1
                &&& final(self)@.last().op_type == ObTableOperationType::Increment
                &&& final(self)@.last().row_key == row_key@.map_values(|v: Value| v@)
                &&& final(self)@.last().columns == columns@.map_values(|c: String| c@)
                &&& final(self)@.last().properties == properties@.map_values(|v: Value| v@)
                &&& final(self)@.last().wf()
                &&& forall|i: int| 0 <= i < old(self)@.len() ==> final(self)@[i] == old(self)@[i]
            },
            final(self).spec_atomic() == old(self).spec_atomic(),
    {
        self.write(ObTableOperationType::Increment, row_key, columns, properties)
    }

    /// Appends an append.
    pub fn append(&mut self, row_key: Vec<Value>, columns: Vec<String>, properties: Vec<Value>) -> (
        r: Result<(), Error>)
        ensures
            columns@.len() != properties@.len() ==> r == Err::<(), Error>(
                Error::Usage(UsageKind::InvalidParam),
            ) && final(self)@ == old(self)@,
            columns@.len() == properties@.len() ==> {
                &&& r == Ok::<(), Error>(())
                &&& final(self)@.len() == old(self)@.len() + 1
                &&& final(self)@.last().op_type == ObTableOperationType::Append
                &&& final(self)@.last().row_key == row_key@.map_values(|v: Value| v@)
                &&& final(self)@.last().columns == columns@.map_values(|c: String| c@)
                &&& final(self)@.last().properties == properties@.map_values(|v: Value| v@)
                &&& final(self)@.last().wf()
                &&& forall|i: int| 0 <= i < old(self)@.len() ==> final(self)@[i] == old(self)@[i]
            },
            final(self).spec_atomic() == old(self).spec_atomic(),
    {
        self.write(ObTableOperationType::Append, row_key, columns, properties)
    }

    /// The operation at `i`.
    pub fn op_at(&self, i: usize) -> (op: &Operation)
        requires
            i < self@.len(),
        ensures
            op@ == self@[i as int],
    {
        &self.ops[i]
    }
}

/// One translated sub-result handed back to the caller: the rows a get
/// retrieved, or the number of rows a write affected.
#[derive(Debug)]
pub enum TableOpResult {
    RetrieveRows(Row),
    AffectedRows(u64),
}

/// A translated sub-result, as contracts see it.
pub enum TableOpResultModel {
    RetrieveRows(RowModel),
    AffectedRows(u64),
}

impl View for TableOpResult {
    type V = TableOpResultModel;

    open spec fn view(&self) -> TableOpResultModel {
        match self {
            TableOpResult::RetrieveRows(r) => TableOpResultModel::RetrieveRows(r@),
            TableOpResult::AffectedRows(n) => TableOpResultModel::AffectedRows(*n),
        }
    }
}

/// One sub-result as the wire delivers it, as contracts see it.
pub struct OperationResultModel {
    pub errno: i32,
    pub message: Seq<char>,
    pub op_type: ObTableOperationType,
    pub entity: RowModel,
    pub affected_rows: u64,
}

/// One sub-result as the wire delivers it: the header's result code and
/// message, the operation kind, the retrieved entity, and the affected count.
#[derive(Debug)]
pub struct ObTableOperationResult {
    errno: i32,
    message: String,
    op_type: ObTableOperationType,
    entity: Row,
    affected_rows: u64,
}

impl View for ObTableOperationResult {
    type V = OperationResultModel;

    closed spec fn view(&self) -> OperationResultModel {
        OperationResultModel {
            errno: self.errno,
            message: self.message@,
            op_type: self.op_type,
            entity: self.entity@,
            affected_rows: self.affected_rows,
        }
    }
}

impl ObTableOperationResult {
    /// Assembles a sub-result as the response parser hands it over.
    pub fn new(errno: i32, message: String, op_type: ObTableOperationType, entity: Row,
        affected_rows: u64) -> (r: ObTableOperationResult)
        ensures
            r@ == (OperationResultModel {
                errno,
                message: message@,
                op_type,
                entity: entity@,
                affected_rows,
            }),
    {
        ObTableOperationResult { errno, message, op_type, entity, affected_rows }
    }

    pub fn errorno(&self) -> (n: i32)
        ensures
            n == self@.errno,
    {
        self.errno
    }

    pub fn operation_type(&self) -> (t: ObTableOperationType)
        ensures
            t == self@.op_type,
    {
        self.op_type
    }

    pub fn affected_rows(&self) -> (n: u64)
        ensures
            n == self@.affected_rows,
    {
        self.affected_rows
    }

    /// Hands out the retrieved entity, leaving an empty one behind.
    pub fn take_entity(&mut self) -> (r: Row)
        ensures
            r@ == old(self)@.entity,
            final(self)@ == (OperationResultModel { entity: Seq::empty(), ..old(self)@ }),
    {
        let mut e = Row::new();
        core::mem::swap(&mut e, &mut self.entity);
        e
    }
}

/// What one sub-result translates to when its header code is success.
pub open spec fn spec_translate_one(m: OperationResultModel) -> TableOpResultModel {
    if m.op_type == ObTableOperationType::Get {
        TableOpResultModel::RetrieveRows(m.entity)
    } else {
        TableOpResultModel::AffectedRows(m.affected_rows)
    }
}

/// The first sub-result whose header code is not success, if any.
pub open spec fn spec_first_failure(s: Seq<OperationResultModel>) -> Option<int>
    decreases s.len(),
{
    if s.len() == 0 {
        None
    } else if s[0].errno != 0 {
        Some(0)
    } else {
        match spec_first_failure(s.skip(1)) {
            Some(i) => Some(i + 1),
            None => None,
        }
    }
}

/// A sub-result that fails after an all-success prefix is the first failure.
proof fn lemma_first_failure_found(s: Seq<OperationResultModel>, i: int)
    requires
        0 <= i < s.len(),
        forall|j: int| 0 <= j < i ==> s[j].errno == 0,
        s[i].errno != 0,
    ensures
        spec_first_failure(s) == Some(i),
    decreases i,
{
    if i > 0 {
        assert forall|j: int| 0 <= j < i - 1 implies s.skip(1)[j].errno == 0 by {
            assert(s.skip(1)[j] == s[j + 1]);
        }
        assert(s.skip(1)[i - 1] == s[i]);
        lemma_first_failure_found(s.skip(1), i - 1);
    }
}

/// The first failure, when there is one, points at a failing sub-result.
pub proof fn lemma_first_failure_some(s: Seq<OperationResultModel>)
    ensures
        spec_first_failure(s) matches Some(fi) ==> 0 <= fi < s.len() && s[fi].errno != 0,
    decreases s.len(),
{
    if s.len() > 0 && s[0].errno == 0 {
        lemma_first_failure_some(s.skip(1));
        match spec_first_failure(s.skip(1)) {
            Some(fj) => {
                assert(s.skip(1)[fj] == s[fj + 1]);
            },
            None => {},
        }
    }
}

/// Without a first failure, every header code is success.
pub proof fn lemma_first_failure_none_all(s: Seq<OperationResultModel>)
    requires
        spec_first_failure(s) is None,
    ensures
        forall|j: int| 0 <= j < s.len() ==> (#[trigger] s[j].errno) == 0,
    decreases s.len(),
{
    if s.len() > 0 {
        lemma_first_failure_none_all(s.skip(1));
        assert forall|j: int| 0 <= j < s.len() implies (#[trigger] s[j].errno) == 0 by {
            if j > 0 {
                assert(s.skip(1)[j - 1] == s[j]);
            }
        }
    }
}

/// A response whose every header code is success has no first failure.
proof fn lemma_first_failure_none(s: Seq<OperationResultModel>)
    requires
        forall|j: int| 0 <= j < s.len() ==> s[j].errno == 0,
    ensures
        spec_first_failure(s) is None,
    decreases s.len(),
{
    if s.len() > 0 {
        assert forall|j: int| 0 <= j < s.skip(1).len() implies s.skip(1)[j].errno == 0 by {
            assert(s.skip(1)[j] == s[j + 1]);
        }
        lemma_first_failure_none(s.skip(1));
    }
}

/// A batch response: the server's sub-results in the order the client sent
/// the operations.
#[derive(Debug)]
pub struct ObTableBatchOperationResult {
    op_results: Vec<ObTableOperationResult>,
}

impl View for ObTableBatchOperationResult {
    type V = Seq<OperationResultModel>;

    closed spec fn view(&self) -> Seq<OperationResultModel> {
        self.op_results@.map_values(|r: ObTableOperationResult| r@)
    }
}

impl ObTableBatchOperationResult {
    /// An empty batch response.
    pub fn new() -> (r: ObTableBatchOperationResult)
        ensures
            r@ == Seq::<OperationResultModel>::empty(),
    {
        let r = ObTableBatchOperationResult { op_results: Vec::new() };
        proof {
            assert(r@ =~= Seq::<OperationResultModel>::empty());
        }
        r
    }

    /// Appends one sub-result, as the response parser does.
    pub fn push(&mut self, r: ObTableOperationResult)
        ensures
            final(self)@ == old(self)@.push(r@),
    {
        self.op_results.push(r);
        proof {
            assert(self@ =~= old(self)@.push(r@));
        }
    }

    /// Hands out the sub-results.
    pub fn take_op_results(self) -> (r: Vec<ObTableOperationResult>)
        ensures
            r@.map_values(|x: ObTableOperationResult| x@) == self@,
    {
        self.op_results
    }

    /// Translates a batch response for the caller. While every header code
    /// is success, each sub-result becomes the rows a get retrieved or the
    /// count a write affected, in wire order; at the first non-success code
    /// translation stops and that code and the server's message surface as a
    /// server exception.
    pub fn into_results(self) -> (r: Result<Vec<TableOpResult>, Error>)
        ensures
            match spec_first_failure(self@) {
                None => r matches Ok(rs) && rs@.len() == self@.len() && forall|i: int|
                    0 <= i < self@.len() ==> rs@[i]@ == spec_translate_one(self@[i]),
                Some(fi) => r matches Err(e) && e matches Error::Server(code, msg)
                    && code.spec_errno() == self@[fi].errno && !(code is ObSuccess) && msg@
                    == self@[fi].message,
            },
    {
        let ghost s = self@;
        let mut results: Vec<TableOpResult> = Vec::new();
        let n = self.op_results.len();
        let mut i: usize = 0;
        while i < n
            invariant
                n == self.op_results.len(),
                s == self@,
                s.len() == n,
                i <= n,
                results@.len() == i,
                forall|j: int| 0 <= j < i ==> s[j].errno == 0,
                forall|j: int| 0 <= j < i ==> results@[j]@ == spec_translate_one(s[j]),
            decreases n - i,
        {
            let op_res = &self.op_results[i];
            let error_no = op_res.errorno();
            let result_code = ResultCodes::from_i32(error_no);

            if matches!(result_code, ResultCodes::ObSuccess) {
                let table_op_result = if matches!(op_res.operation_type(),
                    ObTableOperationType::Get) {
                    let mut taken = self.op_results[i].duplicate_head();
                    TableOpResult::RetrieveRows(taken.take_entity())
                } else {
                    TableOpResult::AffectedRows(op_res.affected_rows())
                };
                results.push(table_op_result);
                proof {
                    assert(s[i as int] == self.op_results@[i as int]@);
                    assert(s[i as int].errno == 0);
                }
            } else {
                proof {
                    assert(s[i as int] == self.op_results@[i as int]@);
                    assert(s[i as int].errno != 0);
                    lemma_first_failure_found(s, i as int);
                }
                return Err(Error::Server(result_code, op_res.message_clone()));
            }
            i += 1;
        }
        proof {
            lemma_first_failure_none(s);
        }
        Ok(results)
    }
}

impl ObTableOperationResult {
    /// A copy of the sub-result.
    pub fn duplicate_head(&self) -> (r: ObTableOperationResult)
        ensures
            r@ == self@,
    {
        ObTableOperationResult {
            errno: self.errno,
            message: self.message.clone(),
            op_type: self.op_type,
            entity: self.entity.duplicate(),
            affected_rows: self.affected_rows,
        }
    }

    /// A copy of the header message.
    pub fn message_clone(&self) -> (r: String)
        ensures
            r@ == self@.message,
    {
        self.message.clone()
    }
}

} // verus!
