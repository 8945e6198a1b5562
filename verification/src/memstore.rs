//! In-process table engine standing for one endpoint's partition replica.
//!
//! Each partition keeps its rows sorted by primary key, so ranged scans come
//! back in key order. Writes keep the order and the uniqueness of keys; the
//! operations implement the server's visible semantics for get, insert,
//! update, replace, insert-or-update, increment, append and delete.

use vstd::prelude::*;
use vstd::string::StringExecFns;

use crate::order::{
    key_eq_exec, key_lt, key_lt_exec, key_view, lemma_key_lt_irrefl, lemma_key_lt_total,
    lemma_key_lt_trans,
};
use crate::operation::{ObTableOperationType, OperationModel, OperationResultModel};
use crate::row::{model_wf, spec_lookup, Row, RowModel};
use crate::strutil::{str_eq, str_to_owned};
use crate::value::Value;
use crate::value::ValueModel;

verus! {

/// A row key, as contracts see it.
pub type KeyModel = Seq<ValueModel>;

/// One partition's rows in key order, as contracts see them.
pub type StoreModel = Seq<(KeyModel, RowModel)>;

/// Keys strictly ascend, so they are unique.
pub open spec fn store_sorted(s: StoreModel) -> bool {
    forall|i: int, j: int| 0 <= i < j < s.len() ==> key_lt(s[i].0, s[j].0)
}

/// Sorted, and every row is well formed.
pub open spec fn store_wf(s: StoreModel) -> bool {
    &&& store_sorted(s)
    &&& forall|i: int| 0 <= i < s.len() ==> model_wf(#[trigger] s[i].1)
}

/// The row stored under `k`, walking the partition in order.
pub open spec fn spec_find(s: StoreModel, k: KeyModel) -> Option<RowModel>
    decreases s.len(),
{
    if s.len() == 0 {
        None
    } else if s[0].0 == k {
        Some(s[0].1)
    } else {
        spec_find(s.skip(1), k)
    }
}

/// The partition with `(k, r)` put at its place in key order.
pub open spec fn spec_insert_sorted(s: StoreModel, k: KeyModel, r: RowModel) -> StoreModel
    decreases s.len(),
{
    if s.len() == 0 {
        seq![(k, r)]
    } else if key_lt(k, s[0].0) {
        seq![(k, r)] + s
    } else {
        seq![s[0]] + spec_insert_sorted(s.skip(1), k, r)
    }
}

/// The partition without the row stored under `k`.
pub open spec fn spec_remove_key(s: StoreModel, k: KeyModel) -> StoreModel
    decreases s.len(),
{
    if s.len() == 0 {
        s
    } else if s[0].0 == k {
        s.skip(1)
    } else {
        seq![s[0]] + spec_remove_key(s.skip(1), k)
    }
}

/// One key precedes another or the other way round, never both.
pub proof fn lemma_key_lt_asym(a: KeyModel, b: KeyModel)
    requires
        key_lt(a, b),
    ensures
        !key_lt(b, a),
        a != b,
{
    if key_lt(b, a) {
        lemma_key_lt_trans(a, b, a);
        lemma_key_lt_irrefl(a);
    }
    lemma_key_lt_irrefl(a);
}

/// Skipping entries under other keys does not change the lookup.
proof fn lemma_find_advance(s: StoreModel, k: KeyModel, i: int)
    requires
        0 <= i <= s.len(),
        forall|j: int| 0 <= j < i ==> s[j].0 != k,
    ensures
        spec_find(s, k) == spec_find(s.skip(i), k),
    decreases i,
{
    if i > 0 {
        assert forall|j: int| 0 <= j < i - 1 implies s.skip(1)[j].0 != k by {
            assert(s.skip(1)[j] == s[j + 1]);
        }
        lemma_find_advance(s.skip(1), k, i - 1);
        assert(s.skip(1).skip(i - 1) =~= s.skip(i));
    } else {
        assert(s.skip(0) =~= s);
    }
}

/// A key under every entry of a sorted partition is not stored in it.
proof fn lemma_find_none_below(s: StoreModel, k: KeyModel)
    requires
        store_sorted(s),
        s.len() > 0 ==> key_lt(k, s[0].0),
    ensures
        spec_find(s, k) is None,
    decreases s.len(),
{
    if s.len() > 0 {
        lemma_key_lt_asym(k, s[0].0);
        assert forall|i: int, j: int|
            0 <= i < j < s.skip(1).len() implies key_lt(s.skip(1)[i].0, s.skip(1)[j].0) by {
            assert(s.skip(1)[i] == s[i + 1]);
            assert(s.skip(1)[j] == s[j + 1]);
        }
        if s.len() > 1 {
            assert(s.skip(1)[0] == s[1]);
            lemma_key_lt_trans(k, s[0].0, s[1].0);
        }
        lemma_find_none_below(s.skip(1), k);
    }
}

/// Where `spec_insert_sorted` puts a fresh entry, concretely.
proof fn lemma_insert_sorted_at(s: StoreModel, k: KeyModel, r: RowModel, i: int)
    requires
        0 <= i <= s.len(),
        forall|j: int| 0 <= j < i ==> key_lt(#[trigger] s[j].0, k),
        i < s.len() ==> key_lt(k, s[i].0),
    ensures
        spec_insert_sorted(s, k, r) == s.subrange(0, i) + seq![(k, r)] + s.skip(i),
    decreases i,
{
    if i == 0 {
        if s.len() == 0 {
            assert(spec_insert_sorted(s, k, r) =~= s.subrange(0, 0) + seq![(k, r)] + s.skip(0));
        } else {
            assert(spec_insert_sorted(s, k, r) =~= s.subrange(0, 0) + seq![(k, r)] + s.skip(0));
        }
    } else {
        lemma_key_lt_asym(s[0].0, k);
        assert forall|j: int| 0 <= j < i - 1 implies key_lt(#[trigger] s.skip(1)[j].0, k) by {
            assert(s.skip(1)[j] == s[j + 1]);
        }
        if i - 1 < s.skip(1).len() {
            assert(s.skip(1)[i - 1] == s[i]);
        }
        lemma_insert_sorted_at(s.skip(1), k, r, i - 1);
        assert(s.skip(1).subrange(0, i - 1) =~= s.subrange(1, i));
        assert(s.skip(1).skip(i - 1) =~= s.skip(i));
        assert(seq![s[0]] + (s.subrange(1, i) + seq![(k, r)] + s.skip(i)) =~= s.subrange(0, i)
            + seq![(k, r)] + s.skip(i));
    }
}

/// Where `spec_remove_key` takes an entry out, concretely.
proof fn lemma_remove_key_at(s: StoreModel, k: KeyModel, i: int)
    requires
        0 <= i < s.len(),
        forall|j: int| 0 <= j < i ==> s[j].0 != k,
        s[i].0 == k,
    ensures
        spec_remove_key(s, k) == s.subrange(0, i) + s.skip(i + 1),
    decreases i,
{
    if i == 0 {
        assert(spec_remove_key(s, k) =~= s.subrange(0, 0) + s.skip(1));
    } else {
        assert forall|j: int| 0 <= j < i - 1 implies s.skip(1)[j].0 != k by {
            assert(s.skip(1)[j] == s[j + 1]);
        }
        assert(s.skip(1)[i - 1] == s[i]);
        lemma_remove_key_at(s.skip(1), k, i - 1);
        assert(s.skip(1).subrange(0, i - 1) =~= s.subrange(1, i));
        assert(s.skip(1).skip(i) =~= s.skip(i + 1));
        assert(seq![s[0]] + (s.subrange(1, i) + s.skip(i + 1)) =~= s.subrange(0, i) + s.skip(
            i + 1,
        ));
    }
}

/// One partition: rows sorted by primary key.
#[derive(Debug)]
pub struct TableData {
    rows: Vec<(Vec<Value>, Row)>,
}

impl View for TableData {
    type V = StoreModel;

    closed spec fn view(&self) -> StoreModel {
        self.rows@.map_values(|p: (Vec<Value>, Row)| (key_view(p.0@), p.1@))
    }
}

impl TableData {
    pub open spec fn wf(self) -> bool {
        store_wf(self@)
    }

    /// An empty partition.
    pub fn new() -> (t: TableData)
        ensures
            t@ == Seq::<(KeyModel, RowModel)>::empty(),
            t.wf(),
    {
        let t = TableData { rows: Vec::new() };
        proof {
            assert(t@ =~= Seq::<(KeyModel, RowModel)>::empty());
        }
        t
    }

    /// Number of rows stored.
    pub fn len(&self) -> (n: usize)
        ensures
            n == self@.len(),
    {
        self.rows.len()
    }

    /// The position `key` has or would take, and whether it is stored.
    fn locate(&self, key: &Vec<Value>) -> (r: (usize, bool))
        requires
            self.wf(),
        ensures
            r.0 <= self@.len(),
            forall|j: int| 0 <= j < r.0 ==> key_lt(#[trigger] self@[j].0, key_view(key@)),
            r.1 ==> r.0 < self@.len() && self@[r.0 as int].0 == key_view(key@) && spec_find(
                self@,
                key_view(key@),
            ) == Some(self@[r.0 as int].1),
            !r.1 ==> spec_find(self@, key_view(key@)) is None && (r.0 < self@.len() ==> key_lt(
                key_view(key@),
                self@[r.0 as int].0,
            )),
    {
        let ghost k = key_view(key@);
        let n = self.rows.len();
        let mut i: usize = 0;
        while i < n
            invariant
                self.wf(),
                n == self.rows.len(),
                n == self@.len(),
                i <= n,
                k == key_view(key@),
                forall|j: int| 0 <= j < i ==> key_lt(#[trigger] self@[j].0, k),
            ensures
                i <= n,
                forall|j: int| 0 <= j < i ==> key_lt(#[trigger] self@[j].0, k),
                i < n ==> !key_lt(self@[i as int].0, k),
            decreases n - i,
        {
            proof {
                assert(self@[i as int] == (key_view(self.rows@[i as int].0@),
                self.rows@[i as int].1@));
            }
            if !key_lt_exec(&self.rows[i].0, key) {
                break ;
            }
            i += 1;
        }
        if i < n {
            proof {
                assert(self@[i as int] == (key_view(self.rows@[i as int].0@),
                self.rows@[i as int].1@));
            }
            let eq = key_eq_exec(&self.rows[i].0, key);
            proof {
                assert forall|j: int| 0 <= j < i implies self@[j].0 != k by {
                    lemma_key_lt_asym(self@[j].0, k);
                }
                if eq {
                    lemma_find_advance(self@, k, i as int);
                    assert(self@.skip(i as int)[0] == self@[i as int]);
                } else {
                    lemma_key_lt_total(self@[i as int].0, k);
                    lemma_find_advance(self@, k, i as int);
                    assert forall|i2: int, j2: int|
                        0 <= i2 < j2 < self@.skip(i as int).len() implies key_lt(
                        self@.skip(i as int)[i2].0,
                        self@.skip(i as int)[j2].0,
                    ) by {
                        assert(self@.skip(i as int)[i2] == self@[i2 + i]);
                        assert(self@.skip(i as int)[j2] == self@[j2 + i]);
                    }
                    assert(self@.skip(i as int)[0] == self@[i as int]);
                    lemma_find_none_below(self@.skip(i as int), k);
                }
            }
            (i, eq)
        } else {
            proof {
                assert forall|j: int| 0 <= j < i implies self@[j].0 != k by {
                    lemma_key_lt_asym(self@[j].0, k);
                }
                lemma_find_advance(self@, k, i as int);
                assert(self@.skip(i as int).len() == 0);
            }
            (i, false)
        }
    }

    /// Stores a fresh row under `key`; a key already stored is refused (the
    /// server answers with a duplicate-primary-key code).
    pub fn insert_row(&mut self, key: &Vec<Value>, row: Row) -> (ok: bool)
        requires
            old(self).wf(),
            row.wf(),
        ensures
            final(self).wf(),
            ok == (spec_find(old(self)@, key_view(key@)) is None),
            !ok ==> final(self)@ == old(self)@,
            ok ==> final(self)@ == spec_insert_sorted(old(self)@, key_view(key@), row@),
            ok ==> final(self)@.len() == old(self)@.len() + 1,
    {
        let ghost k = key_view(key@);
        let (i, found) = self.locate(key);
        if found {
            return false;
        }
        let ghost pre = self@;
        let owned_key = clone_key(key);
        self.rows.insert(i, (owned_key, row));
        proof {
            assert forall|j: int|
                0 <= j < self@.len() implies #[trigger] self@[j] == (if j < i {
                pre[j]
            } else if j == i {
                (k, row@)
            } else {
                pre[j - 1]
            }) by {
                assert(self.rows@[j] == old(self).rows@.insert(i as int, (
                    self.rows@[i as int].0,
                    self.rows@[i as int].1,
                ))[j]);
                assert(self@[j] == (key_view(self.rows@[j].0@), self.rows@[j].1@));
            }
            lemma_insert_sorted_at(pre, k, row@, i as int);
            assert(self@ =~= pre.subrange(0, i as int) + seq![(k, row@)] + pre.skip(i as int));
            assert forall|x: int, y: int|
                0 <= x < y < self@.len() implies key_lt(self@[x].0, self@[y].0) by {
                if y < i {
                } else if y == i {
                    assert(key_lt(pre[x].0, k));
                } else if x == i {
                    if y - 1 == i {
                        assert(key_lt(k, pre[i as int].0));
                    } else {
                        assert(key_lt(k, pre[i as int].0));
                        assert(key_lt(pre[i as int].0, pre[y - 1].0));
                        lemma_key_lt_trans(k, pre[i as int].0, pre[y - 1].0);
                    }
                } else if x < i && y > i {
                    assert(key_lt(pre[x].0, pre[y - 1].0));
                } else {
                    assert(key_lt(pre[x - 1].0, pre[y - 1].0));
                }
            }
        }
        true
    }

    /// Removes the row under `key`, answering whether one was stored.
    pub fn delete_row(&mut self, key: &Vec<Value>) -> (existed: bool)
        requires
            old(self).wf(),
        ensures
            final(self).wf(),
            existed == (spec_find(old(self)@, key_view(key@)) is Some),
            !existed ==> final(self)@ == old(self)@,
            existed ==> final(self)@ == spec_remove_key(old(self)@, key_view(key@)),
            existed ==> final(self)@.len() == old(self)@.len() - 1,
    {
        let ghost k = key_view(key@);
        let (i, found) = self.locate(key);
        if !found {
            return false;
        }
        let ghost pre = self@;
        self.rows.remove(i);
        proof {
            assert forall|j: int|
                0 <= j < self@.len() implies #[trigger] self@[j] == (if j < i {
                pre[j]
            } else {
                pre[j + 1]
            }) by {
                assert(self.rows@[j] == old(self).rows@.remove(i as int)[j]);
                assert(self@[j] == (key_view(self.rows@[j].0@), self.rows@[j].1@));
            }
            assert forall|j: int| 0 <= j < i implies pre[j].0 != k by {
                lemma_key_lt_asym(pre[j].0, k);
            }
            lemma_remove_key_at(pre, k, i as int);
            assert(self@ =~= pre.subrange(0, i as int) + pre.skip(i as int + 1));
        }
        true
    }

    /// Replaces the whole row under `key`, or stores it fresh. Answers the
    /// count the server reports: two when a row was replaced, one when the
    /// insert path was taken.
    pub fn replace_row(&mut self, key: &Vec<Value>, row: Row) -> (affected: u64)
        requires
            old(self).wf(),
            row.wf(),
        ensures
            final(self).wf(),
            spec_find(old(self)@, key_view(key@)) is Some ==> affected == 2 && final(self)@ == old(
                self,
            )@.update(spec_index_of(old(self)@, key_view(key@)), (key_view(key@), row@)),
            spec_find(old(self)@, key_view(key@)) is None ==> affected == 1 && final(self)@
                == spec_insert_sorted(old(self)@, key_view(key@), row@),
    {
        let ghost k = key_view(key@);
        let (i, found) = self.locate(key);
        if found {
            let ghost pre = self@;
            let owned_key = clone_key(key);
            self.rows[i] = (owned_key, row);
            proof {
                assert forall|j: int|
                    0 <= j < self@.len() implies #[trigger] self@[j] == (if j == i {
                    (k, row@)
                } else {
                    pre[j]
                }) by {
                    assert(self.rows@[j] == old(self).rows@.update(i as int, (
                        self.rows@[i as int].0,
                        self.rows@[i as int].1,
                    ))[j]);
                    assert(self@[j] == (key_view(self.rows@[j].0@), self.rows@[j].1@));
                }
                assert forall|j: int| 0 <= j < i implies pre[j].0 != k by {
                    lemma_key_lt_asym(pre[j].0, k);
                }
                lemma_index_of_at(pre, k, i as int);
                assert(self@ =~= pre.update(i as int, (k, row@)));
                assert forall|x: int, y: int|
                    0 <= x < y < self@.len() implies key_lt(self@[x].0, self@[y].0) by {
                    assert(self@[x].0 == pre[x].0);
                    assert(self@[y].0 == pre[y].0);
                }
            }
            2
        } else {
            let inserted = self.insert_row(key, row);
            1
        }
    }
}

/// The position of the row stored under `k`.
pub open spec fn spec_index_of(s: StoreModel, k: KeyModel) -> int
    decreases s.len(),
{
    if s.len() == 0 {
        0
    } else if s[0].0 == k {
        0
    } else {
        1 + spec_index_of(s.skip(1), k)
    }
}

/// Where the stored key sits, concretely.
proof fn lemma_index_of_at(s: StoreModel, k: KeyModel, i: int)
    requires
        0 <= i < s.len(),
        forall|j: int| 0 <= j < i ==> s[j].0 != k,
        s[i].0 == k,
    ensures
        spec_index_of(s, k) == i,
    decreases i,
{
    if i > 0 {
        assert forall|j: int| 0 <= j < i - 1 implies s.skip(1)[j].0 != k by {
            assert(s.skip(1)[j] == s[j + 1]);
        }
        assert(s.skip(1)[i - 1] == s[i]);
        lemma_index_of_at(s.skip(1), k, i - 1);
    }
}

/// A copy of a row key, part for part.
pub fn clone_key(k: &Vec<Value>) -> (r: Vec<Value>)
    ensures
        key_view(r@) == key_view(k@),
{
    let mut r: Vec<Value> = Vec::new();
    let mut i: usize = 0;
    while i < k.len()
        invariant
            i <= k.len(),
            r@.len() == i,
            forall|j: int| 0 <= j < i ==> r@[j]@ == k@[j]@,
        decreases k.len() - i,
    {
        r.push(k[i].duplicate());
        i += 1;
    }
    proof {
        assert forall|j: int|
            0 <= j < k@.len() implies key_view(r@)[j] == key_view(k@)[j] by {
            assert(key_view(r@)[j] == r@[j]@);
            assert(key_view(k@)[j] == k@[j]@);
        }
        assert(key_view(r@) =~= key_view(k@));
    }
    r
}

/// The column names of a select or write list.
pub open spec fn col_names(cs: Seq<String>) -> Seq<Seq<char>> {
    cs.map_values(|c: String| c@)
}

/// What a write list binds `c` to; a later binding wins.
pub open spec fn spec_props_lookup(cols: Seq<Seq<char>>, props: Seq<ValueModel>, c: Seq<
    char,
>) -> Option<ValueModel>
    decreases cols.len(),
{
    if cols.len() == 0 || props.len() == 0 {
        None
    } else if cols.last() == c {
        Some(props.last())
    } else {
        spec_props_lookup(cols.drop_last(), props.drop_last(), c)
    }
}

/// A row merged with a write list: written columns take the written value,
/// the others keep theirs.
pub open spec fn spec_merged(base: RowModel, cols: Seq<Seq<char>>, props: Seq<ValueModel>, c: Seq<
    char,
>) -> Option<ValueModel> {
    match spec_props_lookup(cols, props, c) {
        Some(v) => Some(v),
        None => spec_lookup(base, c),
    }
}

/// Builds the row a write list describes.
pub fn build_row(columns: &Vec<String>, properties: &Vec<Value>) -> (r: Row)
    requires
        columns@.len() == properties@.len(),
    ensures
        r.wf(),
        forall|c: Seq<char>| #[trigger]
            spec_lookup(r@, c) == spec_props_lookup(
                col_names(columns@),
                key_view(properties@),
                c,
            ),
{
    let ghost cs = col_names(columns@);
    let ghost ps = key_view(properties@);
    let mut r = Row::new();
    let n = columns.len();
    let mut i: usize = 0;
    while i < n
        invariant
            n == columns@.len() && n == properties@.len(),
            cs == col_names(columns@) && ps == key_view(properties@),
            i <= n,
            r.wf(),
            forall|c: Seq<char>| #[trigger]
                spec_lookup(r@, c) == spec_props_lookup(
                    cs.subrange(0, i as int),
                    ps.subrange(0, i as int),
                    c,
                ),
        decreases n - i,
    {
        let v = properties[i].duplicate();
        r.insert(columns[i].as_str(), v);
        proof {
            assert(cs[i as int] == columns@[i as int]@);
            assert(ps[i as int] == properties@[i as int]@);
            assert(cs.subrange(0, i + 1).drop_last() =~= cs.subrange(0, i as int));
            assert(ps.subrange(0, i + 1).drop_last() =~= ps.subrange(0, i as int));
            assert(cs.subrange(0, i + 1).last() == cs[i as int]);
            assert(ps.subrange(0, i + 1).last() == ps[i as int]);
        }
        i += 1;
    }
    proof {
        assert(cs.subrange(0, n as int) =~= cs);
        assert(ps.subrange(0, n as int) =~= ps);
    }
    r
}

/// Projects a row onto a select list; an empty list selects every column.
pub fn project_row(row: &Row, columns: &Vec<String>) -> (r: Row)
    requires
        row.wf(),
    ensures
        r.wf(),
        forall|c: Seq<char>| #[trigger]
            spec_lookup(r@, c) == (if columns@.len() == 0 || col_names(columns@).contains(c) {
                spec_lookup(row@, c)
            } else {
                None
            }),
{
    if columns.len() == 0 {
        return row.duplicate();
    }
    let ghost cs = col_names(columns@);
    let mut r = Row::new();
    let n = columns.len();
    let mut i: usize = 0;
    while i < n
        invariant
            n == columns@.len(),
            cs == col_names(columns@),
            i <= n,
            r.wf(),
            row.wf(),
            forall|c: Seq<char>| #[trigger]
                spec_lookup(r@, c) == (if cs.subrange(0, i as int).contains(c) {
                    spec_lookup(row@, c)
                } else {
                    None
                }),
        decreases n - i,
    {
        let ghost pre = r@;
        match row.get(columns[i].as_str()) {
            Some(v) => {
                r.insert(columns[i].as_str(), v);
            },
            None => (),
        }
        proof {
            assert(cs[i as int] == columns@[i as int]@);
            assert forall|c: Seq<char>|
                cs.subrange(0, i + 1).contains(c) == (cs.subrange(0, i as int).contains(c) || c
                    == cs[i as int]) by {
                if cs.subrange(0, i + 1).contains(c) {
                    let w = choose|w: int|
                        0 <= w < cs.subrange(0, i + 1).len() && #[trigger] cs.subrange(
                            0,
                            i + 1,
                        )[w] == c;
                    if w < i {
                        assert(cs.subrange(0, i as int)[w] == c);
                    }
                }
                if cs.subrange(0, i as int).contains(c) {
                    let w = choose|w: int|
                        0 <= w < cs.subrange(0, i as int).len() && #[trigger] cs.subrange(
                            0,
                            i as int,
                        )[w] == c;
                    assert(cs.subrange(0, i + 1)[w] == c);
                }
                if c == cs[i as int] {
                    assert(cs.subrange(0, i + 1)[i as int] == c);
                }
            }
            if spec_lookup(row@, cs[i as int]) is None {
                assert(spec_lookup(r@, cs[i as int]) == (if cs.subrange(0, i as int).contains(
                    cs[i as int],
                ) {
                    spec_lookup(row@, cs[i as int])
                } else {
                    None
                }));
            }
        }
        i += 1;
    }
    proof {
        assert(cs.subrange(0, n as int) =~= cs);
    }
    r
}

/// Updating one entry's row in place does not move the other keys' lookups.
proof fn lemma_find_update_other(s: StoreModel, i: int, p: (KeyModel, RowModel), k2: KeyModel)
    requires
        0 <= i < s.len(),
        p.0 == s[i].0,
        k2 != p.0,
    ensures
        spec_find(s.update(i, p), k2) == spec_find(s, k2),
    decreases s.len(),
{
    if i == 0 {
        assert(s.update(0, p).skip(1) =~= s.skip(1));
    } else {
        assert(s.update(i, p).skip(1) =~= s.skip(1).update(i - 1, p));
        assert(s.skip(1)[i - 1] == s[i]);
        lemma_find_update_other(s.skip(1), i - 1, p, k2);
    }
}

/// A fresh entry under one key does not move the other keys' lookups.
proof fn lemma_find_insert_other(s: StoreModel, k: KeyModel, r: RowModel, k2: KeyModel)
    requires
        k2 != k,
    ensures
        spec_find(spec_insert_sorted(s, k, r), k2) == spec_find(s, k2),
    decreases s.len(),
{
    let out = spec_insert_sorted(s, k, r);
    if s.len() == 0 {
        assert(out =~= seq![(k, r)]);
        assert(out[0] == (k, r));
        let t = out.skip(1);
        assert(t =~= Seq::<(KeyModel, RowModel)>::empty());
        assert(spec_find(t, k2) is None);
        assert(spec_find(out, k2) == spec_find(t, k2));
        assert(spec_find(s, k2) is None);
    } else if key_lt(k, s[0].0) {
        assert(out == seq![(k, r)] + s);
        assert(out[0] == (k, r));
        assert(out.skip(1) =~= s);
        assert(spec_find(out, k2) == spec_find(s, k2));
    } else {
        assert(out == seq![s[0]] + spec_insert_sorted(s.skip(1), k, r));
        assert(out[0] == s[0]);
        assert(out.skip(1) =~= spec_insert_sorted(s.skip(1), k, r));
        lemma_find_insert_other(s.skip(1), k, r, k2);
        if s[0].0 == k2 {
            assert(spec_find(out, k2) == Some(out[0].1));
            assert(spec_find(s, k2) == Some(s[0].1));
        } else {
            assert(spec_find(out, k2) == spec_find(out.skip(1), k2));
            assert(spec_find(s, k2) == spec_find(s.skip(1), k2));
        }
    }
}

impl TableData {
    /// Reads the row under `key`, projected onto the select list. A missing
    /// row reads as an empty entity, as the server reports it.
    pub fn get_row(&self, key: &Vec<Value>, columns: &Vec<String>) -> (r: Row)
        requires
            self.wf(),
        ensures
            r.wf(),
            match spec_find(self@, key_view(key@)) {
                Some(m) => forall|c: Seq<char>| #[trigger]
                    spec_lookup(r@, c) == (if columns@.len() == 0 || col_names(
                        columns@,
                    ).contains(c) {
                        spec_lookup(m, c)
                    } else {
                        None
                    }),
                None => r@.len() == 0,
            },
    {
        let (i, found) = self.locate(key);
        if found {
            proof {
                assert(self@[i as int] == (key_view(self.rows@[i as int].0@),
                self.rows@[i as int].1@));
            }
            project_row(&self.rows[i].1, columns)
        } else {
            Row::new()
        }
    }

    /// Merges a write list into the row at `i`; its key and every other
    /// entry stay put.
    fn merge_at(&mut self, i: usize, columns: &Vec<String>, properties: &Vec<Value>)
        requires
            old(self).wf(),
            i < old(self)@.len(),
            columns@.len() == properties@.len(),
        ensures
            final(self).wf(),
            final(self)@.len() == old(self)@.len(),
            forall|j: int| 0 <= j < old(self)@.len() && j != i ==> final(self)@[j] == old(self)@[j],
            final(self)@[i as int].0 == old(self)@[i as int].0,
            model_wf(final(self)@[i as int].1),
            forall|c: Seq<char>| #[trigger]
                spec_lookup(final(self)@[i as int].1, c) == spec_merged(
                    old(self)@[i as int].1,
                    col_names(columns@),
                    key_view(properties@),
                    c,
                ),
    {
        let ghost cs = col_names(columns@);
        let ghost ps = key_view(properties@);
        let ghost base = old(self)@[i as int].1;
        let ghost pre = self@;
        let mut entry = self.rows.remove(i);
        proof {
            assert(entry.1@ == base) by {
                assert(pre[i as int] == (key_view(old(self).rows@[i as int].0@),
                old(self).rows@[i as int].1@));
            }
        }
        let n = columns.len();
        let mut j: usize = 0;
        while j < n
            invariant
                n == columns@.len() && n == properties@.len(),
                cs == col_names(columns@) && ps == key_view(properties@),
                j <= n,
                i < old(self)@.len(),
                self.rows@ == old(self).rows@.remove(i as int),
                key_view(entry.0@) == pre[i as int].0,
                pre == old(self)@,
                entry.1.wf(),
                forall|c: Seq<char>| #[trigger]
                    spec_lookup(entry.1@, c) == spec_merged(
                        base,
                        cs.subrange(0, j as int),
                        ps.subrange(0, j as int),
                        c,
                    ),
            decreases n - j,
        {
            let v = properties[j].duplicate();
            entry.1.insert(columns[j].as_str(), v);
            proof {
                assert(cs[j as int] == columns@[j as int]@);
                assert(ps[j as int] == properties@[j as int]@);
                assert(cs.subrange(0, j + 1).drop_last() =~= cs.subrange(0, j as int));
                assert(ps.subrange(0, j + 1).drop_last() =~= ps.subrange(0, j as int));
                assert(cs.subrange(0, j + 1).last() == cs[j as int]);
                assert(ps.subrange(0, j + 1).last() == ps[j as int]);
            }
            j += 1;
        }
        proof {
            assert(cs.subrange(0, n as int) =~= cs);
            assert(ps.subrange(0, n as int) =~= ps);
        }
        self.rows.insert(i, entry);
        proof {
            assert forall|x: int|
                0 <= x < self@.len() implies #[trigger] self@[x] == (if x == i {
                (pre[i as int].0, self.rows@[i as int].1@)
            } else {
                pre[x]
            }) by {
                let removed = old(self).rows@.remove(i as int);
                assert(self.rows@[x] == removed.insert(i as int, (
                    self.rows@[i as int].0,
                    self.rows@[i as int].1,
                ))[x]);
                if x < i {
                    assert(self.rows@[x] == old(self).rows@[x]);
                    assert(pre[x] == (key_view(old(self).rows@[x].0@), old(self).rows@[x].1@));
                } else if x > i {
                    assert(self.rows@[x] == old(self).rows@[x]);
                    assert(pre[x] == (key_view(old(self).rows@[x].0@), old(self).rows@[x].1@));
                } else {
                    assert(key_view(self.rows@[x].0@) == pre[i as int].0);
                }
                assert(self@[x] == (key_view(self.rows@[x].0@), self.rows@[x].1@));
            }
            assert forall|x: int, y: int|
                0 <= x < y < self@.len() implies key_lt(self@[x].0, self@[y].0) by {
                assert(self@[x].0 == pre[x].0);
                assert(self@[y].0 == pre[y].0);
            }
        }
    }

    /// Writes the listed columns of the row under `key`; a missing row is
    /// left missing and reported as zero rows affected.
    pub fn update_row(&mut self, key: &Vec<Value>, columns: &Vec<String>, properties: &Vec<
        Value,
    >) -> (affected: u64)
        requires
            old(self).wf(),
            columns@.len() == properties@.len(),
        ensures
            final(self).wf(),
            spec_find(old(self)@, key_view(key@)) is None ==> affected == 0 && final(self)@ == old(
                self,
            )@,
            match spec_find(old(self)@, key_view(key@)) {
                Some(m) => {
                    &&& affected == 1
                    &&& final(self)@.len() == old(self)@.len()
                    &&& forall|k2: KeyModel|
                        k2 != key_view(key@) ==> #[trigger] spec_find(final(self)@, k2)
                            == spec_find(old(self)@, k2)
                    &&& spec_find(final(self)@, key_view(key@)) matches Some(m2) && model_wf(m2)
                        && forall|c: Seq<char>| #[trigger]
                        spec_lookup(m2, c) == spec_merged(
                            m,
                            col_names(columns@),
                            key_view(properties@),
                            c,
                        )
                },
                None => true,
            },
    {
        let ghost k = key_view(key@);
        let (i, found) = self.locate(key);
        if !found {
            return 0;
        }
        let ghost pre = self@;
        self.merge_at(i, columns, properties);
        proof {
            assert(self@ =~= pre.update(i as int, (pre[i as int].0, self@[i as int].1)));
            assert forall|k2: KeyModel|
                k2 != k implies #[trigger] spec_find(self@, k2) == spec_find(pre, k2) by {
                lemma_find_update_other(
                    pre,
                    i as int,
                    (pre[i as int].0, self@[i as int].1),
                    k2,
                );
            }
            assert forall|j: int| 0 <= j < i implies self@[j].0 != k by {
                assert(self@[j] == pre[j]);
                lemma_key_lt_asym(pre[j].0, k);
            }
            lemma_find_advance(self@, k, i as int);
            assert(self@.skip(i as int)[0] == self@[i as int]);
        }
        1
    }

    /// Writes the listed columns of the row under `key`, creating the row
    /// when it is missing.
    pub fn insert_or_update_row(&mut self, key: &Vec<Value>, columns: &Vec<String>, properties: &Vec<
        Value,
    >) -> (affected: u64)
        requires
            old(self).wf(),
            columns@.len() == properties@.len(),
        ensures
            final(self).wf(),
            affected == 1,
            forall|k2: KeyModel|
                k2 != key_view(key@) ==> #[trigger] spec_find(final(self)@, k2) == spec_find(
                    old(self)@,
                    k2,
                ),
            spec_find(final(self)@, key_view(key@)) matches Some(m2) && model_wf(m2) && forall|
                c: Seq<char>,
            | #[trigger]
                spec_lookup(m2, c) == spec_merged(
                    match spec_find(old(self)@, key_view(key@)) {
                        Some(m) => m,
                        None => Seq::empty(),
                    },
                    col_names(columns@),
                    key_view(properties@),
                    c,
                ),
            final(self)@.len() == old(self)@.len() + (
            if spec_find(old(self)@, key_view(key@)) is Some {
                0int
            } else {
                1int
            }),
    {
        let ghost k = key_view(key@);
        let (i, found) = self.locate(key);
        if found {
            let ghost pre = self@;
            self.merge_at(i, columns, properties);
            proof {
                assert(self@ =~= pre.update(i as int, (pre[i as int].0, self@[i as int].1)));
                assert forall|k2: KeyModel|
                    k2 != k implies #[trigger] spec_find(self@, k2) == spec_find(pre, k2) by {
                    lemma_find_update_other(
                        pre,
                        i as int,
                        (pre[i as int].0, self@[i as int].1),
                        k2,
                    );
                }
                assert forall|j: int| 0 <= j < i implies self@[j].0 != k by {
                    assert(self@[j] == pre[j]);
                    lemma_key_lt_asym(pre[j].0, k);
                }
                lemma_find_advance(self@, k, i as int);
                assert(self@.skip(i as int)[0] == self@[i as int]);
            }
            1
        } else {
            let row = build_row(columns, properties);
            let ghost rowm = row@;
            let ghost pre = self@;
            let inserted = self.insert_row(key, row);
            proof {
                assert forall|k2: KeyModel|
                    k2 != k implies #[trigger] spec_find(self@, k2) == spec_find(pre, k2) by {
                    lemma_find_insert_other(pre, k, rowm, k2);
                }
                lemma_find_insert_same(pre, k, rowm);
                assert forall|c: Seq<char>| #[trigger]
                    spec_lookup(rowm, c) == spec_merged(
                        Seq::empty(),
                        col_names(columns@),
                        key_view(properties@),
                        c,
                    ) by {
                    assert(spec_lookup(Seq::empty(), c) is None);
                }
            }
            1
        }
    }
}

/// A fresh entry is found under its key.
proof fn lemma_find_insert_same(s: StoreModel, k: KeyModel, r: RowModel)
    requires
        spec_find(s, k) is None,
    ensures
        spec_find(spec_insert_sorted(s, k, r), k) == Some(r),
    decreases s.len(),
{
    let out = spec_insert_sorted(s, k, r);
    if s.len() == 0 {
        assert(out =~= seq![(k, r)]);
    } else if key_lt(k, s[0].0) {
        assert(out == seq![(k, r)] + s);
        assert(out[0] == (k, r));
    } else {
        assert(out == seq![s[0]] + spec_insert_sorted(s.skip(1), k, r));
        assert(out[0] == s[0]);
        assert(s[0].0 != k);
        assert(out.skip(1) =~= spec_insert_sorted(s.skip(1), k, r));
        lemma_find_insert_same(s.skip(1), k, r);
    }
}

/// What an increment leaves behind: nothing on an invalid request, else the
/// addressed row rewritten under `spec_inc_lookup` and every other row kept.
pub open spec fn spec_inc_result(pre: StoreModel, post: StoreModel, k: KeyModel, cs: Seq<
    Seq<char>,
>, ps: Seq<ValueModel>, r: Result<u64, i32>) -> bool {
    let base = match spec_find(pre, k) {
        Some(m) => m,
        None => Seq::empty(),
    };
    &&& (!inc_valid(base, cs, ps) ==> r == Err::<u64, i32>(-5023i32) && post == pre)
    &&& (inc_valid(base, cs, ps) ==> r == Ok::<u64, i32>(1u64) && spec_rmw_applied(pre, post, k)
        && (spec_find(post, k) matches Some(m2) ==> forall|c: Seq<char>| #[trigger]
        spec_lookup(m2, c) == spec_inc_lookup(cs, ps, base, c)))
}

/// What an append leaves behind, under `spec_app_lookup`.
pub open spec fn spec_app_result(pre: StoreModel, post: StoreModel, k: KeyModel, cs: Seq<
    Seq<char>,
>, ps: Seq<ValueModel>, r: Result<u64, i32>) -> bool {
    let base = match spec_find(pre, k) {
        Some(m) => m,
        None => Seq::empty(),
    };
    &&& (!app_valid(base, cs, ps) ==> r == Err::<u64, i32>(-5023i32) && post == pre)
    &&& (app_valid(base, cs, ps) ==> r == Ok::<u64, i32>(1u64) && spec_rmw_applied(pre, post, k)
        && (spec_find(post, k) matches Some(m2) ==> forall|c: Seq<char>| #[trigger]
        spec_lookup(m2, c) == spec_app_lookup(cs, ps, base, c)))
}

/// A read-modify-write touched exactly the row under `k`: every other key
/// reads as before, the row exists and is well formed afterwards, and the
/// row count grew only if the row was missing.
pub open spec fn spec_rmw_applied(pre: StoreModel, post: StoreModel, k: KeyModel) -> bool {
    &&& forall|k2: KeyModel| k2 != k ==> #[trigger] spec_find(post, k2) == spec_find(pre, k2)
    &&& spec_find(post, k) matches Some(m2) && model_wf(m2)
    &&& post.len() == pre.len() + (if spec_find(pre, k) is Some {
        0int
    } else {
        1int
    })
}

/// Whether a stored value can take an increment.
pub open spec fn int_ok(v: Option<ValueModel>) -> bool {
    match v {
        None => true,
        Some(x) => x is Int,
    }
}

/// Whether a stored value can take an append.
pub open spec fn str_ok(v: Option<ValueModel>) -> bool {
    match v {
        None => true,
        Some(x) => x is Str,
    }
}

/// An increment applies when every delta is an integer and every addressed
/// column is absent or holds one.
pub open spec fn inc_valid(base: RowModel, cols: Seq<Seq<char>>, props: Seq<ValueModel>) -> bool {
    forall|j: int| #![auto]
        0 <= j < cols.len() ==> props[j] is Int && int_ok(spec_lookup(base, cols[j]))
}

/// An append applies when every delta is a string and every addressed
/// column is absent or holds one.
pub open spec fn app_valid(base: RowModel, cols: Seq<Seq<char>>, props: Seq<ValueModel>) -> bool {
    forall|j: int| #![auto]
        0 <= j < cols.len() ==> props[j] is Str && str_ok(spec_lookup(base, cols[j]))
}

/// The integer a column contributes to an increment; an absent column
/// counts as zero.
pub open spec fn inc_base_int(prev: Option<ValueModel>) -> i64 {
    match prev {
        Some(ValueModel::Int(x)) => x,
        _ => 0,
    }
}

/// The characters a column contributes to an append; an absent column
/// counts as empty.
pub open spec fn app_base_str(prev: Option<ValueModel>) -> Seq<char> {
    match prev {
        Some(ValueModel::Str(x)) => x,
        _ => Seq::empty(),
    }
}

pub open spec fn as_int(v: ValueModel) -> i64 {
    match v {
        ValueModel::Int(x) => x,
        _ => 0,
    }
}

pub open spec fn as_str(v: ValueModel) -> Seq<char> {
    match v {
        ValueModel::Str(x) => x,
        _ => Seq::empty(),
    }
}

/// What an increment leaves under `c`: each listed column accumulates its
/// deltas, wrapping on overflow, on top of the stored value or zero.
pub open spec fn spec_inc_lookup(cols: Seq<Seq<char>>, props: Seq<ValueModel>, base: RowModel,
    c: Seq<char>) -> Option<ValueModel>
    decreases cols.len(),
{
    if cols.len() == 0 || props.len() == 0 {
        spec_lookup(base, c)
    } else {
        let prev = spec_inc_lookup(cols.drop_last(), props.drop_last(), base, c);
        if cols.last() == c {
            Some(ValueModel::Int(vstd::wrapping::i64_specs::wrapping_add(
                inc_base_int(prev),
                as_int(props.last()),
            )))
        } else {
            prev
        }
    }
}

/// What an append leaves under `c`: each listed column gets its deltas
/// joined onto the stored string or the empty one.
pub open spec fn spec_app_lookup(cols: Seq<Seq<char>>, props: Seq<ValueModel>, base: RowModel,
    c: Seq<char>) -> Option<ValueModel>
    decreases cols.len(),
{
    if cols.len() == 0 || props.len() == 0 {
        spec_lookup(base, c)
    } else {
        let prev = spec_app_lookup(cols.drop_last(), props.drop_last(), base, c);
        if cols.last() == c {
            Some(ValueModel::Str(app_base_str(prev) + as_str(props.last())))
        } else {
            prev
        }
    }
}

/// Under a valid increment, every intermediate value stays an integer.
proof fn lemma_inc_prefix_int(cols: Seq<Seq<char>>, props: Seq<ValueModel>, base: RowModel,
    j: int, c: Seq<char>)
    requires
        int_ok(spec_lookup(base, c)),
        0 <= j <= cols.len(),
        cols.len() == props.len(),
    ensures
        int_ok(spec_inc_lookup(cols.subrange(0, j), props.subrange(0, j), base, c)),
    decreases j,
{
    if j > 0 {
        lemma_inc_prefix_int(cols, props, base, j - 1, c);
        assert(cols.subrange(0, j).drop_last() =~= cols.subrange(0, j - 1));
        assert(props.subrange(0, j).drop_last() =~= props.subrange(0, j - 1));
    }
}

/// Under a valid append, every intermediate value stays a string.
proof fn lemma_app_prefix_str(cols: Seq<Seq<char>>, props: Seq<ValueModel>, base: RowModel,
    j: int, c: Seq<char>)
    requires
        str_ok(spec_lookup(base, c)),
        0 <= j <= cols.len(),
        cols.len() == props.len(),
    ensures
        str_ok(spec_app_lookup(cols.subrange(0, j), props.subrange(0, j), base, c)),
    decreases j,
{
    if j > 0 {
        lemma_app_prefix_str(cols, props, base, j - 1, c);
        assert(cols.subrange(0, j).drop_last() =~= cols.subrange(0, j - 1));
        assert(props.subrange(0, j).drop_last() =~= props.subrange(0, j - 1));
    }
}

impl TableData {
    /// Accumulates integer deltas into the listed columns of the row under
    /// `key`, wrapping on overflow; an absent column starts from zero and a
    /// missing row is created. A delta or a stored value that is not an
    /// integer refuses the whole operation with an object-type error code.
    pub fn increment_row(&mut self, key: &Vec<Value>, columns: &Vec<String>, properties: &Vec<
        Value,
    >) -> (r: Result<u64, i32>)
        requires
            old(self).wf(),
            columns@.len() == properties@.len(),
        ensures
            final(self).wf(),
            spec_inc_result(
                old(self)@,
                final(self)@,
                key_view(key@),
                col_names(columns@),
                key_view(properties@),
                r,
            ),
    {
        let ghost k = key_view(key@);
        let ghost cs = col_names(columns@);
        let ghost ps = key_view(properties@);
        let (i, found) = self.locate(key);
        proof {
            if found {
                assert(self@[i as int] == (key_view(self.rows@[i as int].0@),
                self.rows@[i as int].1@));
            }
        }
        let ghost base: RowModel = if found {
            self@[i as int].1
        } else {
            Seq::empty()
        };
        let n = columns.len();

        // Validation pass: every delta and every addressed column must be
        // an integer, else nothing is written.
        let mut j: usize = 0;
        while j < n
            invariant
                old(self).wf(),
                *self == *old(self),
                n == columns@.len() && n == properties@.len(),
                cs == col_names(columns@) && ps == key_view(properties@),
                k == key_view(key@),
                j <= n,
                found ==> i < self@.len() && base == self@[i as int].1 && spec_find(self@, k)
                    == Some(base),
                !found ==> base == Seq::<(Seq<char>, ValueModel)>::empty() && spec_find(self@, k)
                    is None,
                model_wf(base),
                forall|x: int| #![auto]
                    0 <= x < j ==> ps[x] is Int && int_ok(spec_lookup(base, cs[x])),
            decreases n - j,
        {
            let dok = properties[j].is_i64();
            let cok: bool = if found {
                proof {
                    assert(self@[i as int] == (key_view(self.rows@[i as int].0@),
                    self.rows@[i as int].1@));
                }
                match self.rows[i].1.get(columns[j].as_str()) {
                    None => true,
                    Some(x) => x.is_i64(),
                }
            } else {
                true
            };
            if !dok || !cok {
                proof {
                    assert(cs[j as int] == columns@[j as int]@);
                    assert(ps[j as int] == properties@[j as int]@);
                    assert(!inc_valid(base, cs, ps));
                }
                return Err(-5023);
            }
            proof {
                assert(cs[j as int] == columns@[j as int]@);
                assert(ps[j as int] == properties@[j as int]@);
            }
            j += 1;
        }
        proof {
            assert(inc_valid(base, cs, ps));
        }

        // Accumulation pass on a scratch row: compute what each listed
        // column ends at, then write the results in one merge.
        let mut scratch: Row = if found {
            proof {
                assert(self@[i as int] == (key_view(self.rows@[i as int].0@),
                self.rows@[i as int].1@));
            }
            self.rows[i].1.duplicate()
        } else {
            Row::new()
        };
        let mut new_props: Vec<Value> = Vec::new();
        let mut j: usize = 0;
        while j < n
            invariant
                old(self).wf(),
                *self == *old(self),
                n == columns@.len() && n == properties@.len(),
                cs == col_names(columns@) && ps == key_view(properties@),
                k == key_view(key@),
                j <= n,
                model_wf(base),
                scratch.wf(),
                inc_valid(base, cs, ps),
                new_props@.len() == j,
                forall|c: Seq<char>| #[trigger]
                    spec_lookup(scratch@, c) == spec_inc_lookup(
                        cs.subrange(0, j as int),
                        ps.subrange(0, j as int),
                        base,
                        c,
                    ),
                forall|c: Seq<char>| #[trigger]
                    spec_merged(base, cs.subrange(0, j as int), key_view(new_props@), c)
                        == spec_inc_lookup(cs.subrange(0, j as int), ps.subrange(0, j as int),
                    base, c),
            decreases n - j,
        {
            let ghost csj = cs.subrange(0, j as int);
            let ghost psj = ps.subrange(0, j as int);
            proof {
                assert(cs[j as int] == columns@[j as int]@);
                assert(ps[j as int] == properties@[j as int]@);
                lemma_inc_prefix_int(cs, ps, base, j as int, cs[j as int]);
            }
            let prior = scratch.get(columns[j].as_str());
            let x: i64 = match prior {
                Some(v) => match v.as_i64() {
                    Ok(x) => x,
                    Err(_) => {
                        proof {
                            assert(false);
                        }
                        0
                    },
                },
                None => 0,
            };
            let d: i64 = match properties[j].as_i64() {
                Ok(d) => d,
                Err(_) => {
                    proof {
                        assert(false);
                    }
                    0
                },
            };
            let nv = x.wrapping_add(d);
            let ghost pre_nps = key_view(new_props@);
            let ghost scratch_pre = scratch@;
            new_props.push(Value::Int(nv));
            scratch.insert(columns[j].as_str(), Value::Int(nv));
            proof {
                assert(cs.subrange(0, j + 1).drop_last() =~= csj);
                assert(ps.subrange(0, j + 1).drop_last() =~= psj);
                assert(cs.subrange(0, j + 1).last() == cs[j as int]);
                assert(ps.subrange(0, j + 1).last() == ps[j as int]);
                assert forall|x2: int|
                    0 <= x2 < new_props@.len() implies #[trigger] key_view(new_props@)[x2] == (
                if x2 < j {
                    pre_nps[x2]
                } else {
                    ValueModel::Int(nv)
                }) by {
                    assert(key_view(new_props@)[x2] == new_props@[x2]@);
                    if x2 < j {
                        assert(pre_nps[x2] == new_props@[x2]@);
                    }
                }
                assert(key_view(new_props@) =~= pre_nps.push(ValueModel::Int(nv)));
                assert(key_view(new_props@).drop_last() =~= pre_nps);
                assert(key_view(new_props@).last() == ValueModel::Int(nv));
                assert forall|c: Seq<char>| #[trigger]
                    spec_merged(base, cs.subrange(0, j + 1), key_view(new_props@), c)
                        == spec_inc_lookup(cs.subrange(0, j + 1), ps.subrange(0, j + 1), base,
                    c) by {
                    assert(spec_merged(base, csj, pre_nps, c) == spec_inc_lookup(
                        csj,
                        psj,
                        base,
                        c,
                    ));
                    assert(spec_lookup(scratch_pre, c) == spec_inc_lookup(csj, psj, base, c));
                    if c == cs[j as int] {
                        assert(inc_base_int(spec_inc_lookup(csj, psj, base, c)) == x);
                        assert(as_int(ps[j as int]) == d);
                    }
                }
                assert forall|c: Seq<char>| #[trigger]
                    spec_lookup(scratch@, c) == spec_inc_lookup(
                        cs.subrange(0, j + 1),
                        ps.subrange(0, j + 1),
                        base,
                        c,
                    ) by {
                    assert(spec_lookup(scratch_pre, c) == spec_inc_lookup(csj, psj, base, c));
                    if c != cs[j as int] {
                        assert(spec_lookup(scratch@, c) == spec_lookup(scratch_pre, c));
                    }
                }
            }
            j += 1;
        }
        proof {
            assert(cs.subrange(0, n as int) =~= cs);
            assert(ps.subrange(0, n as int) =~= ps);
        }

        let affected = self.insert_or_update_row(key, columns, &new_props);
        Ok(affected)
    }
}

impl TableData {
    /// Joins string deltas onto the listed columns of the row under `key`;
    /// an absent column starts from the empty string and a missing row is
    /// created. A delta or a stored value that is not a string refuses the
    /// whole operation with an object-type error code.
    pub fn append_row(&mut self, key: &Vec<Value>, columns: &Vec<String>, properties: &Vec<
        Value,
    >) -> (r: Result<u64, i32>)
        requires
            old(self).wf(),
            columns@.len() == properties@.len(),
        ensures
            final(self).wf(),
            spec_app_result(
                old(self)@,
                final(self)@,
                key_view(key@),
                col_names(columns@),
                key_view(properties@),
                r,
            ),
    {
        let ghost k = key_view(key@);
        let ghost cs = col_names(columns@);
        let ghost ps = key_view(properties@);
        let (i, found) = self.locate(key);
        proof {
            if found {
                assert(self@[i as int] == (key_view(self.rows@[i as int].0@),
                self.rows@[i as int].1@));
            }
        }
        let ghost base: RowModel = if found {
            self@[i as int].1
        } else {
            Seq::empty()
        };
        let n = columns.len();

        // Validation pass: every delta and every addressed column must be
        // an integer, else nothing is written.
        let mut j: usize = 0;
        while j < n
            invariant
                old(self).wf(),
                *self == *old(self),
                n == columns@.len() && n == properties@.len(),
                cs == col_names(columns@) && ps == key_view(properties@),
                k == key_view(key@),
                j <= n,
                found ==> i < self@.len() && base == self@[i as int].1 && spec_find(self@, k)
                    == Some(base),
                !found ==> base == Seq::<(Seq<char>, ValueModel)>::empty() && spec_find(self@, k)
                    is None,
                model_wf(base),
                forall|x: int| #![auto]
                    0 <= x < j ==> ps[x] is Str && str_ok(spec_lookup(base, cs[x])),
            decreases n - j,
        {
            let dok = properties[j].is_string();
            let cok: bool = if found {
                proof {
                    assert(self@[i as int] == (key_view(self.rows@[i as int].0@),
                    self.rows@[i as int].1@));
                }
                match self.rows[i].1.get(columns[j].as_str()) {
                    None => true,
                    Some(x) => x.is_string(),
                }
            } else {
                true
            };
            if !dok || !cok {
                proof {
                    assert(cs[j as int] == columns@[j as int]@);
                    assert(ps[j as int] == properties@[j as int]@);
                    assert(!app_valid(base, cs, ps));
                }
                return Err(-5023);
            }
            proof {
                assert(cs[j as int] == columns@[j as int]@);
                assert(ps[j as int] == properties@[j as int]@);
            }
            j += 1;
        }
        proof {
            assert(app_valid(base, cs, ps));
        }

        // Accumulation pass on a scratch row: compute what each listed
        // column ends at, then write the results in one merge.
        let mut scratch: Row = if found {
            proof {
                assert(self@[i as int] == (key_view(self.rows@[i as int].0@),
                self.rows@[i as int].1@));
            }
            self.rows[i].1.duplicate()
        } else {
            Row::new()
        };
        let mut new_props: Vec<Value> = Vec::new();
        let mut j: usize = 0;
        while j < n
            invariant
                old(self).wf(),
                *self == *old(self),
                n == columns@.len() && n == properties@.len(),
                cs == col_names(columns@) && ps == key_view(properties@),
                k == key_view(key@),
                j <= n,
                model_wf(base),
                scratch.wf(),
                app_valid(base, cs, ps),
                new_props@.len() == j,
                forall|c: Seq<char>| #[trigger]
                    spec_lookup(scratch@, c) == spec_app_lookup(
                        cs.subrange(0, j as int),
                        ps.subrange(0, j as int),
                        base,
                        c,
                    ),
                forall|c: Seq<char>| #[trigger]
                    spec_merged(base, cs.subrange(0, j as int), key_view(new_props@), c)
                        == spec_app_lookup(cs.subrange(0, j as int), ps.subrange(0, j as int),
                    base, c),
            decreases n - j,
        {
            let ghost csj = cs.subrange(0, j as int);
            let ghost psj = ps.subrange(0, j as int);
            proof {
                assert(cs[j as int] == columns@[j as int]@);
                assert(ps[j as int] == properties@[j as int]@);
                lemma_app_prefix_str(cs, ps, base, j as int, cs[j as int]);
            }
            let prior = scratch.get(columns[j].as_str());
            let x: String = match prior {
                Some(v) => match v.as_string() {
                    Ok(x) => x,
                    Err(_) => {
                        proof {
                            assert(false);
                        }
                        String::new()
                    },
                },
                None => String::new(),
            };
            let d: String = match properties[j].as_string() {
                Ok(d) => d,
                Err(_) => {
                    proof {
                        assert(false);
                    }
                    String::new()
                },
            };
            let nv = x.concat(d.as_str());
            let nv2 = nv.clone();
            let ghost pre_nps = key_view(new_props@);
            let ghost scratch_pre = scratch@;
            new_props.push(Value::Str(nv));
            scratch.insert(columns[j].as_str(), Value::Str(nv2));
            proof {
                assert(cs.subrange(0, j + 1).drop_last() =~= csj);
                assert(ps.subrange(0, j + 1).drop_last() =~= psj);
                assert(cs.subrange(0, j + 1).last() == cs[j as int]);
                assert(ps.subrange(0, j + 1).last() == ps[j as int]);
                assert forall|x2: int|
                    0 <= x2 < new_props@.len() implies #[trigger] key_view(new_props@)[x2] == (
                if x2 < j {
                    pre_nps[x2]
                } else {
                    ValueModel::Str(nv@)
                }) by {
                    assert(key_view(new_props@)[x2] == new_props@[x2]@);
                    if x2 < j {
                        assert(pre_nps[x2] == new_props@[x2]@);
                    }
                }
                assert(key_view(new_props@) =~= pre_nps.push(ValueModel::Str(nv@)));
                assert(key_view(new_props@).drop_last() =~= pre_nps);
                assert(key_view(new_props@).last() == ValueModel::Str(nv@));
                assert forall|c: Seq<char>| #[trigger]
                    spec_merged(base, cs.subrange(0, j + 1), key_view(new_props@), c)
                        == spec_app_lookup(cs.subrange(0, j + 1), ps.subrange(0, j + 1), base,
                    c) by {
                    assert(spec_merged(base, csj, pre_nps, c) == spec_app_lookup(
                        csj,
                        psj,
                        base,
                        c,
                    ));
                    assert(spec_lookup(scratch_pre, c) == spec_app_lookup(csj, psj, base, c));
                    if c == cs[j as int] {
                        assert(app_base_str(spec_app_lookup(csj, psj, base, c)) == x@);
                        assert(as_str(ps[j as int]) == d@);
                    }
                }
                assert forall|c: Seq<char>| #[trigger]
                    spec_lookup(scratch@, c) == spec_app_lookup(
                        cs.subrange(0, j + 1),
                        ps.subrange(0, j + 1),
                        base,
                        c,
                    ) by {
                    assert(spec_lookup(scratch_pre, c) == spec_app_lookup(csj, psj, base, c));
                    if c != cs[j as int] {
                        assert(spec_lookup(scratch@, c) == spec_lookup(scratch_pre, c));
                    }
                }
            }
            j += 1;
        }
        proof {
            assert(cs.subrange(0, n as int) =~= cs);
            assert(ps.subrange(0, n as int) =~= ps);
        }

        let affected = self.insert_or_update_row(key, columns, &new_props);
        Ok(affected)
    }
}

/// Every named partition of one endpoint, as contracts see it.
pub type EndpointModel = Seq<(Seq<char>, StoreModel)>;

/// The partition stored under `name`.
pub open spec fn spec_table(s: EndpointModel, name: Seq<char>) -> Option<StoreModel>
    decreases s.len(),
{
    if s.len() == 0 {
        None
    } else if s[0].0 == name {
        Some(s[0].1)
    } else {
        spec_table(s.skip(1), name)
    }
}

/// Skipping other names does not change which partition is found.
proof fn lemma_table_advance(s: EndpointModel, name: Seq<char>, i: int)
    requires
        0 <= i <= s.len(),
        forall|j: int| 0 <= j < i ==> s[j].0 != name,
    ensures
        spec_table(s, name) == spec_table(s.skip(i), name),
    decreases i,
{
    if i > 0 {
        assert forall|j: int| 0 <= j < i - 1 implies s.skip(1)[j].0 != name by {
            assert(s.skip(1)[j] == s[j + 1]);
        }
        lemma_table_advance(s.skip(1), name, i - 1);
        assert(s.skip(1).skip(i - 1) =~= s.skip(i));
    } else {
        assert(s.skip(0) =~= s);
    }
}

/// The tables one endpoint serves, each under its name.
#[derive(Debug)]
pub struct MemStore {
    tables: Vec<(String, TableData)>,
}

impl View for MemStore {
    type V = EndpointModel;

    closed spec fn view(&self) -> EndpointModel {
        self.tables@.map_values(|p: (String, TableData)| (p.0@, p.1@))
    }
}

impl MemStore {
    /// Table names are unique and every table is well formed.
    pub open spec fn wf(self) -> bool {
        &&& forall|i: int, j: int| 0 <= i < j < self@.len() ==> self@[i].0 != self@[j].0
        &&& forall|i: int| 0 <= i < self@.len() ==> store_wf(#[trigger] self@[i].1)
    }

    /// An endpoint with no tables yet.
    pub fn new() -> (s: MemStore)
        ensures
            s.wf(),
            s@ == Seq::<(Seq<char>, StoreModel)>::empty(),
    {
        let s = MemStore { tables: Vec::new() };
        proof {
            assert(s@ =~= Seq::<(Seq<char>, StoreModel)>::empty());
        }
        s
    }

    /// Takes the named table out, or a fresh empty one when the endpoint
    /// has none of that name yet.
    pub fn take_table(&mut self, name: &str) -> (t: TableData)
        requires
            old(self).wf(),
        ensures
            final(self).wf(),
            t.wf(),
            spec_table(final(self)@, name@) is None,
            forall|n2: Seq<char>|
                n2 != name@ ==> #[trigger] spec_table(final(self)@, n2) == spec_table(
                    old(self)@,
                    n2,
                ),
            t@ == (match spec_table(old(self)@, name@) {
                Some(m) => m,
                None => Seq::<(KeyModel, RowModel)>::empty(),
            }),
    {
        let n = self.tables.len();
        let mut i: usize = 0;
        while i < n
            invariant
                old(self).wf(),
                *self == *old(self),
                n == self.tables.len(),
                i <= n,
                forall|j: int| 0 <= j < i ==> self@[j].0 != name@,
            decreases n - i,
        {
            proof {
                assert(self@[i as int] == (self.tables@[i as int].0@, self.tables@[i as int].1@));
            }
            if str_eq(self.tables[i].0.as_str(), name) {
                proof {
                    lemma_table_advance(self@, name@, i as int);
                    assert(self@.skip(i as int)[0] == self@[i as int]);
                }
                let ghost pre = self@;
                let (_nm, t) = self.tables.remove(i);
                proof {
                    assert forall|j: int|
                        0 <= j < self@.len() implies #[trigger] self@[j] == (if j < i {
                        pre[j]
                    } else {
                        pre[j + 1]
                    }) by {
                        assert(self.tables@[j] == old(self).tables@.remove(i as int)[j]);
                        assert(self@[j] == (self.tables@[j].0@, self.tables@[j].1@));
                    }
                    assert forall|n2: Seq<char>|
                        n2 != name@ implies #[trigger] spec_table(self@, n2) == spec_table(
                        pre,
                        n2,
                    ) by {
                        lemma_table_remove_other(pre, name@, i as int, n2);
                        assert(self@ =~= pre.subrange(0, i as int) + pre.skip(i as int + 1));
                    }
                    assert forall|j: int| 0 <= j < self@.len() implies self@[j].0 != name@ by {
                        if j < i {
                            assert(self@[j] == pre[j]);
                        } else {
                            assert(self@[j] == pre[j + 1]);
                        }
                    }
                    lemma_table_advance(self@, name@, self@.len() as int);
                    assert(self@.skip(self@.len() as int).len() == 0);
                }
                return t;
            }
            i += 1;
        }
        proof {
            lemma_table_advance(self@, name@, n as int);
            assert(self@.skip(n as int).len() == 0);
        }
        TableData::new()
    }

    /// Puts a table back under its name.
    pub fn put_table(&mut self, name: &str, t: TableData)
        requires
            old(self).wf(),
            t.wf(),
            spec_table(old(self)@, name@) is None,
        ensures
            final(self).wf(),
            spec_table(final(self)@, name@) == Some(t@),
            forall|n2: Seq<char>|
                n2 != name@ ==> #[trigger] spec_table(final(self)@, n2) == spec_table(
                    old(self)@,
                    n2,
                ),
    {
        let ghost pre = self@;
        let owned = str_to_owned(name);
        self.tables.push((owned, t));
        proof {
            assert forall|j: int|
                0 <= j < self@.len() implies #[trigger] self@[j] == (if j < pre.len() {
                pre[j]
            } else {
                (name@, t@)
            }) by {
                assert(self.tables@[j] == old(self).tables@.push((
                    self.tables@[self.tables@.len() - 1].0,
                    self.tables@[self.tables@.len() - 1].1,
                ))[j]);
                assert(self@[j] == (self.tables@[j].0@, self.tables@[j].1@));
            }
            assert forall|j: int| 0 <= j < pre.len() implies pre[j].0 != name@ by {
                if spec_table(pre, name@) is None {
                    lemma_table_found(pre, j);
                }
            }
            lemma_table_advance(self@, name@, pre.len() as int);
            assert(self@.skip(pre.len() as int)[0] == self@[pre.len() as int]);
            assert forall|n2: Seq<char>|
                n2 != name@ implies #[trigger] spec_table(self@, n2) == spec_table(pre, n2) by {
                lemma_table_push_other(pre, (name@, t@), n2);
                assert(self@ =~= pre.push((name@, t@)));
            }
        }
    }
}

/// An entry's name is found at or before its position.
proof fn lemma_table_found(s: EndpointModel, j: int)
    requires
        0 <= j < s.len(),
    ensures
        spec_table(s, s[j].0) is Some,
    decreases j,
{
    if j > 0 && s[0].0 != s[j].0 {
        assert(s.skip(1)[j - 1] == s[j]);
        lemma_table_found(s.skip(1), j - 1);
    }
}

/// Removing one name's entry does not move the others.
proof fn lemma_table_remove_other(s: EndpointModel, name: Seq<char>, i: int, n2: Seq<char>)
    requires
        0 <= i < s.len(),
        s[i].0 == name,
        forall|j: int| 0 <= j < i ==> s[j].0 != name,
        n2 != name,
    ensures
        spec_table(s.subrange(0, i) + s.skip(i + 1), n2) == spec_table(s, n2),
    decreases i,
{
    let out = s.subrange(0, i) + s.skip(i + 1);
    if i == 0 {
        assert(out =~= s.skip(1));
    } else {
        assert(out[0] == s[0]);
        assert(out.skip(1) =~= s.skip(1).subrange(0, i - 1) + s.skip(1).skip(i));
        assert(s.skip(1).subrange(0, i - 1) =~= s.subrange(1, i));
        assert(s.skip(1).skip(i) =~= s.skip(i + 1));
        assert(s.skip(1)[i - 1] == s[i]);
        assert forall|j: int| 0 <= j < i - 1 implies s.skip(1)[j].0 != name by {
            assert(s.skip(1)[j] == s[j + 1]);
        }
        lemma_table_remove_other(s.skip(1), name, i - 1, n2);
        assert(out.skip(1) =~= s.skip(1).subrange(0, i - 1) + s.skip(1).skip(i));
    }
}

/// A fresh entry at the end does not move the other names.
proof fn lemma_table_push_other(s: EndpointModel, p: (Seq<char>, StoreModel), n2: Seq<char>)
    requires
        n2 != p.0,
    ensures
        spec_table(s.push(p), n2) == spec_table(s, n2),
    decreases s.len(),
{
    if s.len() == 0 {
        assert(s.push(p)[0] == p);
        let t = s.push(p).skip(1);
        assert(t =~= Seq::<(Seq<char>, StoreModel)>::empty());
        assert(spec_table(t, n2) is None);
        assert(spec_table(s.push(p), n2) == spec_table(t, n2));
        assert(spec_table(s, n2) is None);
    } else {
        assert(s.push(p)[0] == s[0]);
        assert(s.push(p).skip(1) =~= s.skip(1).push(p));
        lemma_table_push_other(s.skip(1), p, n2);
    }
}

/// What one operation does to a partition and what its sub-result reports:
/// the server semantics of the table API, one operation at a time.
pub open spec fn spec_step(pre: StoreModel, op: OperationModel, post: StoreModel,
    res: OperationResultModel) -> bool {
    let k = op.row_key;
    &&& res.op_type == op.op_type
    &&& match op.op_type {
        ObTableOperationType::Get => {
            &&& post == pre
            &&& res.errno == 0
            &&& res.affected_rows == 0
            &&& match spec_find(pre, k) {
                Some(m) => forall|c: Seq<char>| #[trigger]
                    spec_lookup(res.entity, c) == (if op.columns.len() == 0 || op.columns.contains(
                        c,
                    ) {
                        spec_lookup(m, c)
                    } else {
                        None
                    }),
                None => res.entity.len() == 0,
            }
        },
        ObTableOperationType::Insert => {
            if spec_find(pre, k) is Some {
                res.errno == -5024 && post == pre
            } else {
                &&& res.errno == 0
                &&& res.affected_rows == 1
                &&& exists|r: RowModel|
                    model_wf(r) && post == spec_insert_sorted(pre, k, r) && (forall|c: Seq<char>|
                        #[trigger] spec_lookup(r, c) == spec_props_lookup(
                            op.columns,
                            op.properties,
                            c,
                        ))
            }
        },
        ObTableOperationType::Del => {
            &&& res.errno == 0
            &&& (spec_find(pre, k) is Some ==> res.affected_rows == 1 && post == spec_remove_key(
                pre,
                k,
            ))
            &&& (spec_find(pre, k) is None ==> res.affected_rows == 0 && post == pre)
        },
        ObTableOperationType::Update => {
            &&& res.errno == 0
            &&& (spec_find(pre, k) is None ==> res.affected_rows == 0 && post == pre)
            &&& match spec_find(pre, k) {
                Some(m) => res.affected_rows == 1 && spec_rmw_applied(pre, post, k) && (spec_find(
                    post,
                    k,
                ) matches Some(m2) ==> forall|c: Seq<char>| #[trigger]
                    spec_lookup(m2, c) == spec_merged(m, op.columns, op.properties, c)),
                None => true,
            }
        },
        ObTableOperationType::InsertOrUpdate => {
            &&& res.errno == 0
            &&& res.affected_rows == 1
            &&& spec_rmw_applied(pre, post, k)
            &&& (spec_find(post, k) matches Some(m2) ==> forall|c: Seq<char>| #[trigger]
                spec_lookup(m2, c) == spec_merged(
                    match spec_find(pre, k) {
                        Some(m) => m,
                        None => Seq::empty(),
                    },
                    op.columns,
                    op.properties,
                    c,
                ))
        },
        ObTableOperationType::Replace => {
            &&& res.errno == 0
            &&& exists|r: RowModel|
                model_wf(r) && (forall|c: Seq<char>| #[trigger]
                    spec_lookup(r, c) == spec_props_lookup(op.columns, op.properties, c)) && (
                if spec_find(pre, k) is Some {
                    res.affected_rows == 2 && post == pre.update(spec_index_of(pre, k), (k, r))
                } else {
                    res.affected_rows == 1 && post == spec_insert_sorted(pre, k, r)
                })
        },
        ObTableOperationType::Increment => {
            spec_inc_result(
                pre,
                post,
                k,
                op.columns,
                op.properties,
                if res.errno == 0 {
                    Ok(res.affected_rows)
                } else {
                    Err(res.errno)
                },
            ) && (res.errno == 0 || res.errno == -5023)
        },
        ObTableOperationType::Append => {
            spec_app_result(
                pre,
                post,
                k,
                op.columns,
                op.properties,
                if res.errno == 0 {
                    Ok(res.affected_rows)
                } else {
                    Err(res.errno)
                },
            ) && (res.errno == 0 || res.errno == -5023)
        },
    }
}

/// A batch applied one operation at a time: `ts` walks the partition from
/// its state before the first operation to its state after the last, and
/// `rs` collects each operation's sub-result in order.
pub open spec fn spec_chain(ts: Seq<StoreModel>, ops: Seq<OperationModel>, rs: Seq<
    OperationResultModel,
>) -> bool {
    &&& ts.len() == ops.len() + 1
    &&& rs.len() == ops.len()
    &&& forall|i: int| 0 <= i < ops.len() ==> #[trigger] spec_step(ts[i], ops[i], ts[i + 1], rs[i])
}

/// One scan range, as contracts see it.
pub struct RangeModel {
    pub start: KeyModel,
    pub start_inclusive: bool,
    pub end: KeyModel,
    pub end_inclusive: bool,
}

/// One bound pair of a ranged query.
#[derive(Debug)]
pub struct ScanRange {
    start: Vec<Value>,
    start_inclusive: bool,
    end: Vec<Value>,
    end_inclusive: bool,
}

impl View for ScanRange {
    type V = RangeModel;

    closed spec fn view(&self) -> RangeModel {
        RangeModel {
            start: key_view(self.start@),
            start_inclusive: self.start_inclusive,
            end: key_view(self.end@),
            end_inclusive: self.end_inclusive,
        }
    }
}

impl ScanRange {
    /// A range from `start` to `end`, each bound inclusive or not.
    pub fn new(start: Vec<Value>, start_inclusive: bool, end: Vec<Value>, end_inclusive: bool) -> (
        r: ScanRange)
        ensures
            r@ == (RangeModel {
                start: key_view(start@),
                start_inclusive,
                end: key_view(end@),
                end_inclusive,
            }),
    {
        ScanRange { start, start_inclusive, end, end_inclusive }
    }
}

/// Whether `k` lies in the range.
pub open spec fn in_range(k: KeyModel, r: RangeModel) -> bool {
    &&& (key_lt(r.start, k) || (r.start_inclusive && r.start == k))
    &&& (key_lt(k, r.end) || (r.end_inclusive && k == r.end))
}

/// Whether `k` lies in the union of the ranges.
pub open spec fn in_ranges(k: KeyModel, rs: Seq<RangeModel>) -> bool {
    exists|i: int| 0 <= i < rs.len() && in_range(k, #[trigger] rs[i])
}

/// The ranges of a query, as contracts see them.
pub open spec fn ranges_view(rs: Seq<ScanRange>) -> Seq<RangeModel> {
    rs.map_values(|r: ScanRange| r@)
}

/// Whether `key` lies in the range, executably.
fn in_range_exec(key: &Vec<Value>, r: &ScanRange) -> (b: bool)
    ensures
        b == in_range(key_view(key@), r@),
{
    let above = if key_lt_exec(&r.start, key) {
        true
    } else {
        r.start_inclusive && key_eq_exec(&r.start, key)
    };
    if !above {
        return false;
    }
    if key_lt_exec(key, &r.end) {
        true
    } else {
        r.end_inclusive && key_eq_exec(key, &r.end)
    }
}

/// Whether `key` lies in the union of the ranges, executably.
fn in_ranges_exec(key: &Vec<Value>, rs: &Vec<ScanRange>) -> (b: bool)
    ensures
        b == in_ranges(key_view(key@), ranges_view(rs@)),
{
    let n = rs.len();
    let mut i: usize = 0;
    while i < n
        invariant
            n == rs@.len(),
            i <= n,
            forall|j: int| 0 <= j < i ==> !in_range(key_view(key@), #[trigger] ranges_view(rs@)[j]),
        decreases n - i,
    {
        if in_range_exec(key, &rs[i]) {
            proof {
                assert(ranges_view(rs@)[i as int] == rs@[i as int]@);
            }
            return true;
        }
        proof {
            assert(ranges_view(rs@)[i as int] == rs@[i as int]@);
        }
        i += 1;
    }
    proof {
        if in_ranges(key_view(key@), ranges_view(rs@)) {
            let w = choose|w: int|
                0 <= w < ranges_view(rs@).len() && in_range(key_view(key@), ranges_view(rs@)[w]);
            assert(!in_range(key_view(key@), ranges_view(rs@)[w]));
        }
    }
    false
}

/// A stored key finds its own row.
proof fn lemma_find_at(s: StoreModel, x: int)
    requires
        store_sorted(s),
        0 <= x < s.len(),
    ensures
        spec_find(s, s[x].0) == Some(s[x].1),
{
    assert forall|j: int| 0 <= j < x implies s[j].0 != s[x].0 by {
        lemma_key_lt_asym(s[j].0, s[x].0);
    }
    lemma_find_advance(s, s[x].0, x);
    assert(s.skip(x)[0] == s[x]);
}

impl TableData {
    /// Reads the rows whose keys lie in the union of the ranges, in key
    /// order: ascending when asked for, else descending. An empty union
    /// reads no rows, and so does a range whose start lies above its end.
    pub fn scan(&self, ranges: &Vec<ScanRange>, ascending: bool) -> (out: Vec<(Vec<Value>, Row)>)
        requires
            self.wf(),
        ensures
            forall|j: int| #![auto]
                0 <= j < out@.len() ==> in_ranges(key_view(out@[j].0@), ranges_view(ranges@))
                    && spec_find(self@, key_view(out@[j].0@)) == Some(out@[j].1@),
            forall|i: int| #![auto]
                0 <= i < self@.len() && in_ranges(self@[i].0, ranges_view(ranges@)) ==> exists|
                    j: int,
                | 0 <= j < out@.len() && key_view(#[trigger] out@[j].0@) == self@[i].0,
            ascending ==> forall|j1: int, j2: int| #![auto]
                0 <= j1 < j2 < out@.len() ==> key_lt(key_view(out@[j1].0@), key_view(out@[j2].0@)),
            !ascending ==> forall|j1: int, j2: int| #![auto]
                0 <= j1 < j2 < out@.len() ==> key_lt(key_view(out@[j2].0@), key_view(out@[j1].0@)),
    {
        let n = self.rows.len();
        let mut asc: Vec<(Vec<Value>, Row)> = Vec::new();
        let ghost mut idxs: Seq<int> = Seq::empty();
        let mut i: usize = 0;
        while i < n
            invariant
                self.wf(),
                n == self.rows@.len(),
                n == self@.len(),
                i <= n,
                idxs.len() == asc@.len(),
                forall|j: int| 0 <= j < idxs.len() ==> 0 <= #[trigger] idxs[j] < i,
                forall|j1: int, j2: int| 0 <= j1 < j2 < idxs.len() ==> idxs[j1] < idxs[j2],
                forall|j: int| #![auto]
                    0 <= j < asc@.len() ==> key_view(asc@[j].0@) == self@[idxs[j]].0 && asc@[j].1@
                        == self@[idxs[j]].1 && in_ranges(key_view(asc@[j].0@), ranges_view(
                        ranges@,
                    )),
                forall|i2: int| #![auto]
                    0 <= i2 < i && in_ranges(self@[i2].0, ranges_view(ranges@)) ==> exists|j: int|
                        0 <= j < idxs.len() && idxs[j] == i2,
            decreases n - i,
        {
            proof {
                assert(self@[i as int] == (key_view(self.rows@[i as int].0@),
                self.rows@[i as int].1@));
            }
            if in_ranges_exec(&self.rows[i].0, ranges) {
                let k = clone_key(&self.rows[i].0);
                let r = self.rows[i].1.duplicate();
                asc.push((k, r));
                proof {
                    let pre_idxs = idxs;
                    idxs = idxs.push(i as int);
                    assert(asc@[asc@.len() - 1] == (k, r));
                    assert forall|j: int| #![auto]
                        0 <= j < asc@.len() implies key_view(asc@[j].0@) == self@[idxs[j]].0
                            && asc@[j].1@ == self@[idxs[j]].1 && in_ranges(
                        key_view(asc@[j].0@),
                        ranges_view(ranges@),
                    ) by {
                        if j < asc@.len() - 1 {
                        }
                    }
                    assert forall|i2: int| #![auto]
                        0 <= i2 < i + 1 && in_ranges(self@[i2].0, ranges_view(ranges@)) implies
                        exists|j: int| 0 <= j < idxs.len() && idxs[j] == i2 by {
                        if i2 < i {
                            let w = choose|w: int| 0 <= w < pre_idxs.len() && pre_idxs[w] == i2;
                            assert(idxs[w] == i2);
                        } else {
                            assert(idxs[idxs.len() - 1] == i2);
                        }
                    }
                }
            }
            i += 1;
        }
        proof {
            assert forall|j: int| #![auto]
                0 <= j < asc@.len() implies in_ranges(key_view(asc@[j].0@), ranges_view(ranges@))
                    && spec_find(self@, key_view(asc@[j].0@)) == Some(asc@[j].1@) by {
                lemma_find_at(self@, idxs[j]);
            }
            assert forall|j1: int, j2: int| #![auto]
                0 <= j1 < j2 < asc@.len() implies key_lt(
                key_view(asc@[j1].0@),
                key_view(asc@[j2].0@),
            ) by {
                assert(key_lt(self@[idxs[j1]].0, self@[idxs[j2]].0));
            }
        }
        if ascending {
            return asc;
        }
        // Walk the ascending result from the back to reverse it.
        let ghost ascm = asc@;
        let mut asc = asc;
        let mut out: Vec<(Vec<Value>, Row)> = Vec::new();
        while asc.len() > 0
            invariant
                out@.len() + asc@.len() == ascm.len(),
                asc@ == ascm.subrange(0, asc@.len() as int),
                forall|j: int| #![auto] 0 <= j < out@.len() ==> out@[j] == ascm[ascm.len() - 1 - j],
            decreases asc.len(),
        {
            let x = match asc.pop() {
                Some(x) => x,
                None => {
                    proof {
                        assert(false);
                    }
                    vstd::pervasive::unreached()
                },
            };
            out.push(x);
            proof {
                assert(asc@ =~= ascm.subrange(0, asc@.len() as int));
            }
        }
        proof {
            assert forall|j: int| #![auto]
                0 <= j < out@.len() implies in_ranges(key_view(out@[j].0@), ranges_view(ranges@))
                    && spec_find(self@, key_view(out@[j].0@)) == Some(out@[j].1@) by {
                assert(out@[j] == ascm[ascm.len() - 1 - j]);
            }
            assert forall|i2: int| #![auto]
                0 <= i2 < self@.len() && in_ranges(self@[i2].0, ranges_view(ranges@)) implies
                exists|j: int| 0 <= j < out@.len() && key_view(#[trigger] out@[j].0@)
                    == self@[i2].0 by {
                let w = choose|w: int|
                    0 <= w < ascm.len() && key_view(#[trigger] ascm[w].0@) == self@[i2].0;
                assert(out@[ascm.len() - 1 - w] == ascm[w]);
            }
            assert forall|j1: int, j2: int| #![auto]
                0 <= j1 < j2 < out@.len() implies key_lt(
                key_view(out@[j2].0@),
                key_view(out@[j1].0@),
            ) by {
                assert(out@[j1] == ascm[ascm.len() - 1 - j1]);
                assert(out@[j2] == ascm[ascm.len() - 1 - j2]);
            }
        }
        out
    }
}

/// A row a sorted, well-formed partition stores is itself well formed.
pub proof fn lemma_find_wf(s: StoreModel, k: KeyModel)
    requires
        store_wf(s),
        spec_find(s, k) is Some,
    ensures
        model_wf(spec_find(s, k)->0),
    decreases s.len(),
{
    if s.len() > 0 && s[0].0 != k {
        assert forall|i: int, j: int|
            0 <= i < j < s.skip(1).len() implies key_lt(s.skip(1)[i].0, s.skip(1)[j].0) by {
            assert(s.skip(1)[i] == s[i + 1]);
            assert(s.skip(1)[j] == s[j + 1]);
        }
        assert forall|i: int| 0 <= i < s.skip(1).len() implies model_wf(
            #[trigger] s.skip(1)[i].1,
        ) by {
            assert(s.skip(1)[i] == s[i + 1]);
        }
        lemma_find_wf(s.skip(1), k);
    }
}

/// Result-order preservation: a batch answered through `spec_chain` has
/// exactly one sub-result per operation, and the sub-result at `i` is what
/// the operation at `i` did to the partition state the first `i` operations
/// left behind.
pub proof fn lemma_result_order(ts: Seq<StoreModel>, ops: Seq<OperationModel>, rs: Seq<
    OperationResultModel,
>, i: int)
    requires
        spec_chain(ts, ops, rs),
        0 <= i < ops.len(),
    ensures
        rs.len() == ops.len(),
        spec_step(ts[i], ops[i], ts[i + 1], rs[i]),
        rs[i].op_type == ops[i].op_type,
{
    assert(spec_step(ts[i], ops[i], ts[i + 1], rs[i]));
}

} // verus!
