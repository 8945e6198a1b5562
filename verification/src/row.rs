//! Rows: insertion-order-preserving mappings from column name to value.

use vstd::prelude::*;

use crate::strutil::str_eq;
use crate::value::{Value, ValueModel};

verus! {

/// One row, as contracts see it: the columns in insertion order.
pub type RowModel = Seq<(Seq<char>, ValueModel)>;

/// An insertion-order-preserving mapping from column name to value.
#[derive(Debug)]
pub struct Row {
    cols: Vec<(String, Value)>,
}

/// The value of the first column named `name`, walking the row in order.
pub open spec fn spec_lookup(s: RowModel, name: Seq<char>) -> Option<ValueModel>
    decreases s.len(),
{
    if s.len() == 0 {
        None
    } else if s[0].0 == name {
        Some(s[0].1)
    } else {
        spec_lookup(s.skip(1), name)
    }
}

/// The row without its first column named `name`.
pub open spec fn spec_remove(s: RowModel, name: Seq<char>) -> RowModel
    decreases s.len(),
{
    if s.len() == 0 {
        s
    } else if s[0].0 == name {
        s.skip(1)
    } else {
        seq![s[0]] + spec_remove(s.skip(1), name)
    }
}

/// Skipping columns that are not named `name` does not change the lookup.
proof fn lemma_lookup_advance(s: RowModel, name: Seq<char>, i: int)
    requires
        0 <= i <= s.len(),
        forall|j: int| 0 <= j < i ==> s[j].0 != name,
    ensures
        spec_lookup(s, name) == spec_lookup(s.skip(i), name),
    decreases i,
{
    if i > 0 {
        lemma_lookup_advance(s.skip(1), name, i - 1);
        assert(s.skip(1).skip(i - 1) =~= s.skip(i));
    } else {
        assert(s.skip(0) =~= s);
    }
}

impl View for Row {
    type V = RowModel;

    closed spec fn view(&self) -> RowModel {
        self.cols@.map_values(|p: (String, Value)| (p.0@, p.1@))
    }
}

/// Column names are pairwise distinct.
pub open spec fn model_wf(m: RowModel) -> bool {
    forall|i: int, j: int| 0 <= i < j < m.len() ==> m[i].0 != m[j].0
}

impl Row {
    /// Column names are pairwise distinct; every well-formed row keeps this.
    pub open spec fn wf(self) -> bool {
        model_wf(self@)
    }

    /// An empty row.
    pub fn new() -> (r: Row)
        ensures
            r@ == Seq::<(Seq<char>, ValueModel)>::empty(),
            r.wf(),
    {
        let r = Row { cols: Vec::new() };
        proof {
            assert(r@ =~= Seq::<(Seq<char>, ValueModel)>::empty());
        }
        r
    }

    /// Number of columns.
    pub fn len(&self) -> (n: usize)
        ensures
            n == self@.len(),
    {
        self.cols.len()
    }

    /// The name of the column at `i`, in insertion order.
    pub fn name_at(&self, i: usize) -> (r: String)
        requires
            i < self@.len(),
        ensures
            r@ == self@[i as int].0,
    {
        self.cols[i].0.clone()
    }

    /// The value of the column at `i`, in insertion order.
    pub fn value_at(&self, i: usize) -> (r: Value)
        requires
            i < self@.len(),
        ensures
            r@ == self@[i as int].1,
    {
        self.cols[i].1.duplicate()
    }

    /// The value under `name`, or `None` when the row has no such column.
    pub fn get(&self, name: &str) -> (r: Option<Value>)
        ensures
            match spec_lookup(self@, name@) {
                Some(v) => r matches Some(x) && x@ == v,
                None => r is None,
            },
    {
        let n = self.cols.len();
        let mut i: usize = 0;
        while i < n
            invariant
                n == self.cols.len(),
                i <= n,
                forall|j: int| 0 <= j < i ==> self@[j].0 != name@,
            decreases n - i,
        {
            if str_eq(self.cols[i].0.as_str(), name) {
                proof {
                    lemma_lookup_advance(self@, name@, i as int);
                    assert(self@.skip(i as int)[0] == self@[i as int]);
                }
                return Some(self.cols[i].1.duplicate());
            }
            i += 1;
        }
        proof {
            lemma_lookup_advance(self@, name@, n as int);
        }
        None
    }

    /// Whether the row has a column named `name`.
    pub fn contains(&self, name: &str) -> (r: bool)
        ensures
            r == (spec_lookup(self@, name@) is Some),
    {
        match self.get(name) {
            Some(_) => true,
            None => false,
        }
    }

    /// Binds `name` to `value`. An existing column keeps its position and
    /// gets the new value; a new column is appended.
    pub fn insert(&mut self, name: &str, value: Value)
        requires
            old(self).wf(),
        ensures
            final(self).wf(),
            spec_lookup(final(self)@, name@) == Some(value@),
            final(self)@.len() == if spec_lookup(old(self)@, name@) is Some {
                old(self)@.len()
            } else {
                old(self)@.len() + 1
            },
            forall|i: int|
                0 <= i < old(self)@.len() && old(self)@[i].0 != name@ ==> final(self)@[i] == old(
                    self,
                )@[i],
            forall|i: int|
                0 <= i < old(self)@.len() && old(self)@[i].0 == name@ ==> final(self)@[i] == (
                name@,
                value@,
            ),
            forall|i: int| 0 <= i < final(self)@.len() ==> final(self)@[i].0 == if i
                < old(self)@.len() {
                old(self)@[i].0
            } else {
                name@
            },
            forall|c: Seq<char>|
                c != name@ ==> #[trigger] spec_lookup(final(self)@, c) == spec_lookup(
                    old(self)@,
                    c,
                ),
    {
        let n = self.cols.len();
        let mut i: usize = 0;
        while i < n
            invariant
                old(self).wf(),
                self.cols@ == old(self).cols@,
                n == self.cols.len(),
                i <= n,
                forall|j: int| 0 <= j < i ==> self@[j].0 != name@,
            decreases n - i,
        {
            if str_eq(self.cols[i].0.as_str(), name) {
                proof {
                    lemma_lookup_advance(self@, name@, i as int);
                    assert(self@.skip(i as int)[0] == self@[i as int]);
                    assert(spec_lookup(self@, name@) == Some(self@[i as int].1));
                }
                let ghost pre = self@;
                let nm = self.cols[i].0.clone();
                self.cols[i] = (nm, value);
                proof {
                    assert forall|j: int|
                        0 <= j < self@.len() implies #[trigger] self@[j] == (if j == i as int {
                        (name@, value@)
                    } else {
                        pre[j]
                    }) by {
                        if j == i as int {
                            assert(self.cols@[j].0@ == name@);
                            assert(self.cols@[j].1@ == value@);
                        } else {
                            assert(self.cols@[j] == old(self).cols@[j]);
                        }
                    }
                    assert forall|j: int| 0 <= j < i implies self@[j].0 != name@ by {
                        assert(self@[j] == pre[j]);
                    }
                    lemma_lookup_advance(self@, name@, i as int);
                    assert(self@.skip(i as int)[0] == self@[i as int]);
                    assert(self@ =~= pre.update(i as int, (name@, value@)));
                    assert forall|c: Seq<char>|
                        c != name@ implies #[trigger] spec_lookup(self@, c) == spec_lookup(
                        pre,
                        c,
                    ) by {
                        lemma_lookup_update_other(pre, i as int, (name@, value@), c);
                    }
                }
                return;
            }
            i += 1;
        }
        proof {
            lemma_lookup_advance(self@, name@, n as int);
            assert(spec_lookup(self@, name@) is None);
        }
        let ghost pre = self@;
        let owned = crate::strutil::str_to_owned(name);
        self.cols.push((owned, value));
        proof {
            assert forall|j: int|
                0 <= j < self@.len() implies #[trigger] self@[j] == (if j < n {
                pre[j]
            } else {
                (name@, value@)
            }) by {
                if j < n {
                    assert(self.cols@[j] == old(self).cols@[j]);
                } else {
                    assert(self.cols@[j].0@ == name@);
                    assert(self.cols@[j].1@ == value@);
                }
            }
            assert forall|j: int| 0 <= j < n implies self@[j].0 != name@ by {
                assert(self@[j] == pre[j]);
            }
            lemma_lookup_advance(self@, name@, n as int);
            assert(self@.skip(n as int)[0] == self@[n as int]);
            assert(self@ =~= pre.push((name@, value@)));
            assert forall|c: Seq<char>|
                c != name@ implies #[trigger] spec_lookup(self@, c) == spec_lookup(pre, c) by {
                lemma_lookup_push_other(pre, (name@, value@), c);
            }
        }
    }

    /// A copy of the row, equal column for column.
    pub fn duplicate(&self) -> (r: Row)
        ensures
            r@ == self@,
    {
        let mut cols: Vec<(String, Value)> = Vec::new();
        let mut i: usize = 0;
        while i < self.cols.len()
            invariant
                i <= self.cols.len(),
                cols@.len() == i,
                self@.len() == self.cols.len(),
                forall|j: int| 0 <= j < i ==> (cols@[j].0@, cols@[j].1@) == self@[j],
            decreases self.cols.len() - i,
        {
            let nm = self.cols[i].0.clone();
            let v = self.cols[i].1.duplicate();
            cols.push((nm, v));
            proof {
                assert(self@[i as int] == (self.cols@[i as int].0@, self.cols@[i as int].1@));
            }
            i += 1;
        }
        let r = Row { cols };
        proof {
            assert forall|j: int| 0 <= j < r@.len() implies r@[j] == self@[j] by {
                assert(r@[j] == (r.cols@[j].0@, r.cols@[j].1@));
            }
            assert(r@ =~= self@);
        }
        r
    }

    /// Removes the column named `name`, returning its value. The other
    /// columns keep their relative order.
    pub fn remove(&mut self, name: &str) -> (r: Option<Value>)
        requires
            old(self).wf(),
        ensures
            final(self).wf(),
            final(self)@ == spec_remove(old(self)@, name@),
            match spec_lookup(old(self)@, name@) {
                Some(v) => r matches Some(x) && x@ == v,
                None => r is None && final(self)@ == old(self)@,
            },
    {
        let n = self.cols.len();
        let mut i: usize = 0;
        while i < n
            invariant
                old(self).wf(),
                self.cols@ == old(self).cols@,
                n == self.cols.len(),
                i <= n,
                forall|j: int| 0 <= j < i ==> self@[j].0 != name@,
            decreases n - i,
        {
            if str_eq(self.cols[i].0.as_str(), name) {
                proof {
                    lemma_lookup_advance(self@, name@, i as int);
                    assert(self@.skip(i as int)[0] == self@[i as int]);
                    assert(spec_lookup(self@, name@) == Some(self@[i as int].1));
                    lemma_remove_advance(self@, name@, i as int);
                    assert(pre_target(self@, i as int) =~= self@.subrange(0, i as int)
                        + self@.skip(i as int).skip(1));
                    assert(spec_remove(self@, name@) == pre_target(self@, i as int));
                }
                let ghost pre = self@;
                let (_nm, v) = self.cols.remove(i);
                proof {
                    assert forall|j: int|
                        0 <= j < self@.len() implies #[trigger] self@[j] == (if j < i {
                        pre[j]
                    } else {
                        pre[j + 1]
                    }) by {
                        assert(self.cols@[j] == old(self).cols@.remove(i as int)[j]);
                    }
                    assert(self@ =~= pre_target(pre, i as int));
                }
                return Some(v);
            }
            i += 1;
        }
        proof {
            lemma_lookup_advance(self@, name@, n as int);
            lemma_remove_advance(self@, name@, n as int);
            assert(spec_remove(self@.skip(n as int), name@) =~= self@.skip(n as int));
            assert(self@.subrange(0, n as int) + self@.skip(n as int) =~= self@);
        }
        None
    }
}

/// A row without its column at `i`.
pub open spec fn pre_target(s: RowModel, i: int) -> RowModel {
    s.subrange(0, i) + s.skip(i + 1)
}

/// Updating the column at `i` in place leaves other lookups alone.
proof fn lemma_lookup_update_other(s: RowModel, i: int, p: (Seq<char>, ValueModel), c: Seq<char>)
    requires
        0 <= i < s.len(),
        s[i].0 == p.0,
        c != p.0,
    ensures
        spec_lookup(s.update(i, p), c) == spec_lookup(s, c),
    decreases s.len(),
{
    if i == 0 {
        assert(s.update(0, p).skip(1) =~= s.skip(1));
    } else {
        assert(s.update(i, p).skip(1) =~= s.skip(1).update(i - 1, p));
        assert(s.skip(1)[i - 1] == s[i]);
        lemma_lookup_update_other(s.skip(1), i - 1, p, c);
    }
}

/// Appending a column leaves other lookups alone.
proof fn lemma_lookup_push_other(s: RowModel, p: (Seq<char>, ValueModel), c: Seq<char>)
    requires
        c != p.0,
    ensures
        spec_lookup(s.push(p), c) == spec_lookup(s, c),
    decreases s.len(),
{
    if s.len() == 0 {
        assert(s.push(p)[0] == p);
        let t = s.push(p).skip(1);
        assert(t =~= Seq::<(Seq<char>, ValueModel)>::empty());
        assert(spec_lookup(t, c) is None);
        assert(spec_lookup(s.push(p), c) == spec_lookup(t, c));
        assert(spec_lookup(s, c) is None);
    } else {
        assert(s.push(p)[0] == s[0]);
        assert(s.push(p).skip(1) =~= s.skip(1).push(p));
        lemma_lookup_push_other(s.skip(1), p, c);
    }
}

/// Removal keeps the prefix of columns that do not match `name`.
proof fn lemma_remove_advance(s: RowModel, name: Seq<char>, i: int)
    requires
        0 <= i <= s.len(),
        forall|j: int| 0 <= j < i ==> s[j].0 != name,
    ensures
        spec_remove(s, name) == s.subrange(0, i) + spec_remove(s.skip(i), name),
    decreases i,
{
    if i > 0 {
        lemma_remove_advance(s.skip(1), name, i - 1);
        assert(s.skip(1).skip(i - 1) =~= s.skip(i));
        assert(s.skip(1).subrange(0, i - 1) =~= s.subrange(1, i));
        assert(seq![s[0]] + (s.subrange(1, i) + spec_remove(s.skip(i), name)) =~= s.subrange(0, i)
            + spec_remove(s.skip(i), name));
    } else {
        assert(s.skip(0) =~= s);
        assert(s.subrange(0, 0) + spec_remove(s, name) =~= spec_remove(s, name));
    }
}

} // verus!
