//! The sparse record and the two column shapes.
//!
//! A sparse record `{dim, indices, values}` stores one dense row of logical
//! length `dim` by keeping only its retained entries: `indices[i]` is the
//! position of the `i`-th retained entry and `values[i]` its scalar bits.
//! A null dense row becomes a null record as a whole; `dim`, `indices` and
//! `values` are never null independently of one another.

use vstd::prelude::*;

use crate::scalar::ColumnType;
use crate::scalar::NumericKind;
use crate::scalar::spec_is_zero;

verus! {

/// Copies a vector of plain values element by element.
pub fn copy_vec<T: Copy>(src: &Vec<T>) -> (out: Vec<T>)
    ensures
        out@ == src@,
{
    let n = src.len();
    let mut out: Vec<T> = Vec::new();
    proof {
        assert(out@ =~= src@.subrange(0, 0));
    }
    let mut i: usize = 0;
    while i < n
        invariant
            n == src@.len(),
            i <= n,
            out@ == src@.subrange(0, i as int),
        decreases n - i,
    {
        out.push(src[i]);
        proof {
            assert(out@ =~= src@.subrange(0, (i + 1) as int));
        }
        i += 1;
    }
    proof {
        assert(src@.subrange(0, n as int) =~= src@);
    }
    out
}

/// One sparse row: the dense length it came from, the positions of the
/// retained entries, and their scalar bit patterns, in parallel.
#[derive(Clone, Debug, PartialEq, Eq)]
pub struct SparseRow {
    /// The dense length of the original row.
    pub dim: u32,
    /// Positions of the retained entries, each below `dim`, no two equal.
    pub indices: Vec<u32>,
    /// Scalar bits of the retained entries, parallel to `indices`.
    pub values: Vec<u64>,
}

impl SparseRow {
    /// The record invariant: `indices` and `values` run in parallel, no more
    /// entries are retained than the row has positions, every index is a
    /// position of the row, and no position occurs twice.
    pub open spec fn wf(self) -> bool {
        &&& self.indices@.len() == self.values@.len()
        &&& self.indices@.len() <= self.dim
        &&& forall|i: int| 0 <= i < self.indices@.len() ==> self.indices@[i] < self.dim
        &&& forall|i: int, j: int|
            0 <= i < j < self.indices@.len() ==> self.indices@[i] != self.indices@[j]
    }

    /// Whether position `d` is among this record's retained indices.
    pub open spec fn contains_index(self, d: u32) -> bool {
        exists|i: int| 0 <= i < self.indices@.len() && self.indices@[i] == d
    }

    /// Decides the record invariant.
    pub fn check_wf(&self) -> (b: bool)
        ensures
            b == self.wf(),
    {
        if self.indices.len() != self.values.len() {
            return false;
        }
        if self.indices.len() > self.dim as usize {
            return false;
        }
        let n = self.indices.len();
        let mut i: usize = 0;
        while i < n
            invariant
                n == self.indices@.len(),
                i <= n,
                forall|k: int| 0 <= k < i ==> self.indices@[k] < self.dim,
                forall|k: int, l: int| 0 <= k < l < i ==> self.indices@[k] != self.indices@[l],
            decreases n - i,
        {
            if self.indices[i] >= self.dim {
                return false;
            }
            let mut j: usize = 0;
            while j < i
                invariant
                    i < n,
                    n == self.indices@.len(),
                    j <= i,
                    forall|k: int| 0 <= k < j ==> self.indices@[k] != self.indices@[i as int],
                decreases i - j,
            {
                if self.indices[j] == self.indices[i] {
                    return false;
                }
                j += 1;
            }
            i += 1;
        }
        true
    }
}

/// A column of nullable dense rows, each row a sequence of nullable scalars
/// of the column's one element type, stored as bit patterns.
#[derive(Clone, Debug, PartialEq, Eq)]
pub struct DenseColumn {
    /// The element type of the column.
    pub dtype: ColumnType,
    /// The rows; `None` is a null row, and a null entry inside a row is a
    /// null scalar.
    pub rows: Vec<Option<Vec<Option<u64>>>>,
}

/// A column of nullable sparse records, all of one numeric kind.
#[derive(Clone, Debug, PartialEq, Eq)]
pub struct SparseColumn {
    /// The numeric kind of every record's values.
    pub kind: NumericKind,
    /// The records; `None` is a null row.
    pub rows: Vec<Option<SparseRow>>,
}

impl SparseColumn {
    /// The column invariant: every non-null record satisfies the record
    /// invariant.
    pub open spec fn wf(self) -> bool {
        forall|i: int|
            0 <= i < self.rows@.len() && self.rows@[i] is Some ==> (#[trigger] self.rows@[i])->0.wf()
    }

    /// Whether position `d` appears among the retained indices of any
    /// non-null record of the column.
    pub open spec fn appears(self, d: u32) -> bool {
        exists|i: int|
            0 <= i < self.rows@.len() && self.rows@[i] is Some
                && (#[trigger] self.rows@[i])->0.contains_index(d)
    }

    /// The zero-elimination invariant, as a column-wide statement: no
    /// non-null record holds a value that is exactly zero for the column's
    /// kind. Every encoder output satisfies it; externally constructed
    /// columns may or may not.
    pub open spec fn all_values_nonzero(self) -> bool {
        forall|i: int, j: int|
            0 <= i < self.rows@.len() && self.rows@[i] is Some && 0 <= j
                < self.rows@[i]->0.values@.len()
                ==> !spec_is_zero(self.kind, #[trigger] self.rows@[i]->0.values@[j])
    }

    /// Decides the column invariant.
    pub fn check_wf(&self) -> (b: bool)
        ensures
            b == self.wf(),
    {
        let n = self.rows.len();
        let mut i: usize = 0;
        while i < n
            invariant
                n == self.rows@.len(),
                i <= n,
                forall|k: int|
                    0 <= k < i && self.rows@[k] is Some ==> (#[trigger] self.rows@[k])->0.wf(),
            decreases n - i,
        {
            match &self.rows[i] {
                Some(row) => {
                    if !row.check_wf() {
                        return false;
                    }
                },
                None => {},
            }
            i += 1;
        }
        true
    }
}

} // verus!
