//! The sparse encoder.
//!
//! Encoding turns a column of nullable dense rows into a column of nullable
//! sparse records. A null dense row becomes a null record. For a non-null
//! row, positions are visited left to right; an entry that is null or exactly
//! zero is skipped, and every other entry contributes its position to
//! `indices` and its bits to `values`. Encoding is type-preserving: the
//! output records carry the input column's numeric kind.

use vstd::pervasive::VecAdditionalExecFns;
use vstd::prelude::*;

use crate::error::EngineError;
use crate::record::DenseColumn;
use crate::record::SparseColumn;
use crate::record::SparseRow;
use crate::scalar::ColumnType;
use crate::scalar::NumericKind;
use crate::scalar::is_zero;
use crate::scalar::spec_is_zero;

verus! {

/// Whether the encoder retains a dense entry: it is present and not exactly
/// zero. Null entries are skipped the same way zero entries are, since
/// neither contributes to a sparse record.
pub open spec fn spec_retained(kind: NumericKind, entry: Option<u64>) -> bool {
    entry is Some && !spec_is_zero(kind, entry->0)
}

/// The positions of the retained entries of `row`, in ascending order.
pub open spec fn spec_encode_indices(kind: NumericKind, row: Seq<Option<u64>>) -> Seq<u32>
    decreases row.len(),
{
    if row.len() == 0 {
        Seq::empty()
    } else {
        let prefix = spec_encode_indices(kind, row.drop_last());
        if spec_retained(kind, row.last()) {
            prefix.push((row.len() - 1) as u32)
        } else {
            prefix
        }
    }
}

/// The bits of the retained entries of `row`, parallel to
/// [`spec_encode_indices`].
pub open spec fn spec_encode_values(kind: NumericKind, row: Seq<Option<u64>>) -> Seq<u64>
    decreases row.len(),
{
    if row.len() == 0 {
        Seq::empty()
    } else {
        let prefix = spec_encode_values(kind, row.drop_last());
        if spec_retained(kind, row.last()) {
            prefix.push(row.last()->0)
        } else {
            prefix
        }
    }
}

/// Shape of an encoded row: as many indices as values, no more than the row
/// has positions, every index a position of the row, and indices strictly
/// ascending.
pub proof fn lemma_encode_shape(kind: NumericKind, row: Seq<Option<u64>>)
    requires
        row.len() <= u32::MAX,
    ensures
        spec_encode_indices(kind, row).len() == spec_encode_values(kind, row).len(),
        spec_encode_indices(kind, row).len() <= row.len(),
        forall|k: int|
            0 <= k < spec_encode_indices(kind, row).len()
                ==> spec_encode_indices(kind, row)[k] < row.len(),
        forall|k: int, l: int|
            0 <= k < l < spec_encode_indices(kind, row).len()
                ==> spec_encode_indices(kind, row)[k] < spec_encode_indices(kind, row)[l],
    decreases row.len(),
{
    if row.len() > 0 {
        let prefix = row.drop_last();
        lemma_encode_shape(kind, prefix);
        if spec_retained(kind, row.last()) {
            let pi = spec_encode_indices(kind, prefix);
            let ni = spec_encode_indices(kind, row);
            assert(ni == pi.push((row.len() - 1) as u32));
            assert forall|k: int, l: int| 0 <= k < l < ni.len() implies ni[k] < ni[l] by {
                if l == ni.len() - 1 {
                    assert(ni[k] == pi[k]);
                    assert(pi[k] < prefix.len());
                }
            }
        }
    }
}

/// Every value an encoded row retains is nonzero for its kind: the
/// zero-elimination invariant, at the level of one row.
pub proof fn lemma_encode_values_nonzero(kind: NumericKind, row: Seq<Option<u64>>)
    ensures
        forall|k: int|
            0 <= k < spec_encode_values(kind, row).len()
                ==> !spec_is_zero(kind, spec_encode_values(kind, row)[k]),
    decreases row.len(),
{
    if row.len() > 0 {
        let prefix = row.drop_last();
        lemma_encode_values_nonzero(kind, prefix);
        let pv = spec_encode_values(kind, prefix);
        let nv = spec_encode_values(kind, row);
        if spec_retained(kind, row.last()) {
            assert(nv == pv.push(row.last()->0));
            assert forall|k: int| 0 <= k < nv.len() implies !spec_is_zero(kind, nv[k]) by {
                if k < nv.len() - 1 {
                    assert(nv[k] == pv[k]);
                } else {
                    assert(nv[k] == row.last()->0);
                }
            }
        }
    }
}

/// Scatters `values` at `indices` into a dense vector of length `dim`, zero
/// elsewhere. Later pairs win where indices repeat; encoded rows have no
/// repeats.
pub open spec fn spec_scatter(dim: nat, indices: Seq<u32>, values: Seq<u64>) -> Seq<u64>
    decreases indices.len(),
{
    if indices.len() == 0 || values.len() == 0 {
        Seq::new(dim, |j: int| 0u64)
    } else {
        spec_scatter(dim, indices.drop_last(), values.drop_last()).update(
            indices.last() as int,
            values.last(),
        )
    }
}

/// Zero-elimination, read back: scattering an encoded row's values at its
/// indices over its original length reproduces the dense row, with every
/// entry that was null or exactly zero now the all-zero pattern and every
/// retained entry's bits unchanged.
pub proof fn lemma_encode_reconstructs(kind: NumericKind, row: Seq<Option<u64>>, dim: nat)
    requires
        row.len() <= dim,
        row.len() <= u32::MAX,
    ensures
        spec_scatter(dim, spec_encode_indices(kind, row), spec_encode_values(kind, row)).len()
            == dim,
        forall|j: int|
            0 <= j < row.len()
                ==> spec_scatter(dim, spec_encode_indices(kind, row), spec_encode_values(kind, row))[j]
                == if spec_retained(kind, row[j]) {
                    row[j]->0
                } else {
                    0u64
                },
        forall|j: int|
            row.len() <= j < dim
                ==> spec_scatter(dim, spec_encode_indices(kind, row), spec_encode_values(kind, row))[j]
                == 0u64,
    decreases row.len(),
{
    if row.len() > 0 {
        let prefix = row.drop_last();
        lemma_encode_reconstructs(kind, prefix, dim);
        lemma_encode_shape(kind, prefix);
        let n = row.len() as int;
        let pi = spec_encode_indices(kind, prefix);
        let pv = spec_encode_values(kind, prefix);
        let ps = spec_scatter(dim, pi, pv);
        let ns = spec_scatter(dim, spec_encode_indices(kind, row), spec_encode_values(kind, row));
        if spec_retained(kind, row.last()) {
            assert(spec_encode_indices(kind, row) == pi.push((n - 1) as u32));
            assert(spec_encode_values(kind, row) == pv.push(row.last()->0));
            assert(pi.push((n - 1) as u32).drop_last() =~= pi);
            assert(pv.push(row.last()->0).drop_last() =~= pv);
            assert(ns == ps.update(n - 1, row.last()->0));
            assert forall|j: int|
                0 <= j < n implies ns[j] == (if spec_retained(kind, row[j]) {
                row[j]->0
            } else {
                0u64
            }) by {
                if j < n - 1 {
                    assert(ns[j] == ps[j]);
                    assert(prefix[j] == row[j]);
                } else {
                    assert(ns[j] == row.last()->0);
                }
            }
            assert forall|j: int| n <= j < dim implies ns[j] == 0u64 by {
                assert(ns[j] == ps[j]);
            }
        } else {
            assert(spec_encode_indices(kind, row) == pi);
            assert(spec_encode_values(kind, row) == pv);
            assert forall|j: int|
                0 <= j < n implies ns[j] == (if spec_retained(kind, row[j]) {
                row[j]->0
            } else {
                0u64
            }) by {
                assert(ns[j] == ps[j]);
                if j < n - 1 {
                    assert(prefix[j] == row[j]);
                } else {
                    assert(!spec_retained(kind, row[j]));
                }
            }
        }
    }
}

/// Reconstructs the dense vector a sparse record stands for: its values
/// scattered at its indices over its original length, the all-zero pattern
/// everywhere else.
pub fn scatter_row(rec: &SparseRow) -> (dense: Vec<u64>)
    requires
        rec.wf(),
    ensures
        dense@ == spec_scatter(rec.dim as nat, rec.indices@, rec.values@),
{
    let dim = rec.dim as usize;
    let mut dense: Vec<u64> = Vec::new();
    let mut j: usize = 0;
    while j < dim
        invariant
            dim == rec.dim,
            j <= dim,
            dense@.len() == j,
            forall|q: int| 0 <= q < j ==> dense@[q] == 0u64,
        decreases dim - j,
    {
        dense.push(0u64);
        j += 1;
    }
    proof {
        assert(dense@ =~= Seq::new(rec.dim as nat, |q: int| 0u64));
        assert(rec.indices@.subrange(0, 0) =~= Seq::<u32>::empty());
        assert(rec.values@.subrange(0, 0) =~= Seq::<u64>::empty());
    }
    let m = rec.indices.len();
    let mut k: usize = 0;
    while k < m
        invariant
            rec.wf(),
            m == rec.indices@.len(),
            k <= m,
            dense@.len() == rec.dim,
            dense@ == spec_scatter(
                rec.dim as nat,
                rec.indices@.subrange(0, k as int),
                rec.values@.subrange(0, k as int),
            ),
        decreases m - k,
    {
        let pos = rec.indices[k] as usize;
        dense.set(pos, rec.values[k]);
        proof {
            assert(rec.indices@.subrange(0, (k + 1) as int).drop_last()
                =~= rec.indices@.subrange(0, k as int));
            assert(rec.values@.subrange(0, (k + 1) as int).drop_last()
                =~= rec.values@.subrange(0, k as int));
        }
        k += 1;
    }
    proof {
        assert(rec.indices@.subrange(0, m as int) =~= rec.indices@);
        assert(rec.values@.subrange(0, m as int) =~= rec.values@);
    }
    dense
}

/// Encodes one non-null dense row of the given kind.
pub fn encode_row(kind: NumericKind, row: &Vec<Option<u64>>) -> (rec: SparseRow)
    requires
        row@.len() <= u32::MAX,
    ensures
        rec.dim == row@.len(),
        rec.indices@ == spec_encode_indices(kind, row@),
        rec.values@ == spec_encode_values(kind, row@),
        rec.wf(),
{
    let n = row.len();
    let mut indices: Vec<u32> = Vec::new();
    let mut values: Vec<u64> = Vec::new();
    let mut j: usize = 0;
    while j < n
        invariant
            n == row@.len(),
            n <= u32::MAX,
            j <= n,
            indices@ == spec_encode_indices(kind, row@.subrange(0, j as int)),
            values@ == spec_encode_values(kind, row@.subrange(0, j as int)),
        decreases n - j,
    {
        match &row[j] {
            Some(bits) => {
                if !is_zero(kind, *bits) {
                    indices.push(j as u32);
                    values.push(*bits);
                }
            },
            None => {},
        }
        proof {
            assert(row@.subrange(0, (j + 1) as int).drop_last() =~= row@.subrange(0, j as int));
        }
        j += 1;
    }
    proof {
        assert(row@.subrange(0, n as int) =~= row@);
        lemma_encode_shape(kind, row@);
    }
    SparseRow { dim: n as u32, indices, values }
}

/// Encodes a column of nullable dense rows into a column of nullable sparse
/// records.
///
/// Fails fast with a type-mismatch error, before any row is processed, when
/// the column's element type is not one of the four supported numeric kinds;
/// this is the only failure. On success the output has one record per input
/// row, null exactly where the input row is null, each non-null record the
/// encoding of its own row, and the input's numeric kind is kept.
pub fn encode(column: &DenseColumn) -> (out: Result<SparseColumn, EngineError>)
    requires
        forall|i: int|
            0 <= i < column.rows@.len() && column.rows@[i] is Some
                ==> (#[trigger] column.rows@[i])->0@.len() <= u32::MAX,
    ensures
        out is Ok <==> column.dtype.spec_kind() is Some,
        out matches Ok(sc) ==> {
            &&& Some(sc.kind) == column.dtype.spec_kind()
            &&& sc.rows@.len() == column.rows@.len()
            &&& forall|i: int|
                0 <= i < column.rows@.len()
                    ==> ((#[trigger] sc.rows@[i]) is Some <==> column.rows@[i] is Some)
            &&& forall|i: int|
                0 <= i < column.rows@.len() && column.rows@[i] is Some ==> {
                    let rec = (#[trigger] sc.rows@[i])->0;
                    let dense = column.rows@[i]->0@;
                    &&& rec.dim == dense.len()
                    &&& rec.indices@ == spec_encode_indices(sc.kind, dense)
                    &&& rec.values@ == spec_encode_values(sc.kind, dense)
                }
            &&& sc.wf()
            &&& sc.all_values_nonzero()
        },
        out matches Err(e) ==> (column.dtype matches ColumnType::Other(name)
            && e matches EngineError::UnsupportedType(reported) && reported@ == name@),
{
    let kind: NumericKind = match &column.dtype {
        ColumnType::Int32 => NumericKind::Int32,
        ColumnType::Int64 => NumericKind::Int64,
        ColumnType::Float32 => NumericKind::Float32,
        ColumnType::Float64 => NumericKind::Float64,
        ColumnType::Other(name) => {
            return Err(EngineError::UnsupportedType(name.clone()));
        },
    };
    let n = column.rows.len();
    let mut rows: Vec<Option<SparseRow>> = Vec::new();
    let mut i: usize = 0;
    while i < n
        invariant
            n == column.rows@.len(),
            i <= n,
            rows@.len() == i,
            forall|k: int|
                0 <= k < i ==> ((#[trigger] rows@[k]) is Some <==> column.rows@[k] is Some),
            forall|k: int|
                0 <= k < i && column.rows@[k] is Some ==> {
                    let rec = (#[trigger] rows@[k])->0;
                    let dense = column.rows@[k]->0@;
                    &&& rec.dim == dense.len()
                    &&& rec.indices@ == spec_encode_indices(kind, dense)
                    &&& rec.values@ == spec_encode_values(kind, dense)
                    &&& rec.wf()
                },
            forall|k: int|
                0 <= k < n && column.rows@[k] is Some
                    ==> (#[trigger] column.rows@[k])->0@.len() <= u32::MAX,
        decreases n - i,
    {
        match &column.rows[i] {
            Some(dense) => {
                let rec = encode_row(kind, dense);
                rows.push(Some(rec));
            },
            None => {
                rows.push(None);
            },
        }
        i += 1;
    }
    proof {
        assert forall|a: int, b: int|
            0 <= a < rows@.len() && rows@[a] is Some && 0 <= b
                < rows@[a]->0.values@.len() implies !spec_is_zero(
            kind,
            rows@[a]->0.values@[b],
        ) by {
            lemma_encode_values_nonzero(kind, column.rows@[a]->0@);
        }
    }
    Ok(SparseColumn { kind, rows })
}

} // verus!
