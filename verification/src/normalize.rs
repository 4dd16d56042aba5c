//! The Lp column normalizer.
//!
//! Normalization rescales a column of sparse records along the vertical axis:
//! for every coordinate dimension, the Lp norm of that dimension's values
//! across all rows is computed, and every value is divided by the norm of its
//! own dimension. The division and the norm's floating-point fold are the
//! caller's side of the boundary; this module validates the configuration,
//! builds the per-dimension grouping the fold consumes (pass one), and
//! assembles the rescaled output column (pass two), pairing every value with
//! the norm of exactly its own dimension.

use vstd::prelude::*;

use crate::error::EngineError;
use crate::record::SparseColumn;
use crate::record::SparseRow;
use crate::record::copy_vec;
use crate::scalar::ColumnType;
use crate::scalar::NumericKind;
use crate::scalar::f64_bits_at_least_one;
use crate::scalar::spec_f64_bits_at_least_one;
use crate::scalar::spec_is_zero;

verus! {

/// Validates the norm exponent `p`, given as its IEEE-754 binary64 pattern.
///
/// Succeeds exactly when the pattern is a number at least `1.0`; anything
/// else — a smaller number, a negative one, or NaN — is a configuration
/// error, reported before any row is touched.
pub fn check_p(p_bits: u64) -> (out: Result<(), EngineError>)
    ensures
        out is Ok <==> spec_f64_bits_at_least_one(p_bits),
        out matches Err(e) ==> e == EngineError::InvalidP,
{
    if f64_bits_at_least_one(p_bits) {
        Ok(())
    } else {
        Err(EngineError::InvalidP)
    }
}

/// Validates the normalization axis.
///
/// `"vertical"` is the one implemented axis. `"horizontal"` is a known,
/// deliberate gap and fails with the distinct not-implemented error; any
/// other name is a configuration error carrying the name.
pub fn check_axis(how: &str) -> (out: Result<(), EngineError>)
    ensures
        out is Ok <==> how@ == "vertical"@,
        out matches Err(e) ==> {
            &&& (e == EngineError::HorizontalNotImplemented <==> how@ == "horizontal"@)
            &&& how@ != "horizontal"@
                ==> (e matches EngineError::UnsupportedAxis(name) && name@ == how@)
        },
{
    let given = how.to_owned();
    if given == "vertical".to_owned() {
        Ok(())
    } else if given == "horizontal".to_owned() {
        Err(EngineError::HorizontalNotImplemented)
    } else {
        Err(EngineError::UnsupportedAxis(given))
    }
}

/// The values one record contributes to dimension `d`: for every entry whose
/// index is `d`, the entry's bits, in entry order. `indices` and `values` are
/// read in parallel.
pub open spec fn spec_pair_values_at(indices: Seq<u32>, values: Seq<u64>, d: u32) -> Seq<u64>
    decreases indices.len(),
{
    if indices.len() == 0 || values.len() == 0 {
        Seq::empty()
    } else {
        let prefix = spec_pair_values_at(indices.drop_last(), values.drop_last(), d);
        if indices.last() == d {
            prefix.push(values.last())
        } else {
            prefix
        }
    }
}

/// The values a whole column contributes to dimension `d`: the rows'
/// contributions concatenated in row order; null rows contribute nothing.
pub open spec fn spec_column_values_at(rows: Seq<Option<SparseRow>>, d: u32) -> Seq<u64>
    decreases rows.len(),
{
    if rows.len() == 0 {
        Seq::empty()
    } else {
        spec_column_values_at(rows.drop_last(), d) + (match rows.last() {
            Some(rec) => spec_pair_values_at(rec.indices@, rec.values@, d),
            None => Seq::empty(),
        })
    }
}

/// Collects the values the column contributes to dimension `d`, in row
/// order.
pub fn values_at_dimension(column: &SparseColumn, d: u32) -> (vals: Vec<u64>)
    requires
        column.wf(),
    ensures
        vals@ == spec_column_values_at(column.rows@, d),
{
    let n = column.rows.len();
    let mut vals: Vec<u64> = Vec::new();
    proof {
        assert(column.rows@.subrange(0, 0) =~= Seq::<Option<SparseRow>>::empty());
    }
    let mut i: usize = 0;
    while i < n
        invariant
            column.wf(),
            n == column.rows@.len(),
            i <= n,
            vals@ == spec_column_values_at(column.rows@.subrange(0, i as int), d),
        decreases n - i,
    {
        match &column.rows[i] {
            Some(rec) => {
                proof {
                    assert(column.rows@[i as int]->0.wf());
                    assert(rec.indices@.subrange(0, 0) =~= Seq::<u32>::empty());
                    assert(rec.values@.subrange(0, 0) =~= Seq::<u64>::empty());
                    assert(vals@ + Seq::<u64>::empty() =~= vals@);
                }
                let m = rec.indices.len();
                let mut j: usize = 0;
                while j < m
                    invariant
                        m == rec.indices@.len(),
                        rec.values@.len() == m,
                        j <= m,
                        vals@ == spec_column_values_at(column.rows@.subrange(0, i as int), d)
                            + spec_pair_values_at(
                            rec.indices@.subrange(0, j as int),
                            rec.values@.subrange(0, j as int),
                            d,
                        ),
                    decreases m - j,
                {
                    if rec.indices[j] == d {
                        vals.push(rec.values[j]);
                    }
                    proof {
                        assert(rec.indices@.subrange(0, (j + 1) as int).drop_last()
                            =~= rec.indices@.subrange(0, j as int));
                        assert(rec.values@.subrange(0, (j + 1) as int).drop_last()
                            =~= rec.values@.subrange(0, j as int));
                    }
                    j += 1;
                }
                proof {
                    assert(rec.indices@.subrange(0, m as int) =~= rec.indices@);
                    assert(rec.values@.subrange(0, m as int) =~= rec.values@);
                    assert(column.rows@.subrange(0, (i + 1) as int).drop_last()
                        =~= column.rows@.subrange(0, i as int));
                    assert(column.rows@.subrange(0, (i + 1) as int).last()
                        == column.rows@[i as int]);
                }
            },
            None => {
                proof {
                    assert(column.rows@.subrange(0, (i + 1) as int).drop_last()
                        =~= column.rows@.subrange(0, i as int));
                    assert(column.rows@.subrange(0, (i + 1) as int).last()
                        == column.rows@[i as int]);
                    assert(vals@ + Seq::<u64>::empty() =~= vals@);
                }
            },
        }
        i += 1;
    }
    proof {
        assert(column.rows@.subrange(0, n as int) =~= column.rows@);
    }
    vals
}

/// Inserts `d` into an ascending list of dimension indices, keeping it
/// ascending and duplicate-free.
fn insert_dimension(dims: &mut Vec<u32>, d: u32)
    requires
        forall|k: int, l: int| 0 <= k < l < old(dims)@.len() ==> old(dims)@[k] < old(dims)@[l],
    ensures
        forall|k: int, l: int|
            0 <= k < l < final(dims)@.len() ==> final(dims)@[k] < final(dims)@[l],
        forall|x: u32| final(dims)@.contains(x) <==> (old(dims)@.contains(x) || x == d),
{
    let n = dims.len();
    let mut pos: usize = 0;
    while pos < n && dims[pos] < d
        invariant
            dims@ == old(dims)@,
            n == dims@.len(),
            pos <= n,
            forall|k: int| 0 <= k < pos ==> dims@[k] < d,
        decreases n - pos,
    {
        pos += 1;
    }
    if pos < n && dims[pos] == d {
        proof {
            assert(dims@.contains(d));
        }
        return;
    }
    let ghost before = dims@;
    dims.insert(pos, d);
    proof {
        before.insert_ensures(pos as int, d);
        assert(dims@[pos as int] == d);
        assert forall|k: int, l: int| 0 <= k < l < dims@.len() implies dims@[k] < dims@[l] by {
            if l < pos {
                assert(dims@[k] == before[k] && dims@[l] == before[l]);
            } else if k < pos && l == pos {
                assert(dims@[k] == before[k]);
            } else if k < pos && l > pos {
                assert(dims@[k] == before[k] && dims@[l] == before[l - 1]);
                assert(before[l - 1] >= d);
            } else if k == pos {
                assert(dims@[l] == before[l - 1]);
                assert(before[l - 1] >= d);
                assert(before[l - 1] != d || l - 1 > pos);
                if before[l - 1] == d {
                    assert(before[pos as int] < before[l - 1]);
                    assert(false);
                }
            } else {
                assert(dims@[k] == before[k - 1] && dims@[l] == before[l - 1]);
            }
        }
        assert forall|x: u32| dims@.contains(x) implies (before.contains(x) || x == d) by {
            let k = choose|k: int| 0 <= k < dims@.len() && dims@[k] == x;
            if k < pos {
                assert(before[k] == x);
            } else if k > pos {
                assert(before[k - 1] == x);
            }
        }
        assert forall|x: u32| before.contains(x) implies dims@.contains(x) by {
            let k = choose|k: int| 0 <= k < before.len() && before[k] == x;
            if k < pos {
                assert(dims@[k] == x);
            } else {
                assert(dims@[k + 1] == x);
            }
        }
    }
}

/// The set of dimension indices that appear in at least one row, as an
/// ascending, duplicate-free list. These are exactly the keys of the
/// column-norm table one normalize call builds and consumes.
pub fn appearing_dimensions(column: &SparseColumn) -> (dims: Vec<u32>)
    ensures
        forall|k: int, l: int| 0 <= k < l < dims@.len() ==> dims@[k] < dims@[l],
        forall|x: u32| dims@.contains(x) <==> column.appears(x),
{
    let n = column.rows.len();
    let mut dims: Vec<u32> = Vec::new();
    let mut i: usize = 0;
    while i < n
        invariant
            n == column.rows@.len(),
            i <= n,
            forall|k: int, l: int| 0 <= k < l < dims@.len() ==> dims@[k] < dims@[l],
            forall|x: u32|
                dims@.contains(x)
                    <==> exists|r: int, e: int|
                    0 <= r < i && column.rows@[r] is Some && 0 <= e
                        < column.rows@[r]->0.indices@.len()
                        && #[trigger] column.rows@[r]->0.indices@[e] == x,
        decreases n - i,
    {
        match &column.rows[i] {
            Some(rec) => {
                let m = rec.indices.len();
                let mut j: usize = 0;
                while j < m
                    invariant
                        0 <= i < n,
                        n == column.rows@.len(),
                        column.rows@[i as int] is Some,
                        column.rows@[i as int]->0 == *rec,
                        m == rec.indices@.len(),
                        j <= m,
                        forall|k: int, l: int| 0 <= k < l < dims@.len() ==> dims@[k] < dims@[l],
                        forall|x: u32|
                            dims@.contains(x)
                                <==> (exists|r: int, e: int|
                                0 <= r < i && column.rows@[r] is Some && 0 <= e
                                    < column.rows@[r]->0.indices@.len()
                                    && #[trigger] column.rows@[r]->0.indices@[e] == x) || (exists|
                                e: int,
                            |
                                0 <= e < j && #[trigger] rec.indices@[e] == x),
                    decreases m - j,
                {
                    insert_dimension(&mut dims, rec.indices[j]);
                    j += 1;
                }
            },
            None => {},
        }
        i += 1;
    }
    dims
}

/// A dimension named by an entry of a record contributes at least one value
/// through that record.
proof fn lemma_pair_values_at_nonempty(indices: Seq<u32>, values: Seq<u64>, d: u32, e: int)
    requires
        indices.len() == values.len(),
        0 <= e < indices.len(),
        indices[e] == d,
    ensures
        spec_pair_values_at(indices, values, d).len() >= 1,
    decreases indices.len(),
{
    if e < indices.len() - 1 {
        lemma_pair_values_at_nonempty(indices.drop_last(), values.drop_last(), d, e);
    }
}

/// A dimension that appears in some non-null record of a column contributes
/// at least one value to the column's list for it.
proof fn lemma_column_values_at_nonempty(rows: Seq<Option<SparseRow>>, d: u32, r: int, e: int)
    requires
        0 <= r < rows.len(),
        rows[r] is Some,
        rows[r]->0.wf(),
        0 <= e < rows[r]->0.indices@.len(),
        rows[r]->0.indices@[e] == d,
    ensures
        spec_column_values_at(rows, d).len() >= 1,
    decreases rows.len(),
{
    if r < rows.len() - 1 {
        lemma_column_values_at_nonempty(rows.drop_last(), d, r, e);
    } else {
        lemma_pair_values_at_nonempty(rows[r]->0.indices@, rows[r]->0.values@, d, e);
    }
}

/// Pass one's structure: the column-norm table's key set and per-key inputs.
///
/// Returns one group per dimension index that appears in at least one row —
/// exactly the keys the column-norm table covers — in ascending key order,
/// each group carrying every value the column contributes to that dimension,
/// in row order. Folding each group's values with `abs(value)^p`, summing,
/// and closing with the power `1/p` yields the dimension's Lp norm; that
/// fold is the caller's, the grouping is proved here.
pub fn group_by_dimension(column: &SparseColumn) -> (groups: Vec<(u32, Vec<u64>)>)
    requires
        column.wf(),
    ensures
        forall|k: int, l: int| 0 <= k < l < groups@.len() ==> groups@[k].0 < groups@[l].0,
        forall|k: int| 0 <= k < groups@.len() ==> column.appears((#[trigger] groups@[k]).0),
        forall|d: u32|
            column.appears(d) ==> exists|k: int|
                0 <= k < groups@.len() && (#[trigger] groups@[k]).0 == d,
        forall|k: int|
            0 <= k < groups@.len() ==> (#[trigger] groups@[k]).1@ == spec_column_values_at(
                column.rows@,
                groups@[k].0,
            ),
        forall|k: int| 0 <= k < groups@.len() ==> (#[trigger] groups@[k]).1@.len() >= 1,
{
    let dims = appearing_dimensions(column);
    let nd = dims.len();
    let mut groups: Vec<(u32, Vec<u64>)> = Vec::new();
    let mut k: usize = 0;
    while k < nd
        invariant
            column.wf(),
            nd == dims@.len(),
            k <= nd,
            groups@.len() == k,
            forall|a: int, b: int| 0 <= a < b < dims@.len() ==> dims@[a] < dims@[b],
            forall|x: u32| dims@.contains(x) <==> column.appears(x),
            forall|a: int| 0 <= a < k ==> (#[trigger] groups@[a]).0 == dims@[a],
            forall|a: int|
                0 <= a < k ==> (#[trigger] groups@[a]).1@ == spec_column_values_at(
                    column.rows@,
                    dims@[a],
                ),
            forall|a: int| 0 <= a < k ==> (#[trigger] groups@[a]).1@.len() >= 1,
        decreases nd - k,
    {
        let d = dims[k];
        let vals = values_at_dimension(column, d);
        proof {
            assert(dims@[k as int] == d);
            assert(dims@.contains(d));
            assert(column.appears(d));
            let r = choose|r: int|
                0 <= r < column.rows@.len() && column.rows@[r] is Some
                    && column.rows@[r]->0.contains_index(d);
            assert(column.rows@[r]->0.contains_index(d));
            let e = choose|e: int|
                0 <= e < column.rows@[r]->0.indices@.len() && column.rows@[r]->0.indices@[e] == d;
            lemma_column_values_at_nonempty(column.rows@, d, r, e);
        }
        groups.push((d, vals));
        k += 1;
    }
    proof {
        assert forall|d: u32| column.appears(d) implies exists|a: int|
            0 <= a < groups@.len() && (#[trigger] groups@[a]).0 == d by {
            assert(dims@.contains(d));
            let a = choose|a: int| 0 <= a < dims@.len() && dims@[a] == d;
            assert(groups@[a].0 == d);
        }
    }
    groups
}

/// Zero denominators are structurally excluded: in a column whose records
/// hold no zero values — as every encoder output does — every dimension's
/// contribution list consists of nonzero values only. An Lp norm folded from
/// a nonempty list of nonzero values is positive, so the rescale pass never
/// divides by an exact zero; this is the invariant chain the normalizer
/// relies on instead of a runtime guard.
pub proof fn lemma_no_zero_contributions(column: SparseColumn, d: u32)
    requires
        column.all_values_nonzero(),
    ensures
        forall|t: int|
            0 <= t < spec_column_values_at(column.rows@, d).len() ==> !spec_is_zero(
                column.kind,
                #[trigger] spec_column_values_at(column.rows@, d)[t],
            ),
{
    assert forall|t: int|
        0 <= t < spec_column_values_at(column.rows@, d).len() implies !spec_is_zero(
        column.kind,
        spec_column_values_at(column.rows@, d)[t],
    ) by {
        lemma_column_values_at_from(column.rows@, d, t);
    }
}

/// Every element of a record's contribution list is one of the record's
/// values.
proof fn lemma_pair_values_at_from(indices: Seq<u32>, values: Seq<u64>, d: u32, t: int)
    requires
        0 <= t < spec_pair_values_at(indices, values, d).len(),
    ensures
        exists|e: int|
            0 <= e < values.len() && spec_pair_values_at(indices, values, d)[t] == #[trigger] values[e],
    decreases indices.len(),
{
    let vs = spec_pair_values_at(indices, values, d);
    if indices.last() == d && t == vs.len() - 1 {
        assert(vs[t] == values[values.len() - 1]);
    } else {
        lemma_pair_values_at_from(indices.drop_last(), values.drop_last(), d, t);
        let e = choose|e: int|
            0 <= e < values.drop_last().len() && spec_pair_values_at(
                indices.drop_last(),
                values.drop_last(),
                d,
                )[t] == #[trigger] values.drop_last()[e];
        assert(vs[t] == values[e]);
    }
}

/// Every element of a column's contribution list for a dimension is a value
/// of one of its non-null records.
proof fn lemma_column_values_at_from(rows: Seq<Option<SparseRow>>, d: u32, t: int)
    requires
        0 <= t < spec_column_values_at(rows, d).len(),
    ensures
        exists|r: int, e: int|
            0 <= r < rows.len() && rows[r] is Some && 0 <= e < rows[r]->0.values@.len()
                && spec_column_values_at(rows, d)[t] == #[trigger] rows[r]->0.values@[e],
    decreases rows.len(),
{
    let vs = spec_column_values_at(rows, d);
    let prefix = spec_column_values_at(rows.drop_last(), d);
    if t < prefix.len() {
        lemma_column_values_at_from(rows.drop_last(), d, t);
        let (r, e) = choose|r: int, e: int|
            0 <= r < rows.drop_last().len() && rows.drop_last()[r] is Some && 0 <= e
                < rows.drop_last()[r]->0.values@.len() && prefix[t]
                == #[trigger] rows.drop_last()[r]->0.values@[e];
        assert(vs[t] == prefix[t]);
        assert(rows[r] is Some && vs[t] == rows[r]->0.values@[e]);
    } else {
        let rec = rows.last()->0;
        lemma_pair_values_at_from(rec.indices@, rec.values@, d, t - prefix.len());
        let e = choose|e: int|
            0 <= e < rec.values@.len() && spec_pair_values_at(rec.indices@, rec.values@, d)[t
                - prefix.len()] == #[trigger] rec.values@[e];
        assert(vs[t] == rec.values@[e]);
        assert(rows[rows.len() - 1] is Some && vs[t] == rows[rows.len() - 1]->0.values@[e]);
    }
}

/// The first entry of the norm table for dimension `d`, if any. The tables
/// this crate builds have duplicate-free keys, so "first" is "the" entry.
pub open spec fn spec_lookup_norm(norms: Seq<(u32, u64)>, d: u32) -> Option<u64>
    decreases norms.len(),
{
    if norms.len() == 0 {
        None
    } else if norms.first().0 == d {
        Some(norms.first().1)
    } else {
        spec_lookup_norm(norms.drop_first(), d)
    }
}

/// Looks dimension `d` up in the norm table.
pub fn lookup_norm(norms: &Vec<(u32, u64)>, d: u32) -> (out: Option<u64>)
    ensures
        out == spec_lookup_norm(norms@, d),
{
    let n = norms.len();
    proof {
        assert(norms@.subrange(0, n as int) =~= norms@);
    }
    let mut k: usize = 0;
    while k < n
        invariant
            n == norms@.len(),
            k <= n,
            spec_lookup_norm(norms@, d) == spec_lookup_norm(
                norms@.subrange(k as int, n as int),
                d,
            ),
            forall|a: int| 0 <= a < k ==> (#[trigger] norms@[a]).0 != d,
        decreases n - k,
    {
        proof {
            assert(norms@.subrange(k as int, n as int).first() == norms@[k as int]);
            assert(norms@.subrange(k as int, n as int).drop_first() =~= norms@.subrange(
                (k + 1) as int,
                n as int,
            ));
        }
        if norms[k].0 == d {
            return Some(norms[k].1);
        }
        k += 1;
    }
    proof {
        assert(norms@.subrange(n as int, n as int) =~= Seq::<(u32, u64)>::empty());
    }
    None
}

/// Whether the norm table has an entry for every retained index of every
/// non-null row — what pass two needs of pass one's output.
pub open spec fn spec_covers(norms: Seq<(u32, u64)>, rows: Seq<Option<SparseRow>>) -> bool {
    forall|i: int, j: int|
        0 <= i < rows.len() && rows[i] is Some && 0 <= j < rows[i]->0.indices@.len()
            ==> spec_lookup_norm(norms, #[trigger] rows[i]->0.indices@[j]) is Some
}

/// Pass two's lookup: aligns every value of the column with the norm of its
/// own dimension.
///
/// For each non-null row the result carries, entry by entry, the table's
/// norm for that entry's index; null rows stay null. Returns `None` exactly
/// when some retained index is missing from the table — which cannot happen
/// for a table keyed by the column's own appearing dimensions.
pub fn norms_for_column(column: &SparseColumn, norms: &Vec<(u32, u64)>) -> (out: Option<
    Vec<Option<Vec<u64>>>,
>)
    requires
        column.wf(),
    ensures
        out is Some <==> spec_covers(norms@, column.rows@),
        out matches Some(aligned) ==> {
            &&& aligned@.len() == column.rows@.len()
            &&& forall|i: int|
                0 <= i < aligned@.len()
                    ==> ((#[trigger] aligned@[i]) is Some <==> column.rows@[i] is Some)
            &&& forall|i: int|
                0 <= i < aligned@.len() && column.rows@[i] is Some
                    ==> (#[trigger] aligned@[i])->0@.len() == column.rows@[i]->0.indices@.len()
            &&& forall|i: int, j: int|
                0 <= i < aligned@.len() && column.rows@[i] is Some && 0 <= j
                    < column.rows@[i]->0.indices@.len() ==> aligned@[i]->0@[j]
                    == spec_lookup_norm(norms@, #[trigger] column.rows@[i]->0.indices@[j])->0
        },
{
    let n = column.rows.len();
    let mut aligned: Vec<Option<Vec<u64>>> = Vec::new();
    let mut i: usize = 0;
    while i < n
        invariant
            column.wf(),
            n == column.rows@.len(),
            i <= n,
            aligned@.len() == i,
            forall|a: int|
                0 <= a < i ==> ((#[trigger] aligned@[a]) is Some <==> column.rows@[a] is Some),
            forall|a: int|
                0 <= a < i && column.rows@[a] is Some
                    ==> (#[trigger] aligned@[a])->0@.len() == column.rows@[a]->0.indices@.len(),
            forall|a: int, b: int|
                0 <= a < i && column.rows@[a] is Some && 0 <= b
                    < column.rows@[a]->0.indices@.len()
                    ==> spec_lookup_norm(norms@, #[trigger] column.rows@[a]->0.indices@[b]) is Some
                    && (#[trigger] aligned@[a])->0@[b] == spec_lookup_norm(
                    norms@,
                    column.rows@[a]->0.indices@[b],
                )->0,
        decreases n - i,
    {
        match &column.rows[i] {
            Some(rec) => {
                proof {
                    assert(column.rows@[i as int]->0.wf());
                }
                let m = rec.indices.len();
                let mut row_norms: Vec<u64> = Vec::new();
                let mut j: usize = 0;
                while j < m
                    invariant
                        0 <= i < n,
                        n == column.rows@.len(),
                        column.rows@[i as int] is Some,
                        column.rows@[i as int]->0 == *rec,
                        m == rec.indices@.len(),
                        j <= m,
                        row_norms@.len() == j,
                        forall|b: int|
                            0 <= b < j ==> spec_lookup_norm(
                                norms@,
                                #[trigger] rec.indices@[b],
                            ) is Some && row_norms@[b] == spec_lookup_norm(
                                norms@,
                                rec.indices@[b],
                            )->0,
                    decreases m - j,
                {
                    match lookup_norm(norms, rec.indices[j]) {
                        Some(norm_bits) => {
                            row_norms.push(norm_bits);
                        },
                        None => {
                            proof {
                                assert(spec_lookup_norm(
                                    norms@,
                                    column.rows@[i as int]->0.indices@[j as int],
                                ) is None);
                                assert(!spec_covers(norms@, column.rows@));
                            }
                            return None;
                        },
                    }
                    j += 1;
                }
                aligned.push(Some(row_norms));
            },
            None => {
                aligned.push(None);
            },
        }
        i += 1;
    }
    proof {
        assert forall|a: int, b: int|
            0 <= a < column.rows@.len() && column.rows@[a] is Some && 0 <= b
                < column.rows@[a]->0.indices@.len() implies spec_lookup_norm(
            norms@,
            #[trigger] column.rows@[a]->0.indices@[b],
        ) is Some by {
            assert(aligned@[a] is Some);
        }
    }
    Some(aligned)
}

/// Whether `vals` has exactly the shape of the column's rows: one entry per
/// row, null exactly where the row is null, and per non-null row as many
/// values as the row has retained entries.
pub open spec fn spec_values_shape(rows: Seq<Option<SparseRow>>, vals: Seq<Option<Vec<u64>>>) -> bool {
    &&& vals.len() == rows.len()
    &&& forall|i: int| 0 <= i < rows.len() ==> ((#[trigger] vals[i]) is Some <==> rows[i] is Some)
    &&& forall|i: int|
        0 <= i < rows.len() && rows[i] is Some ==> (#[trigger] vals[i])->0@.len()
            == rows[i]->0.indices@.len()
}

/// Pass two's assembly: the output column.
///
/// Builds the normalized column from the input column and its rescaled
/// values: every record keeps its `dim` and its `indices` unchanged and
/// takes the new values — 64-bit float patterns, whatever the input's kind
/// was — in entry order; null rows stay null. Returns `None` exactly when
/// `new_values` does not have the shape of the column's rows.
pub fn with_float64_values(column: &SparseColumn, new_values: &Vec<Option<Vec<u64>>>) -> (out:
    Option<SparseColumn>)
    requires
        column.wf(),
    ensures
        out is Some <==> spec_values_shape(column.rows@, new_values@),
        out matches Some(sc) ==> {
            &&& sc.kind == NumericKind::Float64
            &&& sc.rows@.len() == column.rows@.len()
            &&& forall|i: int|
                0 <= i < sc.rows@.len()
                    ==> ((#[trigger] sc.rows@[i]) is Some <==> column.rows@[i] is Some)
            &&& forall|i: int|
                0 <= i < sc.rows@.len() && column.rows@[i] is Some ==> {
                    let rec = (#[trigger] sc.rows@[i])->0;
                    let src = column.rows@[i]->0;
                    &&& rec.dim == src.dim
                    &&& rec.indices@ == src.indices@
                    &&& rec.values@ == new_values@[i]->0@
                }
            &&& sc.wf()
        },
{
    let n = column.rows.len();
    if new_values.len() != n {
        return None;
    }
    let mut rows: Vec<Option<SparseRow>> = Vec::new();
    let mut i: usize = 0;
    while i < n
        invariant
            column.wf(),
            n == column.rows@.len(),
            new_values@.len() == n,
            i <= n,
            rows@.len() == i,
            forall|a: int|
                0 <= a < i ==> ((#[trigger] rows@[a]) is Some <==> column.rows@[a] is Some),
            forall|a: int|
                0 <= a < i ==> ((#[trigger] new_values@[a]) is Some <==> column.rows@[a] is Some),
            forall|a: int|
                0 <= a < i && column.rows@[a] is Some
                    ==> (#[trigger] new_values@[a])->0@.len() == column.rows@[a]->0.indices@.len(),
            forall|a: int|
                0 <= a < i && column.rows@[a] is Some ==> {
                    let rec = (#[trigger] rows@[a])->0;
                    let src = column.rows@[a]->0;
                    &&& rec.dim == src.dim
                    &&& rec.indices@ == src.indices@
                    &&& rec.values@ == new_values@[a]->0@
                    &&& rec.wf()
                },
        decreases n - i,
    {
        match (&column.rows[i], &new_values[i]) {
            (Some(rec), Some(vals)) => {
                proof {
                    assert(column.rows@[i as int]->0.wf());
                }
                if vals.len() != rec.indices.len() {
                    return None;
                }
                let out_rec = SparseRow {
                    dim: rec.dim,
                    indices: copy_vec(&rec.indices),
                    values: copy_vec(vals),
                };
                rows.push(Some(out_rec));
            },
            (None, None) => {
                rows.push(None);
            },
            _ => {
                return None;
            },
        }
        i += 1;
    }
    Some(SparseColumn { kind: NumericKind::Float64, rows })
}

/// Sharding pass one is sound at the structural level: a batch split into
/// two shards contributes, per dimension, the concatenation of the shards'
/// contributions. Per-shard tables may therefore be merged by summing the
/// accumulated powers per dimension before the closing root — and only
/// before it, since the fold runs over the whole concatenated list.
pub proof fn lemma_values_at_append(
    rows1: Seq<Option<SparseRow>>,
    rows2: Seq<Option<SparseRow>>,
    d: u32,
)
    ensures
        spec_column_values_at(rows1 + rows2, d) == spec_column_values_at(rows1, d)
            + spec_column_values_at(rows2, d),
    decreases rows2.len(),
{
    if rows2.len() == 0 {
        assert(rows1 + rows2 =~= rows1);
        assert(spec_column_values_at(rows1, d) + spec_column_values_at(rows2, d)
            =~= spec_column_values_at(rows1, d));
    } else {
        lemma_values_at_append(rows1, rows2.drop_last(), d);
        assert((rows1 + rows2).drop_last() =~= rows1 + rows2.drop_last());
        assert((rows1 + rows2).last() == rows2.last());
        let tail = match rows2.last() {
            Some(rec) => spec_pair_values_at(rec.indices@, rec.values@, d),
            None => Seq::<u64>::empty(),
        };
        assert(spec_column_values_at(rows1 + rows2, d) == spec_column_values_at(rows1, d)
            + spec_column_values_at(rows2.drop_last(), d) + tail);
        assert(spec_column_values_at(rows1, d) + spec_column_values_at(rows2.drop_last(), d)
            + tail =~= spec_column_values_at(rows1, d) + (spec_column_values_at(
            rows2.drop_last(),
            d,
        ) + tail));
    }
}

/// An empty batch normalizes to an empty batch without error: the empty
/// column contributes nothing to any dimension, every norm table covers it,
/// and the empty values list has its shape — so past validation, which
/// never looks at the rows, both passes succeed and return empty outputs.
pub proof fn lemma_empty_batch(norms: Seq<(u32, u64)>, d: u32)
    ensures
        spec_column_values_at(Seq::<Option<SparseRow>>::empty(), d) == Seq::<u64>::empty(),
        spec_covers(norms, Seq::<Option<SparseRow>>::empty()),
        spec_values_shape(Seq::<Option<SparseRow>>::empty(), Seq::<Option<Vec<u64>>>::empty()),
{
}

/// Validates one normalize call's configuration, in the order the engine
/// checks it: the exponent `p` (as a binary64 pattern) must be at least
/// `1.0`, the values' element type must be one of the four numeric kinds,
/// and the axis must be `"vertical"` — `"horizontal"` being the deliberate,
/// distinctly-reported gap. The first failed check decides the error; on
/// success the values' numeric kind comes back.
pub fn check_config(p_bits: u64, how: &str, vtype: &ColumnType) -> (out: Result<
    NumericKind,
    EngineError,
>)
    ensures
        out is Ok <==> (spec_f64_bits_at_least_one(p_bits) && vtype.spec_kind() is Some && how@
            == "vertical"@),
        out matches Ok(kind) ==> Some(kind) == vtype.spec_kind(),
        out matches Err(e) ==> {
            &&& !spec_f64_bits_at_least_one(p_bits) ==> e == EngineError::InvalidP
            &&& (spec_f64_bits_at_least_one(p_bits) && vtype.spec_kind() is None) ==> (
            vtype matches ColumnType::Other(tname)
                && e matches EngineError::UnsupportedType(reported) && reported@ == tname@)
            &&& (spec_f64_bits_at_least_one(p_bits) && vtype.spec_kind() is Some && how@
                == "horizontal"@) ==> e == EngineError::HorizontalNotImplemented
            &&& (spec_f64_bits_at_least_one(p_bits) && vtype.spec_kind() is Some && how@
                != "horizontal"@) ==> (e matches EngineError::UnsupportedAxis(axis) && axis@
                == how@)
        },
{
    if let Err(e) = check_p(p_bits) {
        return Err(e);
    }
    let kind = match vtype {
        ColumnType::Int32 => NumericKind::Int32,
        ColumnType::Int64 => NumericKind::Int64,
        ColumnType::Float32 => NumericKind::Float32,
        ColumnType::Float64 => NumericKind::Float64,
        ColumnType::Other(tname) => {
            return Err(EngineError::UnsupportedType(tname.clone()));
        },
    };
    if let Err(e) = check_axis(how) {
        return Err(e);
    }
    Ok(kind)
}

} // verus!
