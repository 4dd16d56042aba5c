use sparse_engine::encode::{encode, scatter_row};
use sparse_engine::error::EngineError;
use sparse_engine::normalize::{
    appearing_dimensions, check_axis, check_config, check_p, group_by_dimension, lookup_norm,
    norms_for_column, values_at_dimension, with_float64_values,
};
use sparse_engine::record::{DenseColumn, SparseColumn, SparseRow};
use sparse_engine::scalar::{is_zero, ColumnType, NumericKind};

fn i64_bits(v: i64) -> u64 {
    v as u64
}

fn i32_bits(v: i32) -> u64 {
    (v as u32) as u64
}

fn f32_bits(v: f32) -> u64 {
    v.to_bits() as u64
}

fn row(dim: u32, indices: Vec<u32>, values: Vec<u64>) -> SparseRow {
    SparseRow {
        dim,
        indices,
        values,
    }
}

fn scalar_as_f64(kind: NumericKind, bits: u64) -> f64 {
    match kind {
        NumericKind::Int32 => (bits as u32 as i32) as f64,
        NumericKind::Int64 => (bits as i64) as f64,
        NumericKind::Float32 => f32::from_bits(bits as u32) as f64,
        NumericKind::Float64 => f64::from_bits(bits),
    }
}

/// The caller's side of pass one: folds each group into its Lp norm.
fn close_norms(groups: &[(u32, Vec<u64>)], kind: NumericKind, p: f64) -> Vec<(u32, u64)> {
    groups
        .iter()
        .map(|(d, vals)| {
            let sum: f64 = vals
                .iter()
                .map(|&bits| scalar_as_f64(kind, bits).abs().powf(p))
                .sum();
            (*d, sum.powf(1.0 / p).to_bits())
        })
        .collect()
}

/// The caller's side of pass two: divides each value by its aligned norm.
fn divide_rows(
    column: &SparseColumn,
    aligned: &[Option<Vec<u64>>],
) -> Vec<Option<Vec<u64>>> {
    column
        .rows
        .iter()
        .zip(aligned.iter())
        .map(|(rec, norms)| match (rec, norms) {
            (Some(rec), Some(norms)) => Some(
                rec.values
                    .iter()
                    .zip(norms.iter())
                    .map(|(&v, &n)| (scalar_as_f64(column.kind, v) / f64::from_bits(n)).to_bits())
                    .collect(),
            ),
            _ => None,
        })
        .collect()
}

#[test]
fn encode_i64_skips_zeros_and_nulls() {
    let column = DenseColumn {
        dtype: ColumnType::Int64,
        rows: vec![
            Some(vec![Some(i64_bits(0)), Some(i64_bits(3)), None, Some(i64_bits(-2))]),
            None,
        ],
    };
    let out = encode(&column).unwrap();
    assert_eq!(out.kind, NumericKind::Int64);
    assert_eq!(out.rows.len(), 2);
    let rec = out.rows[0].as_ref().unwrap();
    assert_eq!(rec.dim, 4);
    assert_eq!(rec.indices, vec![1, 3]);
    assert_eq!(rec.values, vec![i64_bits(3), i64_bits(-2)]);
    assert!(out.rows[1].is_none());
}

#[test]
fn encode_f64_drops_both_zero_signs() {
    let column = DenseColumn {
        dtype: ColumnType::Float64,
        rows: vec![Some(vec![
            Some((-0.0f64).to_bits()),
            Some(1.5f64.to_bits()),
            Some(0.0f64.to_bits()),
        ])],
    };
    let out = encode(&column).unwrap();
    let rec = out.rows[0].as_ref().unwrap();
    assert_eq!(rec.dim, 3);
    assert_eq!(rec.indices, vec![1]);
    assert_eq!(rec.values, vec![1.5f64.to_bits()]);
}

#[test]
fn encode_f32_keeps_kind_and_pattern() {
    let column = DenseColumn {
        dtype: ColumnType::Float32,
        rows: vec![Some(vec![
            Some(f32_bits(-0.0)),
            Some(f32_bits(2.25)),
            None,
            Some(f32_bits(-7.5)),
        ])],
    };
    let out = encode(&column).unwrap();
    assert_eq!(out.kind, NumericKind::Float32);
    let rec = out.rows[0].as_ref().unwrap();
    assert_eq!(rec.indices, vec![1, 3]);
    assert_eq!(rec.values, vec![f32_bits(2.25), f32_bits(-7.5)]);
}

#[test]
fn encode_rejects_unsupported_type() {
    let column = DenseColumn {
        dtype: ColumnType::Other("str".to_string()),
        rows: vec![Some(vec![Some(1)])],
    };
    let err = encode(&column).unwrap_err();
    assert_eq!(err, EngineError::UnsupportedType("str".to_string()));
    assert!(!err.is_configuration());
}

#[test]
fn encode_empty_column_and_empty_row() {
    let column = DenseColumn {
        dtype: ColumnType::Int32,
        rows: vec![],
    };
    let out = encode(&column).unwrap();
    assert_eq!(out.rows.len(), 0);

    let column = DenseColumn {
        dtype: ColumnType::Int32,
        rows: vec![Some(vec![])],
    };
    let out = encode(&column).unwrap();
    let rec = out.rows[0].as_ref().unwrap();
    assert_eq!(rec.dim, 0);
    assert!(rec.indices.is_empty());
    assert!(rec.values.is_empty());
}

#[test]
fn zero_elimination_round_trip() {
    // Scattering an encoded row back over its dim reproduces the dense row,
    // with nulls and zeros both landing as exact zeros.
    let dense = vec![Some(i32_bits(5)), Some(i32_bits(0)), None, Some(i32_bits(-7))];
    let column = DenseColumn {
        dtype: ColumnType::Int32,
        rows: vec![Some(dense)],
    };
    let out = encode(&column).unwrap();
    let rec = out.rows[0].as_ref().unwrap();
    let rebuilt = scatter_row(rec);
    assert_eq!(
        rebuilt,
        vec![i32_bits(5), 0, 0, i32_bits(-7)]
    );
}

#[test]
fn length_invariant_holds_for_encoded_rows() {
    let column = DenseColumn {
        dtype: ColumnType::Int64,
        rows: vec![
            Some(vec![Some(i64_bits(1)), Some(i64_bits(0)), Some(i64_bits(2))]),
            Some(vec![None, None]),
            Some(vec![]),
        ],
    };
    let out = encode(&column).unwrap();
    for rec in out.rows.iter().flatten() {
        assert_eq!(rec.indices.len(), rec.values.len());
        assert!(rec.indices.len() <= rec.dim as usize);
    }
}

#[test]
fn order_preservation_row_for_row() {
    let column = DenseColumn {
        dtype: ColumnType::Int64,
        rows: vec![
            None,
            Some(vec![Some(i64_bits(9))]),
            None,
            Some(vec![Some(i64_bits(0))]),
        ],
    };
    let out = encode(&column).unwrap();
    assert_eq!(out.rows.len(), 4);
    assert!(out.rows[0].is_none());
    assert!(out.rows[1].is_some());
    assert!(out.rows[2].is_none());
    assert!(out.rows[3].is_some());
    assert_eq!(out.rows[1].as_ref().unwrap().values, vec![i64_bits(9)]);
    assert_eq!(out.rows[3].as_ref().unwrap().dim, 1);
}

fn two_row_column() -> SparseColumn {
    SparseColumn {
        kind: NumericKind::Int64,
        rows: vec![
            Some(row(3, vec![0, 1], vec![i64_bits(3), i64_bits(4)])),
            Some(row(3, vec![0], vec![i64_bits(6)])),
        ],
    }
}

#[test]
fn grouping_covers_exactly_the_appearing_dimensions() {
    let column = two_row_column();
    assert!(column.check_wf());
    let dims = appearing_dimensions(&column);
    assert_eq!(dims, vec![0, 1]);
    assert_eq!(values_at_dimension(&column, 0), vec![i64_bits(3), i64_bits(6)]);
    assert_eq!(values_at_dimension(&column, 1), vec![i64_bits(4)]);
    assert_eq!(values_at_dimension(&column, 2), Vec::<u64>::new());
    let groups = group_by_dimension(&column);
    assert_eq!(groups.len(), 2);
    assert_eq!(groups[0], (0, vec![i64_bits(3), i64_bits(6)]));
    assert_eq!(groups[1], (1, vec![i64_bits(4)]));
}

#[test]
fn normalization_correctness() {
    // p = 2: dimension 0's norm is sqrt(3^2 + 6^2) = sqrt(45); dimension 1's
    // is sqrt(4^2) = 4. Row 0 becomes [3/sqrt(45), 1.0], row 1 [6/sqrt(45)].
    let column = two_row_column();
    assert!(column.check_wf());
    let groups = group_by_dimension(&column);
    let norms = close_norms(&groups, column.kind, 2.0);
    assert_eq!(f64::from_bits(norms[0].1), 45.0f64.sqrt());
    assert_eq!(f64::from_bits(norms[1].1), 4.0);

    let aligned = norms_for_column(&column, &norms).unwrap();
    let divided = divide_rows(&column, &aligned);
    let out = with_float64_values(&column, &divided).unwrap();

    assert_eq!(out.kind, NumericKind::Float64);
    let r0 = out.rows[0].as_ref().unwrap();
    let r1 = out.rows[1].as_ref().unwrap();
    assert_eq!(r0.dim, 3);
    assert_eq!(r0.indices, vec![0, 1]);
    assert_eq!(f64::from_bits(r0.values[0]), 3.0 / 45.0f64.sqrt());
    assert_eq!(f64::from_bits(r0.values[1]), 1.0);
    assert_eq!(r1.indices, vec![0]);
    assert_eq!(f64::from_bits(r1.values[0]), 6.0 / 45.0f64.sqrt());
}

#[test]
fn p_validation() {
    assert_eq!(check_p(0.5f64.to_bits()), Err(EngineError::InvalidP));
    assert!(check_p(1.0f64.to_bits()).is_ok());
    assert!(check_p(2.0f64.to_bits()).is_ok());
    assert_eq!(check_p((-3.0f64).to_bits()), Err(EngineError::InvalidP));
    assert_eq!(check_p(f64::NAN.to_bits()), Err(EngineError::InvalidP));
    assert!(check_p(f64::INFINITY.to_bits()).is_ok());
    assert!(EngineError::InvalidP.is_configuration());
}

#[test]
fn axis_validation() {
    assert!(check_axis("vertical").is_ok());
    assert_eq!(
        check_axis("horizontal"),
        Err(EngineError::HorizontalNotImplemented)
    );
    assert!(!EngineError::HorizontalNotImplemented.is_configuration());
    let err = check_axis("diagonal").unwrap_err();
    assert_eq!(err, EngineError::UnsupportedAxis("diagonal".to_string()));
    assert!(err.is_configuration());
}

#[test]
fn config_checks_run_in_order() {
    // A bad p wins over a bad axis and a bad type; then the type; then the axis.
    assert_eq!(
        check_config(
            0.5f64.to_bits(),
            "horizontal",
            &ColumnType::Other("str".to_string())
        ),
        Err(EngineError::InvalidP)
    );
    assert_eq!(
        check_config(
            2.0f64.to_bits(),
            "horizontal",
            &ColumnType::Other("bool".to_string())
        ),
        Err(EngineError::UnsupportedType("bool".to_string()))
    );
    assert_eq!(
        check_config(2.0f64.to_bits(), "horizontal", &ColumnType::Int32),
        Err(EngineError::HorizontalNotImplemented)
    );
    assert_eq!(
        check_config(2.0f64.to_bits(), "vertical", &ColumnType::Float32),
        Ok(NumericKind::Float32)
    );
}

#[test]
fn empty_batch_normalizes_to_empty_batch() {
    let column = SparseColumn {
        kind: NumericKind::Float64,
        rows: vec![],
    };
    assert!(column.check_wf());
    let groups = group_by_dimension(&column);
    assert!(groups.is_empty());
    let norms = close_norms(&groups, column.kind, 1.0);
    let aligned = norms_for_column(&column, &norms).unwrap();
    assert!(aligned.is_empty());
    let divided = divide_rows(&column, &aligned);
    let out = with_float64_values(&column, &divided).unwrap();
    assert_eq!(out.kind, NumericKind::Float64);
    assert!(out.rows.is_empty());
}

#[test]
fn renormalizing_is_an_idempotence_boundary() {
    // Renormalizing an already-normalized column re-derives the column-norm
    // table from the post-normalization values. That this is a no-op is NOT
    // promised in general, so this test asserts only what is: the structure
    // (row count, dims, indices, null pattern) passes through unchanged. It
    // deliberately does not compare the renormalized values to the first
    // pass's values.
    let column = two_row_column();
    let groups = group_by_dimension(&column);
    let norms = close_norms(&groups, column.kind, 2.0);
    let aligned = norms_for_column(&column, &norms).unwrap();
    let divided = divide_rows(&column, &aligned);
    let once = with_float64_values(&column, &divided).unwrap();

    assert!(once.check_wf());
    let groups2 = group_by_dimension(&once);
    let norms2 = close_norms(&groups2, once.kind, 2.0);
    let aligned2 = norms_for_column(&once, &norms2).unwrap();
    let divided2 = divide_rows(&once, &aligned2);
    let twice = with_float64_values(&once, &divided2).unwrap();

    assert_eq!(twice.rows.len(), once.rows.len());
    for (a, b) in once.rows.iter().zip(twice.rows.iter()) {
        let (a, b) = (a.as_ref().unwrap(), b.as_ref().unwrap());
        assert_eq!(a.dim, b.dim);
        assert_eq!(a.indices, b.indices);
        assert_eq!(a.values.len(), b.values.len());
    }
}

#[test]
fn missing_dimension_fails_the_lookup_pass() {
    let column = two_row_column();
    // A table that lacks dimension 1 cannot rescale the column.
    let norms = vec![(0u32, 1.0f64.to_bits())];
    assert_eq!(lookup_norm(&norms, 1), None);
    assert!(norms_for_column(&column, &norms).is_none());
}

#[test]
fn mismatched_values_fail_the_assembly_pass() {
    let column = two_row_column();
    // Wrong per-row length.
    let bad = vec![Some(vec![0u64]), Some(vec![0u64])];
    assert!(with_float64_values(&column, &bad).is_none());
    // Wrong null pattern.
    let bad = vec![Some(vec![0u64, 0u64]), None];
    assert!(with_float64_values(&column, &bad).is_none());
    // Wrong row count.
    let bad = vec![Some(vec![0u64, 0u64])];
    assert!(with_float64_values(&column, &bad).is_none());
}

#[test]
fn wf_checkers_reject_broken_records() {
    let good = row(3, vec![0, 2], vec![1, 2]);
    assert!(good.check_wf());
    let dup = row(3, vec![1, 1], vec![1, 2]);
    assert!(!dup.check_wf());
    let out_of_range = row(2, vec![0, 2], vec![1, 2]);
    assert!(!out_of_range.check_wf());
    let mismatched = row(3, vec![0], vec![1, 2]);
    assert!(!mismatched.check_wf());
    let column = SparseColumn {
        kind: NumericKind::Int64,
        rows: vec![Some(row(3, vec![0], vec![1])), None, Some(row(3, vec![1, 1], vec![1, 2]))],
    };
    assert!(!column.check_wf());
}

#[test]
fn is_zero_reads_patterns_by_kind() {
    assert!(is_zero(NumericKind::Int32, i32_bits(0)));
    assert!(!is_zero(NumericKind::Int32, i32_bits(-1)));
    assert!(is_zero(NumericKind::Int64, i64_bits(0)));
    assert!(!is_zero(NumericKind::Int64, i64_bits(i64::MIN)));
    assert!(is_zero(NumericKind::Float32, f32_bits(0.0)));
    assert!(is_zero(NumericKind::Float32, f32_bits(-0.0)));
    assert!(!is_zero(NumericKind::Float32, f32_bits(f32::NAN)));
    assert!(is_zero(NumericKind::Float64, 0.0f64.to_bits()));
    assert!(is_zero(NumericKind::Float64, (-0.0f64).to_bits()));
    assert!(!is_zero(NumericKind::Float64, 5e-324f64.to_bits()));
}
