//! The column boundary of the graph-embedding collaborator.
//!
//! The walk-and-train algorithm itself is an opaque external capability; this
//! core only reads the edge list out of the host's columns and writes the
//! trained vectors back aligned to the original row order. Node identifiers
//! are opaque tokens here — the logic reads nothing of them but presence and
//! identity — so they travel as plain integer handles; the host keeps the
//! mapping between its names and the handles. Embedding scalars are 32-bit
//! float patterns carried as `u32` bits.

use vstd::prelude::*;

verus! {

/// The model family the collaborator can train.
#[derive(Clone, Copy, Debug, PartialEq, Eq, Structural)]
pub enum ModelKind {
    Cbow,
    SkipGram,
}

/// Which of the two trained matrices a caller wants back.
#[derive(Clone, Copy, Debug, PartialEq, Eq, Structural)]
pub enum EmbeddingSide {
    Central,
    Contextual,
}

/// Parses a model-family name; only `"cbow"` and `"skipgram"` are names of
/// models.
pub fn parse_model_kind(name: &str) -> (out: Option<ModelKind>)
    ensures
        out == Some(ModelKind::Cbow) <==> name@ == "cbow"@,
        out == Some(ModelKind::SkipGram) <==> name@ == "skipgram"@,
        out is None <==> (name@ != "cbow"@ && name@ != "skipgram"@),
{
    proof {
        reveal_strlit("cbow");
        reveal_strlit("skipgram");
        assert("cbow"@.len() == 4);
        assert("skipgram"@.len() == 8);
    }
    let given = name.to_owned();
    if given == "cbow".to_owned() {
        Some(ModelKind::Cbow)
    } else if given == "skipgram".to_owned() {
        Some(ModelKind::SkipGram)
    } else {
        None
    }
}

/// Parses an embedding-side name; only `"central"` and `"contextual"` are
/// names of sides.
pub fn parse_embedding_side(name: &str) -> (out: Option<EmbeddingSide>)
    ensures
        out == Some(EmbeddingSide::Central) <==> name@ == "central"@,
        out == Some(EmbeddingSide::Contextual) <==> name@ == "contextual"@,
        out is None <==> (name@ != "central"@ && name@ != "contextual"@),
{
    proof {
        reveal_strlit("central");
        reveal_strlit("contextual");
        assert("central"@.len() == 7);
        assert("contextual"@.len() == 10);
    }
    let given = name.to_owned();
    if given == "central".to_owned() {
        Some(EmbeddingSide::Central)
    } else if given == "contextual".to_owned() {
        Some(EmbeddingSide::Contextual)
    } else {
        None
    }
}

/// The edges one row contributes: one per non-null neighbor, source first,
/// in neighbor order.
pub open spec fn spec_row_edges(source: u64, neighbors: Seq<Option<u64>>) -> Seq<(u64, u64)>
    decreases neighbors.len(),
{
    if neighbors.len() == 0 {
        Seq::empty()
    } else {
        let prefix = spec_row_edges(source, neighbors.drop_last());
        if neighbors.last() is Some {
            prefix.push((source, neighbors.last()->0))
        } else {
            prefix
        }
    }
}

/// The edge set of the whole input, row by row: a row contributes nothing
/// unless both its source and its neighbor list are present.
pub open spec fn spec_collect_edges(
    sources: Seq<Option<u64>>,
    neighbor_lists: Seq<Option<Vec<Option<u64>>>>,
) -> Seq<(u64, u64)>
    decreases sources.len(),
{
    if sources.len() == 0 {
        Seq::empty()
    } else {
        spec_collect_edges(sources.drop_last(), neighbor_lists.drop_last()) + (if sources.last() is Some
            && neighbor_lists.last() is Some {
            spec_row_edges(sources.last()->0, neighbor_lists.last()->0@)
        } else {
            Seq::empty()
        })
    }
}

/// Reads the edge list out of a source column and a parallel
/// neighbor-list column, skipping null sources, null lists and null
/// neighbors.
pub fn collect_edges(
    sources: &Vec<Option<u64>>,
    neighbor_lists: &Vec<Option<Vec<Option<u64>>>>,
) -> (edges: Vec<(u64, u64)>)
    requires
        sources@.len() == neighbor_lists@.len(),
    ensures
        edges@ == spec_collect_edges(sources@, neighbor_lists@),
{
    let n = sources.len();
    let mut edges: Vec<(u64, u64)> = Vec::new();
    proof {
        assert(sources@.subrange(0, 0) =~= Seq::<Option<u64>>::empty());
        assert(neighbor_lists@.subrange(0, 0) =~= Seq::<Option<Vec<Option<u64>>>>::empty());
    }
    let mut i: usize = 0;
    while i < n
        invariant
            n == sources@.len(),
            n == neighbor_lists@.len(),
            i <= n,
            edges@ == spec_collect_edges(
                sources@.subrange(0, i as int),
                neighbor_lists@.subrange(0, i as int),
            ),
        decreases n - i,
    {
        match (&sources[i], &neighbor_lists[i]) {
            (Some(source), Some(neighbors)) => {
                let m = neighbors.len();
                proof {
                    assert(neighbors@.subrange(0, 0) =~= Seq::<Option<u64>>::empty());
                    assert(edges@ + Seq::<(u64, u64)>::empty() =~= edges@);
                }
                let mut j: usize = 0;
                while j < m
                    invariant
                        m == neighbors@.len(),
                        j <= m,
                        edges@ == spec_collect_edges(
                            sources@.subrange(0, i as int),
                            neighbor_lists@.subrange(0, i as int),
                        ) + spec_row_edges(*source, neighbors@.subrange(0, j as int)),
                    decreases m - j,
                {
                    match &neighbors[j] {
                        Some(neighbor) => {
                            edges.push((*source, *neighbor));
                        },
                        None => {},
                    }
                    proof {
                        assert(neighbors@.subrange(0, (j + 1) as int).drop_last()
                            =~= neighbors@.subrange(0, j as int));
                    }
                    j += 1;
                }
                proof {
                    assert(neighbors@.subrange(0, m as int) =~= neighbors@);
                    assert(sources@.subrange(0, (i + 1) as int).drop_last() =~= sources@.subrange(
                        0,
                        i as int,
                    ));
                    assert(neighbor_lists@.subrange(0, (i + 1) as int).drop_last()
                        =~= neighbor_lists@.subrange(0, i as int));
                    assert(sources@.subrange(0, (i + 1) as int).last() == sources@[i as int]);
                    assert(neighbor_lists@.subrange(0, (i + 1) as int).last()
                        == neighbor_lists@[i as int]);
                }
            },
            _ => {
                proof {
                    assert(sources@.subrange(0, (i + 1) as int).drop_last() =~= sources@.subrange(
                        0,
                        i as int,
                    ));
                    assert(neighbor_lists@.subrange(0, (i + 1) as int).drop_last()
                        =~= neighbor_lists@.subrange(0, i as int));
                    assert(sources@.subrange(0, (i + 1) as int).last() == sources@[i as int]);
                    assert(neighbor_lists@.subrange(0, (i + 1) as int).last()
                        == neighbor_lists@[i as int]);
                    assert(edges@ + Seq::<(u64, u64)>::empty() =~= edges@);
                }
            },
        }
        i += 1;
    }
    proof {
        assert(sources@.subrange(0, n as int) =~= sources@);
        assert(neighbor_lists@.subrange(0, n as int) =~= neighbor_lists@);
    }
    edges
}

/// The weighted edges one row contributes: neighbors and weights are read in
/// parallel up to the shorter of the two, and a pair contributes only when
/// both are present. Weights are 64-bit float patterns carried as bits.
pub open spec fn spec_row_weighted_edges(
    source: u64,
    neighbors: Seq<Option<u64>>,
    weights: Seq<Option<u64>>,
) -> Seq<(u64, u64, u64)>
    decreases neighbors.len() + weights.len(),
{
    if neighbors.len() == 0 || weights.len() == 0 {
        Seq::empty()
    } else if neighbors.len() > weights.len() {
        spec_row_weighted_edges(source, neighbors.drop_last(), weights)
    } else if weights.len() > neighbors.len() {
        spec_row_weighted_edges(source, neighbors, weights.drop_last())
    } else {
        let prefix = spec_row_weighted_edges(source, neighbors.drop_last(), weights.drop_last());
        if neighbors.last() is Some && weights.last() is Some {
            prefix.push((source, neighbors.last()->0, weights.last()->0))
        } else {
            prefix
        }
    }
}

/// Reads the weighted edges of one row, skipping pairs where the neighbor or
/// its weight is null.
pub fn collect_row_weighted_edges(
    source: u64,
    neighbors: &Vec<Option<u64>>,
    weights: &Vec<Option<u64>>,
) -> (edges: Vec<(u64, u64, u64)>)
    ensures
        edges@ == spec_row_weighted_edges(source, neighbors@, weights@),
{
    let m = if neighbors.len() < weights.len() {
        neighbors.len()
    } else {
        weights.len()
    };
    proof {
        lemma_row_weighted_edges_truncate(source, neighbors@, weights@, m as int);
        assert(neighbors@.subrange(0, 0) =~= Seq::<Option<u64>>::empty());
        assert(weights@.subrange(0, 0) =~= Seq::<Option<u64>>::empty());
    }
    let mut edges: Vec<(u64, u64, u64)> = Vec::new();
    let mut j: usize = 0;
    while j < m
        invariant
            m <= neighbors@.len(),
            m <= weights@.len(),
            j <= m,
            edges@ == spec_row_weighted_edges(
                source,
                neighbors@.subrange(0, j as int),
                weights@.subrange(0, j as int),
            ),
            spec_row_weighted_edges(source, neighbors@, weights@) == spec_row_weighted_edges(
                source,
                neighbors@.subrange(0, m as int),
                weights@.subrange(0, m as int),
            ),
        decreases m - j,
    {
        match (&neighbors[j], &weights[j]) {
            (Some(neighbor), Some(weight)) => {
                edges.push((source, *neighbor, *weight));
            },
            _ => {},
        }
        proof {
            assert(neighbors@.subrange(0, (j + 1) as int).drop_last() =~= neighbors@.subrange(
                0,
                j as int,
            ));
            assert(weights@.subrange(0, (j + 1) as int).drop_last() =~= weights@.subrange(
                0,
                j as int,
            ));
        }
        j += 1;
    }
    edges
}

/// Reading a weighted row stops at the shorter of the two lists: the pairs
/// beyond the common length contribute nothing.
proof fn lemma_row_weighted_edges_truncate(
    source: u64,
    neighbors: Seq<Option<u64>>,
    weights: Seq<Option<u64>>,
    m: int,
)
    requires
        m == if neighbors.len() <= weights.len() {
            neighbors.len() as int
        } else {
            weights.len() as int
        },
    ensures
        spec_row_weighted_edges(source, neighbors, weights) == spec_row_weighted_edges(
            source,
            neighbors.subrange(0, m),
            weights.subrange(0, m),
        ),
    decreases neighbors.len() + weights.len(),
{
    if neighbors.len() == 0 || weights.len() == 0 {
        assert(spec_row_weighted_edges(source, neighbors.subrange(0, m), weights.subrange(0, m))
            =~= Seq::<(u64, u64, u64)>::empty());
    } else if neighbors.len() > weights.len() {
        lemma_row_weighted_edges_truncate(source, neighbors.drop_last(), weights, m);
        assert(neighbors.drop_last().subrange(0, m) =~= neighbors.subrange(0, m));
    } else if weights.len() > neighbors.len() {
        lemma_row_weighted_edges_truncate(source, neighbors, weights.drop_last(), m);
        assert(weights.drop_last().subrange(0, m) =~= weights.subrange(0, m));
    } else {
        assert(neighbors.subrange(0, m) =~= neighbors);
        assert(weights.subrange(0, m) =~= weights);
    }
}

/// Writes the trained matrix back in row order: row `i` of the output is the
/// `width`-wide slice of the flat matrix that belongs to row `i`'s node, or
/// null where the source row was null. Returns `None` exactly when some
/// handle's slice would run past the end of the matrix.
pub fn gather_embedding_rows(
    node_handles: &Vec<Option<u32>>,
    matrix: &Vec<u32>,
    width: u32,
) -> (out: Option<Vec<Option<Vec<u32>>>>)
    ensures
        out is Some <==> (forall|i: int|
            0 <= i < node_handles@.len() && node_handles@[i] is Some
                ==> ((#[trigger] node_handles@[i])->0 + 1) * width <= matrix@.len()),
        out matches Some(rows) ==> {
            &&& rows@.len() == node_handles@.len()
            &&& forall|i: int|
                0 <= i < rows@.len() ==> ((#[trigger] rows@[i]) is Some <==> node_handles@[i] is Some)
            &&& forall|i: int|
                0 <= i < rows@.len() && node_handles@[i] is Some
                    ==> (#[trigger] rows@[i])->0@ == matrix@.subrange(
                    node_handles@[i]->0 * width,
                    (node_handles@[i]->0 + 1) * width,
                )
        },
{
    let n = node_handles.len();
    let mut rows: Vec<Option<Vec<u32>>> = Vec::new();
    let mut i: usize = 0;
    while i < n
        invariant
            n == node_handles@.len(),
            i <= n,
            rows@.len() == i,
            forall|a: int|
                0 <= a < i ==> ((#[trigger] rows@[a]) is Some <==> node_handles@[a] is Some),
            forall|a: int|
                0 <= a < i && node_handles@[a] is Some
                    ==> ((#[trigger] node_handles@[a])->0 + 1) * width <= matrix@.len(),
            forall|a: int|
                0 <= a < i && node_handles@[a] is Some ==> (#[trigger] rows@[a])->0@
                    == matrix@.subrange(
                    node_handles@[a]->0 * width,
                    (node_handles@[a]->0 + 1) * width,
                ),
        decreases n - i,
    {
        match &node_handles[i] {
            Some(handle) => {
                proof {
                    assert((*handle as u64) * (width as u64) <= 0xFFFF_FFFFu64
                        * 0xFFFF_FFFFu64) by (nonlinear_arith)
                        requires
                            *handle as u64 <= 0xFFFF_FFFFu64,
                            width as u64 <= 0xFFFF_FFFFu64,
                    ;
                    assert((*handle as u64 + 1) * (width as u64) <= 0x1_0000_0000u64
                        * 0xFFFF_FFFFu64) by (nonlinear_arith)
                        requires
                            *handle as u64 + 1 <= 0x1_0000_0000u64,
                            width as u64 <= 0xFFFF_FFFFu64,
                    ;
                    assert((*handle as u64 + 1) * (width as u64) == (*handle as u64) * (width
                        as u64) + (width as u64)) by (nonlinear_arith);
                }
                let start: u64 = (*handle as u64) * (width as u64);
                let stop: u64 = (*handle as u64 + 1) * (width as u64);
                if !(stop <= matrix.len() as u64) {
                    proof {
                        assert((node_handles@[i as int]->0 + 1) * width > matrix@.len());
                    }
                    return None;
                }
                let mut slice: Vec<u32> = Vec::new();
                let mut q: u64 = 0;
                while q < width as u64
                    invariant
                        start == node_handles@[i as int]->0 * width,
                        stop == (node_handles@[i as int]->0 + 1) * width,
                        stop <= matrix@.len(),
                        matrix@.len() <= usize::MAX,
                        stop == start + width,
                        q <= width,
                        slice@.len() == q,
                        forall|b: int| 0 <= b < q ==> slice@[b] == matrix@[start + b],
                    decreases width - q,
                {
                    proof {
                        assert(start + q < matrix@.len());
                        assert(((start + q) as usize) as int == (start + q) as int);
                    }
                    slice.push(matrix[(start + q) as usize]);
                    q += 1;
                }
                proof {
                    assert(slice@ =~= matrix@.subrange(start as int, stop as int));
                }
                rows.push(Some(slice));
            },
            None => {
                rows.push(None);
            },
        }
        i += 1;
    }
    Some(rows)
}

} // verus!
