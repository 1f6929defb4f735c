//! Linear-algebra built-ins: determinant by Leibniz expansion over the
//! permutations that permutohedron generates, transpose, and trace.

use vstd::prelude::*;
use crate::expression::{
    ExprV, Expression, Matrix, expr_v_rows, expr_v_seq, lemma_expr_v_rows_index,
    lemma_expr_v_rows_len, lemma_expr_v_seq_index, lemma_expr_v_seq_len, lemma_wf_v_grid_index,
    lemma_wf_v_seq_index, wf_v, wf_v_grid, wf_v_seq,
};
use crate::functions::{det_fold_from, det_terms, det_tree, differs_by_one_swap, factorial,
    heap_permutations, is_perm_of, perm_product, trace_from, transpose_grid};

verus! {

pub open spec fn perms_view(r: Seq<Vec<usize>>) -> Seq<Seq<nat>> {
    r.map_values(|v: Vec<usize>| v@.map_values(|x: usize| x as nat))
}

/// Relies on permutohedron's `heap_recursive`: called on the identity
/// arrangement of `0 .. n` it hands the closure all `n!` permutations of
/// the slice, each exactly once, the unchanged identity first, each
/// later one differing from its predecessor by a single swap of two
/// positions (Heap's algorithm); the order is a function of `n` alone.
#[verifier::external_body]
fn all_permutations(n: usize) -> (r: Vec<Vec<usize>>)
    ensures
        perms_view(r@) == heap_permutations(n as nat),
        r@.len() >= 1,
        r@.len() == factorial(n as nat),
        forall|k: int| 0 <= k < r@.len() ==> (#[trigger] r@[k])@.len() == n,
        forall|k: int, i: int|
            0 <= k < r@.len() && 0 <= i < r@[k]@.len() ==> (#[trigger] r@[k]@[i]) < n,
        n > 0 ==> forall|i: int| 0 <= i < n ==> #[trigger] r@[0]@[i] == i as usize,
        forall|k: int| 0 <= k < r@.len() ==> is_perm_of(#[trigger] perms_view(r@)[k], n as nat),
        forall|k1: int, k2: int|
            0 <= k1 < k2 < r@.len() ==> #[trigger] perms_view(r@)[k1] != #[trigger] perms_view(
                r@,
            )[k2],
        forall|q: Seq<nat>| #[trigger] is_perm_of(q, n as nat) ==> exists|k: int|
            0 <= k < r@.len() && perms_view(r@)[k] == q,
        forall|k: int| 1 <= k < r@.len() ==> differs_by_one_swap(
            #[trigger] perms_view(r@)[k - 1],
            perms_view(r@)[k],
        ),
{
    let mut indices: Vec<usize> = (0..n).collect();
    let mut out: Vec<Vec<usize>> = Vec::new();
    permutohedron::heap_recursive(indices.as_mut_slice(), |p: &mut [usize]| {
        out.push(p.to_vec());
    });
    out
}

/// The product of the entries the permutation picks, one per row.
fn permutation_product(m: &Matrix, perm: &Vec<usize>) -> (r: Expression)
    requires
        m.entries@.len() == m.nrows,
        m.nrows >= 1,
        forall|j: int| 0 <= j < m.entries@.len() ==> (#[trigger] m.entries@[j])@.len()
            == m.ncols,
        m.nrows == m.ncols,
        wf_v_grid(expr_v_rows(m.entries@)),
        perm@.len() == m.nrows,
        forall|i: int| 0 <= i < perm@.len() ==> (#[trigger] perm@[i]) < m.nrows,
    ensures
        r@ == perm_product(
            expr_v_rows(m.entries@),
            perm@.map_values(|x: usize| x as nat),
            m.nrows as nat,
        ),
        wf_v(r@),
{
    let ghost grid = expr_v_rows(m.entries@);
    let ghost pv = perm@.map_values(|x: usize| x as nat);
    proof {
        lemma_expr_v_rows_len(m.entries@);
        lemma_expr_v_rows_index(m.entries@, 0);
        lemma_expr_v_seq_index(m.entries@[0]@, perm@[0] as int);
        lemma_expr_v_seq_len(m.entries@[0]@);
        lemma_wf_v_grid_index(grid, 0);
        lemma_wf_v_seq_index(grid[0], perm@[0] as int);
    }
    let mut acc = m.entries[0][perm[0]].duplicate();
    let mut i: usize = 1;
    while i < m.nrows
        invariant
            1 <= i <= m.nrows,
            m.entries@.len() == m.nrows,
            m.nrows == m.ncols,
            forall|j: int| 0 <= j < m.entries@.len() ==> (#[trigger] m.entries@[j])@.len()
                == m.ncols,
            wf_v_grid(grid),
            grid == expr_v_rows(m.entries@),
            grid.len() == m.nrows,
            perm@.len() == m.nrows,
            forall|j: int| 0 <= j < perm@.len() ==> (#[trigger] perm@[j]) < m.nrows,
            pv == perm@.map_values(|x: usize| x as nat),
            acc@ == perm_product(grid, pv, i as nat),
            wf_v(acc@),
        decreases m.nrows - i,
    {
        proof {
            lemma_expr_v_rows_index(m.entries@, i as int);
            lemma_expr_v_seq_index(m.entries@[i as int]@, perm@[i as int] as int);
            lemma_expr_v_seq_len(m.entries@[i as int]@);
            lemma_wf_v_grid_index(grid, i as int);
            lemma_wf_v_seq_index(grid[i as int], perm@[i as int] as int);
        }
        let e = m.entries[i][perm[i]].duplicate();
        acc = Expression::Product(Box::new(acc), Box::new(e));
        i = i + 1;
    }
    acc
}

/// Determinant of a non-empty square matrix: the alternating sum of the
/// permutation products, in permutohedron's generation order.
pub fn determinant(m: &Matrix) -> (r: Expression)
    requires
        m.entries@.len() == m.nrows,
        m.nrows >= 1,
        forall|j: int| 0 <= j < m.entries@.len() ==> (#[trigger] m.entries@[j])@.len()
            == m.ncols,
        m.nrows == m.ncols,
        wf_v_grid(expr_v_rows(m.entries@)),
    ensures
        r@ == det_tree(expr_v_rows(m.entries@)),
        wf_v(r@),
{
    let ghost grid = expr_v_rows(m.entries@);
    proof {
        lemma_expr_v_rows_len(m.entries@);
    }
    let perms = all_permutations(m.nrows);
    let ghost permsv = heap_permutations(m.nrows as nat);
    let ghost terms = det_terms(grid, permsv);
    let mut products: Vec<Expression> = Vec::new();
    let mut p: usize = 0;
    while p < perms.len()
        invariant
            0 <= p <= perms@.len(),
            m.entries@.len() == m.nrows,
            m.nrows >= 1,
            m.nrows == m.ncols,
            forall|j: int| 0 <= j < m.entries@.len() ==> (#[trigger] m.entries@[j])@.len()
                == m.ncols,
            wf_v_grid(grid),
            grid == expr_v_rows(m.entries@),
            grid.len() == m.nrows,
            perms_view(perms@) == permsv,
            forall|k: int| 0 <= k < perms@.len() ==> (#[trigger] perms@[k])@.len() == m.nrows,
            forall|k: int, i: int|
                0 <= k < perms@.len() && 0 <= i < perms@[k]@.len() ==> (#[trigger] perms@[k]@[i])
                    < m.nrows,
            terms == det_terms(grid, permsv),
            terms.len() == perms@.len(),
            products@.len() == p,
            forall|k: int| 0 <= k < p ==> (#[trigger] products@[k])@ == terms[k],
            forall|k: int| 0 <= k < p ==> wf_v((#[trigger] products@[k])@),
        decreases perms@.len() - p,
    {
        let t = permutation_product(m, &perms[p]);
        products.push(t);
        p = p + 1;
    }
    let mut acc = products[0].duplicate();
    let mut k: usize = 1;
    while k < products.len()
        invariant
            1 <= k <= products@.len(),
            products@.len() == terms.len(),
            products@.len() >= 1,
            forall|j: int| 0 <= j < products@.len() ==> (#[trigger] products@[j])@ == terms[j],
            forall|j: int| 0 <= j < products@.len() ==> wf_v((#[trigger] products@[j])@),
            wf_v(acc@),
            det_fold_from(terms, k as int, acc@) == det_fold_from(terms, 1, terms[0]),
        decreases products@.len() - k,
    {
        let t = products[k].duplicate();
        if k % 2 == 1 {
            acc = Expression::Difference(Box::new(acc), Box::new(t));
        } else {
            acc = Expression::Sum(Box::new(acc), Box::new(t));
        }
        k = k + 1;
    }
    acc
}

/// Transpose of a matrix.
pub fn transpose(m: &Matrix) -> (r: Expression)
    requires
        m.entries@.len() == m.nrows,
        forall|j: int| 0 <= j < m.entries@.len() ==> (#[trigger] m.entries@[j])@.len()
            == m.ncols,
        wf_v_grid(expr_v_rows(m.entries@)),
    ensures
        r@ == ExprV::Matrix(
            transpose_grid(m.nrows as nat, m.ncols as nat, expr_v_rows(m.entries@)),
        ),
        wf_v(r@),
{
    let ghost grid = expr_v_rows(m.entries@);
    let ghost want = transpose_grid(m.nrows as nat, m.ncols as nat, grid);
    proof {
        lemma_expr_v_rows_len(m.entries@);
    }
    let mut rows: Vec<Vec<Expression>> = Vec::new();
    let mut i: usize = 0;
    while i < m.ncols
        invariant
            0 <= i <= m.ncols,
            m.entries@.len() == m.nrows,
            forall|j: int| 0 <= j < m.entries@.len() ==> (#[trigger] m.entries@[j])@.len()
                == m.ncols,
            wf_v_grid(grid),
            grid == expr_v_rows(m.entries@),
            grid.len() == m.nrows,
            want == transpose_grid(m.nrows as nat, m.ncols as nat, grid),
            rows@.len() == i,
            forall|k: int| 0 <= k < i ==> expr_v_seq((#[trigger] rows@[k])@) == want.grid[k],
            forall|k: int| 0 <= k < i ==> wf_v_seq(expr_v_seq((#[trigger] rows@[k])@)),
        decreases m.ncols - i,
    {
        let mut row: Vec<Expression> = Vec::new();
        let mut j: usize = 0;
        while j < m.nrows
            invariant
                0 <= j <= m.nrows,
                0 <= i < m.ncols,
                m.entries@.len() == m.nrows,
                forall|jj: int| 0 <= jj < m.entries@.len() ==> (
                #[trigger] m.entries@[jj])@.len() == m.ncols,
                wf_v_grid(grid),
                grid == expr_v_rows(m.entries@),
                grid.len() == m.nrows,
                row@.len() == j,
                forall|k: int| 0 <= k < j ==> (#[trigger] row@[k])@ == grid[k][i as int],
                forall|k: int| 0 <= k < j ==> wf_v((#[trigger] row@[k])@),
            decreases m.nrows - j,
        {
            proof {
                lemma_expr_v_rows_index(m.entries@, j as int);
                lemma_expr_v_seq_index(m.entries@[j as int]@, i as int);
                lemma_expr_v_seq_len(m.entries@[j as int]@);
                lemma_wf_v_grid_index(grid, j as int);
                lemma_wf_v_seq_index(grid[j as int], i as int);
            }
            row.push(m.entries[j][i].duplicate());
            j = j + 1;
        }
        proof {
            lemma_expr_v_seq_len(row@);
            assert forall|k: int| 0 <= k < row@.len() implies #[trigger] expr_v_seq(row@)[k]
                == want.grid[i as int][k] by {
                lemma_expr_v_seq_index(row@, k);
            }
            assert(expr_v_seq(row@) =~= want.grid[i as int]);
            crate::expression::lemma_wf_v_seq_iff(expr_v_seq(row@));
            assert forall|k: int| 0 <= k < row@.len() implies wf_v(
                #[trigger] expr_v_seq(row@)[k],
            ) by {
                lemma_expr_v_seq_index(row@, k);
            }
        }
        rows.push(row);
        i = i + 1;
    }
    let t = Matrix { nrows: m.ncols, ncols: m.nrows, entries: rows };
    let result = Expression::Matrix(t);
    proof {
        lemma_expr_v_rows_len(rows@);
        assert forall|k: int| 0 <= k < rows@.len() implies #[trigger] expr_v_rows(rows@)[k]
            == want.grid[k] by {
            lemma_expr_v_rows_index(rows@, k);
        }
        assert(expr_v_rows(rows@) =~= want.grid);
        crate::expression::lemma_wf_v_grid_iff(expr_v_rows(rows@));
        assert forall|k: int| 0 <= k < rows@.len() implies wf_v_seq(
            #[trigger] expr_v_rows(rows@)[k],
        ) by {
            lemma_expr_v_rows_index(rows@, k);
        }
    }
    result
}

/// Trace of a square matrix: the sum of its diagonal, beginning at zero.
pub fn trace(m: &Matrix) -> (r: Expression)
    requires
        m.entries@.len() == m.nrows,
        forall|j: int| 0 <= j < m.entries@.len() ==> (#[trigger] m.entries@[j])@.len()
            == m.ncols,
        m.nrows == m.ncols,
        wf_v_grid(expr_v_rows(m.entries@)),
    ensures
        r@ == trace_from(expr_v_rows(m.entries@), m.entries@.len() as nat),
        wf_v(r@),
{
    let ghost grid = expr_v_rows(m.entries@);
    proof {
        lemma_expr_v_rows_len(m.entries@);
    }
    let mut acc = Expression::Integer(crate::number::big_from_u64(0));
    let mut k: usize = 0;
    while k < m.entries.len()
        invariant
            0 <= k <= m.entries@.len(),
            m.entries@.len() == m.nrows,
            m.nrows == m.ncols,
            forall|j: int| 0 <= j < m.entries@.len() ==> (#[trigger] m.entries@[j])@.len()
                == m.ncols,
            wf_v_grid(grid),
            grid == expr_v_rows(m.entries@),
            grid.len() == m.nrows,
            acc@ == trace_from(grid, k as nat),
            wf_v(acc@),
        decreases m.entries@.len() - k,
    {
        proof {
            lemma_expr_v_rows_index(m.entries@, k as int);
            lemma_expr_v_seq_index(m.entries@[k as int]@, k as int);
            lemma_expr_v_seq_len(m.entries@[k as int]@);
            lemma_wf_v_grid_index(grid, k as int);
            lemma_wf_v_seq_index(grid[k as int], k as int);
        }
        let d = m.entries[k][k].duplicate();
        acc = Expression::Sum(Box::new(acc), Box::new(d));
        k = k + 1;
    }
    acc
}

} // verus!
