//! Square integer matrices of side 1 to 3, stored row by row in a slice, and
//! their inverse modulo `m`.
//!
//! The functions that need a square matrix accept the lengths `1`, `4` and
//! `9` (see [`matrix_validation`]) and answer `[-1]` otherwise.
use vstd::prelude::*;
use crate::arith::{in_i32, lemma_rem_t_bounds, rem_defined, rem_i32, rem_t};
use crate::euclid::{gcd_t, lemma_bezout, lemma_gcd_divides, ordered, xgcd_ok, xgcd_rec, xgcd_spec};
use crate::hill::{lemma_module_positive, module_t};

verus! {

// ---------------------------------------------------------------------------
// Shapes and indexing
// ---------------------------------------------------------------------------

/// The lengths of square matrices of side 1 to 3.
pub open spec fn valid_len(len: int) -> bool {
    len == 1 || len == 4 || len == 9
}

/// The side of a square matrix of length `len`.
pub open spec fn side(len: int) -> int {
    if len == 9 { 3 } else if len == 4 { 2 } else if len == 1 { 1 } else { 0 }
}

/// Whether a slice of `size` values is a square matrix of side 1 to 3.
pub fn matrix_validation(size: usize) -> (valid: bool)
    ensures
        valid == valid_len(size as int),
        valid == exists|k: int| 1 <= k <= 3 && #[trigger] (k * k) == size,
{
    let valid = size == 1 || size == 4 || size == 9;
    proof {
        if valid {
            let k = side(size as int);
            assert(k * k == size);
        } else {
            assert forall|k: int| 1 <= k <= 3 implies #[trigger] (k * k) != size by {
                assert(k == 1 || k == 2 || k == 3);
            }
        }
    }
    valid
}

fn matrix_side(size: usize) -> (n: usize)
    requires
        valid_len(size as int),
    ensures
        n == side(size as int),
        n * n == size,
        n <= 3,
{
    if size == 9 { 3 } else if size == 4 { 2 } else { 1 }
}

/// `((a % n) + n) % n` with `n` read as an `i32`, returned as a `u32`.
pub open spec fn module_u(a: int, n: u32) -> u32 {
    module_t(a, (n as i32) as int) as u32
}

/// The inputs on which [`module`] evaluates without a panic.
pub open spec fn module_u_ok(a: i32, n: u32) -> bool {
    rem_defined(a, n as i32) && in_i32(rem_t(a as int, (n as i32) as int) + (n as i32) as int)
}

/// Always-non-negative remainder for a modulus up to `i32::MAX`:
/// `((a % n) + n) % n` computed on `i32`.
fn module(a: i32, n: u32) -> (r: u32)
    requires
        module_u_ok(a, n),
    ensures
        r == module_u(a as int, n),
        0 < n <= i32::MAX ==> r < n && r as int == (a as int) % (n as int),
{
    let ni = n as i32;
    proof {
        lemma_rem_t_bounds(a as int, ni as int);
        if 0 < n <= i32::MAX {
            lemma_module_positive(a as int, n as int);
        }
    }
    let r1 = rem_i32(a, ni);
    let s = r1 + ni;
    let r2 = rem_i32(s, ni);
    r2 as u32
}

/// Element `(row, column)` of a square matrix of side `size`, the indices
/// taken modulo `size`.
fn find_in_matrix(matrix: &[i32], size: u32, row: i32, column: i32) -> (x: i32)
    requires
        0 < size <= i32::MAX,
        module_u_ok(row, size),
        module_u_ok(column, size),
        size * size <= matrix.len(),
        size * size <= u32::MAX + 1,
    ensures
        x == matrix@[((row as int) % (size as int)) * size + (column as int) % (size as int)],
{
    let r = module(row, size);
    let c = module(column, size);
    proof {
        assert((r as int) * (size as int) + (c as int) < size * size) by (nonlinear_arith)
            requires r < size, c < size;
        assert(size * r + c <= u32::MAX) by (nonlinear_arith)
            requires r < size, c < size, size * size <= u32::MAX + 1;
    }
    matrix[(size * r + c) as usize]
}

// ---------------------------------------------------------------------------
// Determinant
// ---------------------------------------------------------------------------

/// Determinant of a 2 × 2 matrix.
pub open spec fn det2(m: Seq<i32>) -> int {
    m[0] * m[3] - m[1] * m[2]
}

/// Determinant of a 3 × 3 matrix (Leibniz formula).
pub open spec fn det3(m: Seq<i32>) -> int {
    m[0] * m[4] * m[8] + m[1] * m[5] * m[6] + m[2] * m[3] * m[7] - m[2] * m[4] * m[6] - m[0] * m[5]
        * m[7] - m[1] * m[3] * m[8]
}

/// Determinant of a square matrix of side 0 to 3; the empty matrix (side 0)
/// has determinant `1`, as the minor of a 1 × 1 matrix.
pub open spec fn det_value(m: Seq<i32>) -> int {
    if m.len() == 0 {
        1
    } else if m.len() == 1 {
        m[0] as int
    } else if m.len() == 4 {
        det2(m)
    } else if m.len() == 9 {
        det3(m)
    } else {
        0
    }
}

/// What [`matrix_determinant`] returns: the determinant, or `-1` when the
/// slice is not a square matrix of side 1 to 3.
pub open spec fn determinant_result(m: Seq<i32>) -> int {
    if valid_len(m.len() as int) { det_value(m) } else { -1 }
}

/// The first `k` factors of the `i`-th descending diagonal of Sarrus' rule.
pub open spec fn sarrus_pos(m: Seq<i32>, i: int, k: int) -> int
    decreases k,
{
    if k <= 0 { 1 } else { sarrus_pos(m, i, k - 1) * m[3 * (k - 1) + (i + k - 1) % 3] }
}

/// The first `k` factors of the `i`-th ascending diagonal of Sarrus' rule.
pub open spec fn sarrus_neg(m: Seq<i32>, i: int, k: int) -> int
    decreases k,
{
    if k <= 0 { 1 } else { sarrus_neg(m, i, k - 1) * m[3 * (k - 1) + (i - (k - 1)) % 3] }
}

/// Sarrus' sum after `i` pairs of diagonals.
pub open spec fn sarrus_acc(m: Seq<i32>, i: int) -> int
    decreases i,
{
    if i <= 0 { 0 } else { sarrus_acc(m, i - 1) + sarrus_pos(m, i - 1, 3) - sarrus_neg(m, i - 1, 3) }
}

/// Pair `i` of Sarrus' rule stays in `i32`: every partial product and sum.
pub open spec fn sarrus_step_ok(m: Seq<i32>, i: int) -> bool {
    &&& in_i32(sarrus_pos(m, i, 1)) && in_i32(sarrus_pos(m, i, 2)) && in_i32(sarrus_pos(m, i, 3))
    &&& in_i32(sarrus_neg(m, i, 1)) && in_i32(sarrus_neg(m, i, 2)) && in_i32(sarrus_neg(m, i, 3))
    &&& in_i32(sarrus_acc(m, i) + sarrus_pos(m, i, 3))
    &&& in_i32(sarrus_acc(m, i + 1))
}

/// The inputs on which [`matrix_determinant`] evaluates on `i32` without a panic.
pub open spec fn determinant_ok(m: Seq<i32>) -> bool {
    &&& m.len() == 4 ==> in_i32(m[0] * m[3]) && in_i32(m[1] * m[2]) && in_i32(det2(m))
    &&& m.len() == 9 ==> sarrus_step_ok(m, 0) && sarrus_step_ok(m, 1) && sarrus_step_ok(m, 2)
}

proof fn lemma_sarrus(m: Seq<i32>)
    requires
        m.len() == 9,
    ensures
        sarrus_acc(m, 3) == det3(m),
{
    reveal_with_fuel(sarrus_pos, 4);
    reveal_with_fuel(sarrus_neg, 4);
    reveal_with_fuel(sarrus_acc, 4);
    assert(sarrus_pos(m, 0, 3) == m[0] * m[4] * m[8]);
    assert(sarrus_pos(m, 1, 3) == m[1] * m[5] * m[6]);
    assert(sarrus_pos(m, 2, 3) == m[2] * m[3] * m[7]);
    assert(sarrus_neg(m, 0, 3) == m[0] * m[5] * m[7]);
    assert(sarrus_neg(m, 1, 3) == m[1] * m[3] * m[8]);
    assert(sarrus_neg(m, 2, 3) == m[2] * m[4] * m[6]);
}

/// Determinant of a square matrix of side 1 to 3 (Sarrus' rule for side 3);
/// `-1` for a slice that is not such a matrix.
pub fn matrix_determinant(matrix: &[i32]) -> (det: i32)
    requires
        determinant_ok(matrix@),
    ensures
        det == determinant_result(matrix@),
{
    let len = matrix.len();
    if !matrix_validation(len) {
        return -1;
    }
    let size = matrix_side(len);
    if size == 1 {
        return matrix[0];
    }
    if size == 2 {
        return matrix[0] * matrix[3] - matrix[1] * matrix[2];
    }
    let s = size as i32;
    let mut det: i32 = 0;
    let mut i: i32 = 0;
    while i < s
        invariant
            size <= 3,
            s == size as i32,
            s == 0 || s == 3,
            len == matrix.len(),
            s == 3 ==> len == 9,
            s == 0 ==> len == 0,
            determinant_ok(matrix@),
            0 <= i <= s,
            det == sarrus_acc(matrix@, i as int),
        decreases s - i,
    {
        proof {
            assert(sarrus_step_ok(matrix@, i as int));
        }
        let mut pos: i32 = 1;
        let mut j: i32 = 0;
        while j < s
            invariant
                s == 3,
                size == 3,
                len == 9 == matrix.len(),
                0 <= i < 3,
                0 <= j <= 3,
                sarrus_step_ok(matrix@, i as int),
                pos == sarrus_pos(matrix@, i as int, j as int),
            decreases s - j,
        {
            let col = rem_i32(i + j, s);
            let x = find_in_matrix(matrix, size as u32, j, col);
            proof {
                assert(x == matrix@[3 * j + (i + j) % 3]);
                assert(j + 1 == 1 || j + 1 == 2 || j + 1 == 3);
            }
            pos = pos * x;
            j = j + 1;
        }
        det = det + pos;
        let mut neg: i32 = 1;
        let mut j: i32 = 0;
        while j < s
            invariant
                s == 3,
                size == 3,
                len == 9 == matrix.len(),
                0 <= i < 3,
                0 <= j <= 3,
                sarrus_step_ok(matrix@, i as int),
                neg == sarrus_neg(matrix@, i as int, j as int),
            decreases s - j,
        {
            let col = match (i - j).checked_rem_euclid(s) {
                Some(c) => c,
                None => 0,
            };
            let x = find_in_matrix(matrix, size as u32, j, col);
            proof {
                assert(0 <= col < 3);
                assert(x == matrix@[3 * j + (i - j) % 3]);
                assert(j + 1 == 1 || j + 1 == 2 || j + 1 == 3);
            }
            neg = neg * x;
            j = j + 1;
        }
        det = det - neg;
        i = i + 1;
    }
    proof {
        if s == 3 {
            lemma_sarrus(matrix@);
        }
    }
    det
}


// ---------------------------------------------------------------------------
// Transpose, minors, adjugate
// ---------------------------------------------------------------------------

proof fn lemma_row_major(row: int, col: int, n: int)
    requires
        0 <= row < n,
        0 <= col < n,
    ensures
        0 <= row * n + col < n * n,
        (row * n + col) / n == row,
        (row * n + col) % n == col,
        row * n + col + 1 <= n * n,
{
    assert(0 <= row * n + col < n * n) by (nonlinear_arith)
        requires 0 <= row < n, 0 <= col < n;
    assert(row * n + col + 1 <= n * n) by (nonlinear_arith)
        requires 0 <= row < n, 0 <= col < n;
    vstd::arithmetic::div_mod::lemma_div_multiples_vanish_fancy(row, col, n);
    vstd::arithmetic::div_mod::lemma_mod_multiples_vanish(row, col, n);
    vstd::arithmetic::div_mod::lemma_small_mod(col as nat, n as nat);
    assert(n * row == row * n) by (nonlinear_arith);
}

/// The transpose of a square matrix of side `n`.
pub open spec fn transpose_spec(m: Seq<i32>, n: int) -> Seq<i32> {
    Seq::new((n * n) as nat, |k: int| m[(k % n) * n + k / n])
}

/// What [`matrix_transposed`] returns.
pub open spec fn transposed_result(m: Seq<i32>) -> Seq<i32> {
    if valid_len(m.len() as int) { transpose_spec(m, side(m.len() as int)) } else { seq![-1i32] }
}

/// The transpose of a square matrix of side 1 to 3; `[-1]` for a slice that
/// is not such a matrix.
pub fn matrix_transposed(matrix: &[i32]) -> (t: Vec<i32>)
    ensures
        t@ == transposed_result(matrix@),
{
    let size = matrix.len();
    if !matrix_validation(size) {
        return vec![-1];
    }
    let n = matrix_side(size);
    let s = n as i32;
    let mut result: Vec<i32> = Vec::new();
    let mut i: i32 = 0;
    while i < s
        invariant
            n == side(size as int),
            size == matrix.len(),
            n * n == size,
            n <= 3,
            s == n as i32,
            0 <= i <= s,
            result@ == transpose_spec(matrix@, n as int).take(i * n),
        decreases s - i,
    {
        let mut j: i32 = 0;
        while j < s
            invariant
                n == side(size as int),
                size == matrix.len(),
                n * n == size,
                n <= 3,
                s == n as i32,
                0 <= i < s,
                0 <= j <= s,
                result@ == transpose_spec(matrix@, n as int).take(i * n + j),
            decreases s - j,
        {
            let x = find_in_matrix(matrix, n as u32, j, i);
            proof {
                lemma_row_major(i as int, j as int, n as int);
                lemma_row_major(j as int, i as int, n as int);
                vstd::arithmetic::div_mod::lemma_small_mod(i as nat, n as nat);
                vstd::arithmetic::div_mod::lemma_small_mod(j as nat, n as nat);
                assert(x == transpose_spec(matrix@, n as int)[i * n + j]);
            }
            result.push(x);
            proof {
                assert(result@ =~= transpose_spec(matrix@, n as int).take(i * n + j + 1));
            }
            j = j + 1;
        }
        proof {
            assert(i * n + n == (i + 1) * n) by (nonlinear_arith);
        }
        i = i + 1;
    }
    proof {
        assert(result@ =~= transpose_spec(matrix@, n as int));
    }
    result
}

/// The first `j` elements of row `i` without column `c`.
pub open spec fn row_part(m: Seq<i32>, n: int, i: int, c: int, j: int) -> Seq<i32>
    decreases j,
{
    if j <= 0 {
        Seq::empty()
    } else {
        row_part(m, n, i, c, j - 1) + if j - 1 == c { Seq::empty() } else { seq![m[i * n + j - 1]] }
    }
}

/// The first `i` rows without row `r`, each without column `c`.
pub open spec fn minor_rows(m: Seq<i32>, n: int, r: int, c: int, i: int) -> Seq<i32>
    decreases i,
{
    if i <= 0 {
        Seq::empty()
    } else {
        minor_rows(m, n, r, c, i - 1) + if i - 1 == r { Seq::empty() } else { row_part(m, n, i - 1, c, n) }
    }
}

/// The matrix without row `r` and column `c` (an index outside `0..n` removes
/// nothing), row by row.
pub open spec fn minor_spec(m: Seq<i32>, n: int, r: int, c: int) -> Seq<i32> {
    minor_rows(m, n, r, c, n)
}

/// What [`matrix_cofactor`] returns.
pub open spec fn cofactor_result(m: Seq<i32>, r: int, c: int) -> Seq<i32> {
    if !valid_len(m.len() as int) || r >= side(m.len() as int) || c >= side(m.len() as int) {
        seq![-1i32]
    } else {
        minor_spec(m, side(m.len() as int), r, c)
    }
}

proof fn lemma_row_part_len(m: Seq<i32>, n: int, i: int, c: int, j: int)
    requires
        0 <= j,
    ensures
        row_part(m, n, i, c, j).len() == if 0 <= c < j { j - 1 } else { j },
    decreases j,
{
    if j > 0 {
        lemma_row_part_len(m, n, i, c, j - 1);
    }
}

proof fn lemma_minor_rows_len(m: Seq<i32>, n: int, r: int, c: int, i: int)
    requires
        0 <= i,
        0 <= c < n,
    ensures
        minor_rows(m, n, r, c, i).len() == (if 0 <= r < i { i - 1 } else { i }) * (n - 1),
    decreases i,
{
    if i > 0 {
        lemma_minor_rows_len(m, n, r, c, i - 1);
        lemma_row_part_len(m, n, i - 1, c, n);
        let w = n - 1;
        let len_prev = minor_rows(m, n, r, c, i - 1).len();
        if r == i - 1 {
            assert(minor_rows(m, n, r, c, i) =~= minor_rows(m, n, r, c, i - 1));
            assert(len_prev == (i - 1) * w);
        } else if 0 <= r < i - 1 {
            assert(len_prev == (i - 2) * w);
            assert((i - 2) * w + w == (i - 1) * w) by (nonlinear_arith);
            assert(minor_rows(m, n, r, c, i).len() == len_prev + w);
        } else {
            assert(len_prev == (i - 1) * w);
            assert((i - 1) * w + w == i * w) by (nonlinear_arith);
            assert(minor_rows(m, n, r, c, i).len() == len_prev + w);
        }
    } else {
        assert(0 * (n - 1) == 0);
    }
}

/// Without row `r` and column `c` of a side-`n` matrix, `(n - 1)²` values remain.
proof fn lemma_minor_len(m: Seq<i32>, n: int, r: int, c: int)
    requires
        0 <= r < n,
        0 <= c < n,
    ensures
        minor_spec(m, n, r, c).len() == (n - 1) * (n - 1),
{
    lemma_minor_rows_len(m, n, r, c, n);
}

/// The minor of a square matrix of side 1 to 3: the matrix without row
/// `i_coef` and column `j_coef`. Returns `[-1]` for a slice that is not such a
/// matrix and for an index at or past the side; a negative index removes
/// nothing.
pub fn matrix_cofactor(matrix: &[i32], i_coef: i32, j_coef: i32) -> (minor: Vec<i32>)
    ensures
        minor@ == cofactor_result(matrix@, i_coef as int, j_coef as int),
{
    let size = matrix.len();
    if !matrix_validation(size) {
        return vec![-1];
    }
    let nu = matrix_side(size);
    let n = nu as i32;
    let un = nu as u32;
    if i_coef >= n || j_coef >= n {
        return vec![-1];
    }
    let ghost mm = matrix@;
    let mut result: Vec<i32> = Vec::new();
    let mut i: i32 = 0;
    while i < n
        invariant
            nu == side(size as int),
            size == matrix.len(),
            mm == matrix@,
            nu * nu == size,
            1 <= nu <= 3,
            n == nu as i32,
            un == nu as u32,
            0 <= i <= n,
            result@ == minor_rows(mm, n as int, i_coef as int, j_coef as int, i as int),
        decreases n - i,
    {
        if i == i_coef {
            i = i + 1;
            continue;
        }
        let ghost before = result@;
        let mut j: i32 = 0;
        while j < n
            invariant
                nu == side(size as int),
                size == matrix.len(),
                mm == matrix@,
                nu * nu == size,
                1 <= nu <= 3,
                n == nu as i32,
                un == nu as u32,
                0 <= i < n,
                i != i_coef,
                0 <= j <= n,
                before == minor_rows(mm, n as int, i_coef as int, j_coef as int, i as int),
                result@ == before + row_part(mm, n as int, i as int, j_coef as int, j as int),
            decreases n - j,
        {
            if j == j_coef {
                j = j + 1;
                proof {
                    assert(result@ =~= before + row_part(mm, n as int, i as int, j_coef as int, j as int));
                }
                continue;
            }
            let x = find_in_matrix(matrix, un, i, j);
            proof {
                lemma_row_major(i as int, j as int, n as int);
                vstd::arithmetic::div_mod::lemma_small_mod(i as nat, n as nat);
                vstd::arithmetic::div_mod::lemma_small_mod(j as nat, n as nat);
            }
            result.push(x);
            proof {
                assert(result@ =~= before + row_part(mm, n as int, i as int, j_coef as int, j + 1));
            }
            j = j + 1;
        }
        proof {
            assert(result@ =~= minor_rows(mm, n as int, i_coef as int, j_coef as int, i + 1));
        }
        i = i + 1;
    }
    result
}

/// Entry `(col, row)` of the adjugate: the signed determinant of the minor
/// without row `row` and column `col`.
pub open spec fn adj_entry(m: Seq<i32>, n: int, row: int, col: int) -> int {
    (if (row + col) % 2 == 0 { 1int } else { -1int }) * det_value(minor_spec(m, n, row, col))
}

/// The adjugate (transposed cofactor matrix) of a square matrix of side `n`.
pub open spec fn adjugate_spec(m: Seq<i32>, n: int) -> Seq<i32> {
    Seq::new((n * n) as nat, |k: int| adj_entry(m, n, k % n, k / n) as i32)
}

/// What [`matrix_adjugate`] returns.
pub open spec fn adjugate_result(m: Seq<i32>) -> Seq<i32> {
    if valid_len(m.len() as int) { adjugate_spec(m, side(m.len() as int)) } else { seq![-1i32] }
}

/// Entry `(col, row)` of the adjugate evaluates on `i32` without a panic.
pub open spec fn adj_entry_ok(m: Seq<i32>, n: int, row: int, col: int) -> bool {
    determinant_ok(minor_spec(m, n, row, col)) && in_i32(adj_entry(m, n, row, col))
}

/// The inputs on which [`matrix_adjugate`] evaluates on `i32` without a panic.
pub open spec fn adjugate_ok(m: Seq<i32>) -> bool {
    let n = side(m.len() as int);
    valid_len(m.len() as int) ==> forall|row: int, col: int|
        0 <= row < n && 0 <= col < n ==> #[trigger] adj_entry_ok(m, n, row, col)
}

/// Determinant of a minor: of the empty minor of a 1 × 1 matrix it is `1`.
fn minor_determinant(minor: &[i32]) -> (det: i32)
    requires
        minor.len() == 0 || valid_len(minor.len() as int),
        determinant_ok(minor@),
    ensures
        det == det_value(minor@),
{
    if minor.len() == 0 {
        1
    } else {
        matrix_determinant(minor)
    }
}

/// The adjugate of a square matrix of side 1 to 3: entry `(col, row)` is
/// `(-1)^(row + col)` times the determinant of the minor without row `row` and
/// column `col`. Returns `[-1]` for a slice that is not such a matrix.
pub fn matrix_adjugate(matrix: &[i32]) -> (adj: Vec<i32>)
    requires
        adjugate_ok(matrix@),
    ensures
        adj@ == adjugate_result(matrix@),
{
    let size = matrix.len();
    if !matrix_validation(size) {
        return vec![-1];
    }
    let nu = matrix_side(size);
    let n = nu as i32;
    let ghost mm = matrix@;
    let ghost nn = n as int;
    let mut result: Vec<i32> = Vec::new();
    let mut col: i32 = 0;
    while col < n
        invariant
            nu == side(size as int),
            size == matrix.len(),
            mm == matrix@,
            nu * nu == size,
            nu <= 3,
            n == nu as i32,
            nn == n,
            adjugate_ok(mm),
            0 <= col <= n,
            result@ == adjugate_spec(mm, nn).take(col * nn),
        decreases n - col,
    {
        let mut row: i32 = 0;
        while row < n
            invariant
                nu == side(size as int),
                size == matrix.len(),
                mm == matrix@,
                nu * nu == size,
                nu <= 3,
                n == nu as i32,
                nn == n,
                adjugate_ok(mm),
                0 <= col < n,
                0 <= row <= n,
                result@ == adjugate_spec(mm, nn).take(col * nn + row),
            decreases n - row,
        {
            proof {
                assert(adj_entry_ok(mm, nn, row as int, col as int));
                lemma_minor_len(mm, nn, row as int, col as int);
                lemma_row_major(col as int, row as int, nn);
            }
            let minor = matrix_cofactor(matrix, row, col);
            proof {
                assert(minor@.len() == 0 || valid_len(minor@.len() as int)) by {
                    if nn == 1 {
                        assert((nn - 1) * (nn - 1) == 0) by (nonlinear_arith) requires nn == 1;
                    } else if nn == 2 {
                        assert((nn - 1) * (nn - 1) == 1) by (nonlinear_arith) requires nn == 2;
                    } else {
                        assert(nn == 3);
                        assert((nn - 1) * (nn - 1) == 4) by (nonlinear_arith) requires nn == 3;
                    }
                }
            }
            let minor_det = minor_determinant(minor.as_slice());
            let sign: i32 = if (row + col) % 2 == 0 { 1 } else { -1 };
            let entry = sign * minor_det;
            proof {
                assert(entry == adj_entry(mm, nn, row as int, col as int));
                assert(entry == adjugate_spec(mm, nn)[col * nn + row]);
            }
            result.push(entry);
            proof {
                assert(result@ =~= adjugate_spec(mm, nn).take(col * nn + row + 1));
            }
            row = row + 1;
        }
        proof {
            assert(col * nn + nn == (col + 1) * nn) by (nonlinear_arith);
        }
        col = col + 1;
    }
    proof {
        assert(result@ =~= adjugate_spec(mm, nn));
    }
    result
}


/// `a · b · c`, when the product and its first partial product fit in `i32`.
fn product3_fits(a: i32, b: i32, c: i32) -> (p: Option<i32>)
    ensures
        p is Some <==> in_i32(a * b) && in_i32(a * b * c),
        p matches Some(v) ==> v == a * b * c,
{
    match a.checked_mul(b) {
        None => None,
        Some(ab) => ab.checked_mul(c),
    }
}

/// Whether [`matrix_determinant`] evaluates `matrix` on `i32` without
/// overflow, that is, whether its `requires` holds.
pub fn determinant_fits(matrix: &[i32]) -> (fits: bool)
    ensures
        fits == determinant_ok(matrix@),
{
    if matrix.len() == 4 {
        let a = matrix[0].checked_mul(matrix[3]);
        let b = matrix[1].checked_mul(matrix[2]);
        return match (a, b) {
            (Some(x), Some(y)) => x.checked_sub(y).is_some(),
            _ => false,
        };
    }
    if matrix.len() != 9 {
        return true;
    }
    let ghost m = matrix@;
    let mut acc: i32 = 0;
    let mut i: usize = 0;
    while i < 3
        invariant
            m == matrix@,
            matrix.len() == 9,
            0 <= i <= 3,
            acc == sarrus_acc(m, i as int),
            forall|k: int| 0 <= k < i ==> #[trigger] sarrus_step_ok(m, k),
        decreases 3 - i,
    {
        let ghost ii = i as int;
        proof {
            reveal_with_fuel(sarrus_pos, 4);
            reveal_with_fuel(sarrus_neg, 4);
            reveal_with_fuel(sarrus_acc, 2);
            assert(ii == 0 || ii == 1 || ii == 2);
            assert(sarrus_pos(m, ii, 1) == m[(i % 3) as int]);
            assert(sarrus_neg(m, ii, 1) == m[(i % 3) as int]);
            assert(sarrus_pos(m, ii, 2) == m[(i % 3) as int] * m[(3 + (i + 1) % 3) as int]);
            assert(sarrus_neg(m, ii, 2) == m[(i % 3) as int] * m[(3 + (i + 2) % 3) as int]);
            assert(sarrus_pos(m, ii, 3) == m[(i % 3) as int] * m[(3 + (i + 1) % 3) as int] * m[(6
                + (i + 2) % 3) as int]);
            assert(sarrus_neg(m, ii, 3) == m[(i % 3) as int] * m[(3 + (i + 2) % 3) as int] * m[(6
                + (i + 1) % 3) as int]);
            assert(sarrus_acc(m, ii + 1) == sarrus_acc(m, ii) + sarrus_pos(m, ii, 3) - sarrus_neg(m, ii, 3));
        }
        let pos = product3_fits(matrix[i % 3], matrix[3 + (i + 1) % 3], matrix[6 + (i + 2) % 3]);
        let neg = product3_fits(matrix[i % 3], matrix[3 + (i + 2) % 3], matrix[6 + (i + 1) % 3]);
        let (p, q) = match (pos, neg) {
            (Some(p), Some(q)) => (p, q),
            _ => {
                assert(!sarrus_step_ok(m, ii));
                return false;
            },
        };
        let s = match acc.checked_add(p) {
            Some(s) => s,
            None => {
                assert(!sarrus_step_ok(m, ii));
                return false;
            },
        };
        acc = match s.checked_sub(q) {
            Some(t) => t,
            None => {
                assert(!sarrus_step_ok(m, ii));
                return false;
            },
        };
        assert(sarrus_step_ok(m, ii));
        i = i + 1;
    }
    assert(sarrus_step_ok(m, 0) && sarrus_step_ok(m, 1) && sarrus_step_ok(m, 2));
    true
}

/// Whether [`matrix_adjugate`] evaluates `matrix` on `i32` without overflow,
/// that is, whether its `requires` holds.
pub fn adjugate_fits(matrix: &[i32]) -> (fits: bool)
    ensures
        fits == adjugate_ok(matrix@),
{
    let size = matrix.len();
    if !matrix_validation(size) {
        return true;
    }
    let nu = matrix_side(size);
    let n = nu as i32;
    let ghost mm = matrix@;
    let ghost nn = n as int;
    let mut row: i32 = 0;
    while row < n
        invariant
            nu == side(size as int),
            size == matrix.len(),
            valid_len(size as int),
            mm == matrix@,
            nu * nu == size,
            nu <= 3,
            n == nu as i32,
            nn == n,
            0 <= row <= n,
            forall|r: int, c: int| 0 <= r < row && 0 <= c < nn ==> #[trigger] adj_entry_ok(mm, nn, r, c),
        decreases n - row,
    {
        let mut col: i32 = 0;
        while col < n
            invariant
                nu == side(size as int),
                size == matrix.len(),
                valid_len(size as int),
                mm == matrix@,
                nu * nu == size,
                nu <= 3,
                n == nu as i32,
                nn == n,
                0 <= row < n,
                0 <= col <= n,
                forall|r: int, c: int|
                    (0 <= r < row && 0 <= c < nn) || (r == row && 0 <= c < col) ==> #[trigger] adj_entry_ok(
                        mm,
                        nn,
                        r,
                        c,
                    ),
            decreases n - col,
        {
            proof {
                lemma_minor_len(mm, nn, row as int, col as int);
            }
            let minor = matrix_cofactor(matrix, row, col);
            proof {
                assert(minor@.len() == 0 || valid_len(minor@.len() as int)) by {
                    if nn == 1 {
                        assert((nn - 1) * (nn - 1) == 0) by (nonlinear_arith) requires nn == 1;
                    } else if nn == 2 {
                        assert((nn - 1) * (nn - 1) == 1) by (nonlinear_arith) requires nn == 2;
                    } else {
                        assert(nn == 3);
                        assert((nn - 1) * (nn - 1) == 4) by (nonlinear_arith) requires nn == 3;
                    }
                }
            }
            if !determinant_fits(minor.as_slice()) {
                assert(!adj_entry_ok(mm, nn, row as int, col as int));
                return false;
            }
            let d = minor_determinant(minor.as_slice());
            if (row + col) % 2 != 0 && d == i32::MIN {
                assert(!adj_entry_ok(mm, nn, row as int, col as int));
                return false;
            }
            proof {
                assert(minor@ == minor_spec(mm, nn, row as int, col as int));
                assert(d == det_value(minor_spec(mm, nn, row as int, col as int)));
                let sign: int = if (row + col) % 2 == 0 { 1int } else { -1int };
                assert(adj_entry(mm, nn, row as int, col as int) == sign * d);
                assert(in_i32(sign * d)) by (nonlinear_arith)
                    requires
                        sign == 1 || sign == -1,
                        sign == -1 ==> d != i32::MIN,
                        i32::MIN <= d <= i32::MAX;
                assert(determinant_ok(minor_spec(mm, nn, row as int, col as int)));
            }
            assert(adj_entry_ok(mm, nn, row as int, col as int));
            col = col + 1;
        }
        row = row + 1;
    }
    true
}


// ---------------------------------------------------------------------------
// Element-wise operations and the product
// ---------------------------------------------------------------------------

/// What [`matrix_addition`] returns: the element-wise sum, or `[-1]` for
/// slices of different lengths.
pub open spec fn addition_result(a: Seq<i32>, b: Seq<i32>) -> Seq<i32> {
    if a.len() != b.len() { seq![-1i32] } else { Seq::new(a.len(), |k: int| (a[k] + b[k]) as i32) }
}

/// The inputs on which [`matrix_addition`] evaluates without a panic.
pub open spec fn addition_ok(a: Seq<i32>, b: Seq<i32>) -> bool {
    a.len() == b.len() ==> forall|k: int| 0 <= k < a.len() ==> #[trigger] in_i32(a[k] + b[k])
}

/// Element-wise sum of two matrices of the same size; `[-1]` when their
/// sizes differ.
pub fn matrix_addition(matrix_a: &[i32], matrix_b: &[i32]) -> (sum: Vec<i32>)
    requires
        addition_ok(matrix_a@, matrix_b@),
    ensures
        sum@ == addition_result(matrix_a@, matrix_b@),
{
    if matrix_a.len() != matrix_b.len() {
        return vec![-1];
    }
    let mut result: Vec<i32> = Vec::new();
    let mut k: usize = 0;
    while k < matrix_a.len()
        invariant
            matrix_a.len() == matrix_b.len(),
            addition_ok(matrix_a@, matrix_b@),
            k <= matrix_a.len(),
            result@ == addition_result(matrix_a@, matrix_b@).take(k as int),
        decreases matrix_a.len() - k,
    {
        proof {
            assert(in_i32(matrix_a@[k as int] + matrix_b@[k as int]));
        }
        result.push(matrix_a[k] + matrix_b[k]);
        proof {
            assert(result@ =~= addition_result(matrix_a@, matrix_b@).take(k + 1));
        }
        k = k + 1;
    }
    proof {
        assert(result@ =~= addition_result(matrix_a@, matrix_b@));
    }
    result
}

/// `Σ_{t < k} a[row][t] * b[t][col]` for side-`n` matrices.
pub open spec fn mm_dot(a: Seq<i32>, b: Seq<i32>, n: int, row: int, col: int, k: int) -> int
    decreases k,
{
    if k <= 0 { 0 } else { mm_dot(a, b, n, row, col, k - 1) + a[row * n + k - 1] * b[(k - 1) * n + col] }
}

/// The product of two side-`n` matrices.
pub open spec fn product_spec(a: Seq<i32>, b: Seq<i32>, n: int) -> Seq<i32> {
    Seq::new((n * n) as nat, |k: int| mm_dot(a, b, n, k / n, k % n, n) as i32)
}

/// What [`matrix_multiplication_matrix`] returns.
pub open spec fn product_result(a: Seq<i32>, b: Seq<i32>) -> Seq<i32> {
    if a.len() != b.len() || !valid_len(a.len() as int) {
        seq![-1i32]
    } else {
        product_spec(a, b, side(a.len() as int))
    }
}

/// Term `t` of entry `(row, col)` of the product stays in `i32`, and so does the
/// running sum.
pub open spec fn mm_step_ok(a: Seq<i32>, b: Seq<i32>, n: int, row: int, col: int, t: int) -> bool {
    in_i32(a[row * n + t] * b[t * n + col]) && in_i32(mm_dot(a, b, n, row, col, t + 1))
}

/// The inputs on which [`matrix_multiplication_matrix`] evaluates without a panic.
pub open spec fn product_ok(a: Seq<i32>, b: Seq<i32>) -> bool {
    let n = side(a.len() as int);
    a.len() == b.len() && valid_len(a.len() as int) ==> forall|row: int, col: int, t: int|
        0 <= row < n && 0 <= col < n && 0 <= t < n ==> #[trigger] mm_step_ok(a, b, n, row, col, t)
}

/// Product of two square matrices of the same side, 1 to 3; `[-1]` when the
/// sizes differ or are not those of such a matrix.
pub fn matrix_multiplication_matrix(matrix_a: &[i32], matrix_b: &[i32]) -> (product: Vec<i32>)
    requires
        product_ok(matrix_a@, matrix_b@),
    ensures
        product@ == product_result(matrix_a@, matrix_b@),
{
    if matrix_a.len() != matrix_b.len() {
        return vec![-1];
    }
    if !matrix_validation(matrix_a.len()) {
        return vec![-1];
    }
    let n = matrix_side(matrix_a.len()) as u32;
    let ghost nn = n as int;
    let mut result: Vec<i32> = Vec::new();
    let mut row: u32 = 0;
    while row < n
        invariant
            matrix_a.len() == matrix_b.len(),
            valid_len(matrix_a.len() as int),
            nn == n,
            nn == side(matrix_a.len() as int),
            n <= 3,
            n * n == matrix_a.len(),
            product_ok(matrix_a@, matrix_b@),
            row <= n,
            result@ == product_spec(matrix_a@, matrix_b@, nn).take(row * nn),
        decreases n - row,
    {
        let mut col: u32 = 0;
        while col < n
            invariant
                matrix_a.len() == matrix_b.len(),
                valid_len(matrix_a.len() as int),
                nn == n,
                nn == side(matrix_a.len() as int),
                n <= 3,
                n * n == matrix_a.len(),
                product_ok(matrix_a@, matrix_b@),
                row < n,
                col <= n,
                result@ == product_spec(matrix_a@, matrix_b@, nn).take(row * nn + col),
            decreases n - col,
        {
            let mut sum: i32 = 0;
            let mut k: u32 = 0;
            while k < n
                invariant
                    matrix_a.len() == matrix_b.len(),
                    nn == n,
                    nn == side(matrix_a.len() as int),
                    valid_len(matrix_a.len() as int),
                    n <= 3,
                    n * n == matrix_a.len(),
                    product_ok(matrix_a@, matrix_b@),
                    row < n,
                    col < n,
                    k <= n,
                    sum == mm_dot(matrix_a@, matrix_b@, nn, row as int, col as int, k as int),
                decreases n - k,
            {
                proof {
                    assert(mm_step_ok(matrix_a@, matrix_b@, nn, row as int, col as int, k as int));
                    lemma_row_major(row as int, k as int, nn);
                    lemma_row_major(k as int, col as int, nn);
                    vstd::arithmetic::div_mod::lemma_small_mod(row as nat, nn as nat);
                    vstd::arithmetic::div_mod::lemma_small_mod(col as nat, nn as nat);
                    vstd::arithmetic::div_mod::lemma_small_mod(k as nat, nn as nat);
                }
                let x = find_in_matrix(matrix_a, n, row as i32, k as i32);
                let y = find_in_matrix(matrix_b, n, k as i32, col as i32);
                let p = x * y;
                sum = sum + p;
                k = k + 1;
            }
            proof {
                lemma_row_major(row as int, col as int, nn);
            }
            result.push(sum);
            proof {
                assert(result@ =~= product_spec(matrix_a@, matrix_b@, nn).take(row * nn + col + 1));
            }
            col = col + 1;
        }
        proof {
            assert(row * nn + nn == (row + 1) * nn) by (nonlinear_arith);
        }
        row = row + 1;
    }
    proof {
        assert(result@ =~= product_spec(matrix_a@, matrix_b@, nn));
    }
    result
}

/// What [`matrix_multiplication_escalar`] returns: every element times `e`.
pub open spec fn scaled_result(m: Seq<i32>, e: i32) -> Seq<i32> {
    Seq::new(m.len(), |k: int| (m[k] * e) as i32)
}

/// The inputs on which [`matrix_multiplication_escalar`] evaluates without a panic.
pub open spec fn scaled_ok(m: Seq<i32>, e: i32) -> bool {
    forall|k: int| 0 <= k < m.len() ==> #[trigger] in_i32(m[k] * e)
}

/// Every element of the matrix times the scalar `escalar`.
pub fn matrix_multiplication_escalar(matrix: &[i32], escalar: i32) -> (scaled: Vec<i32>)
    requires
        scaled_ok(matrix@, escalar),
    ensures
        scaled@ == scaled_result(matrix@, escalar),
{
    let mut result: Vec<i32> = Vec::new();
    let mut k: usize = 0;
    while k < matrix.len()
        invariant
            scaled_ok(matrix@, escalar),
            k <= matrix.len(),
            result@ == scaled_result(matrix@, escalar).take(k as int),
        decreases matrix.len() - k,
    {
        proof {
            assert(in_i32(matrix@[k as int] * escalar));
        }
        result.push(matrix[k] * escalar);
        proof {
            assert(result@ =~= scaled_result(matrix@, escalar).take(k + 1));
        }
        k = k + 1;
    }
    proof {
        assert(result@ =~= scaled_result(matrix@, escalar));
    }
    result
}

/// What [`matrix_module`] returns: every element reduced modulo `m`.
pub open spec fn reduced_result(v: Seq<i32>, m: u32) -> Seq<i32> {
    Seq::new(v.len(), |k: int| module_u(v[k] as int, m) as i32)
}

/// The inputs on which [`matrix_module`] evaluates without a panic.
pub open spec fn reduced_ok(v: Seq<i32>, m: u32) -> bool {
    forall|k: int| 0 <= k < v.len() ==> #[trigger] module_u_ok(v[k], m)
}

/// Every element reduced into `[0, m)` (for `0 < m <= i32::MAX`).
pub fn matrix_module(matrix: &[i32], m: u32) -> (reduced: Vec<i32>)
    requires
        reduced_ok(matrix@, m),
    ensures
        reduced@ == reduced_result(matrix@, m),
        0 < m <= i32::MAX ==> forall|k: int| 0 <= k < reduced@.len() ==> 0 <= #[trigger] reduced@[k] < m
            && reduced@[k] as int == (matrix@[k] as int) % (m as int),
{
    let mut result: Vec<i32> = Vec::new();
    let mut k: usize = 0;
    while k < matrix.len()
        invariant
            reduced_ok(matrix@, m),
            k <= matrix.len(),
            result@ == reduced_result(matrix@, m).take(k as int),
            0 < m <= i32::MAX ==> forall|q: int| 0 <= q < k ==> 0 <= #[trigger] result@[q] < m
                && result@[q] as int == (matrix@[q] as int) % (m as int),
        decreases matrix.len() - k,
    {
        proof {
            assert(module_u_ok(matrix@[k as int], m));
        }
        let r = module(matrix[k], m);
        result.push(r as i32);
        proof {
            assert(result@ =~= reduced_result(matrix@, m).take(k + 1));
        }
        k = k + 1;
    }
    proof {
        assert(result@ =~= reduced_result(matrix@, m));
    }
    result
}

/// Element-wise sum reduced modulo `m`.
pub fn matrix_addition_module(matrix_a: &[i32], matrix_b: &[i32], m: u32) -> (sum: Vec<i32>)
    requires
        addition_ok(matrix_a@, matrix_b@),
        reduced_ok(addition_result(matrix_a@, matrix_b@), m),
    ensures
        sum@ == reduced_result(addition_result(matrix_a@, matrix_b@), m),
{
    let sum = matrix_addition(matrix_a, matrix_b);
    matrix_module(sum.as_slice(), m)
}

/// Product of two matrices reduced modulo `m`.
pub fn matrix_multiplication_matrix_module(matrix_a: &[i32], matrix_b: &[i32], m: u32) -> (product: Vec<i32>)
    requires
        product_ok(matrix_a@, matrix_b@),
        reduced_ok(product_result(matrix_a@, matrix_b@), m),
    ensures
        product@ == reduced_result(product_result(matrix_a@, matrix_b@), m),
{
    let product = matrix_multiplication_matrix(matrix_a, matrix_b);
    matrix_module(product.as_slice(), m)
}

/// A matrix times a scalar, reduced modulo `m`.
pub fn matrix_multiplication_escalar_module(matrix: &[i32], escalar: i32, m: u32) -> (scaled: Vec<i32>)
    requires
        scaled_ok(matrix@, escalar),
        reduced_ok(scaled_result(matrix@, escalar), m),
    ensures
        scaled@ == reduced_result(scaled_result(matrix@, escalar), m),
{
    let scaled = matrix_multiplication_escalar(matrix, escalar);
    matrix_module(scaled.as_slice(), m)
}


// ---------------------------------------------------------------------------
// Identity and modular inverse
// ---------------------------------------------------------------------------

/// The integer square root: the `n >= 0` with `n² <= t < (n + 1)²`.
pub open spec fn sqrt_floor(t: int) -> int {
    choose|n: int| is_sqrt_floor(n, t)
}

/// `n` is the integer square root of `t`.
pub open spec fn is_sqrt_floor(n: int, t: int) -> bool {
    0 <= n && n * n <= t && t < (n + 1) * (n + 1)
}

proof fn lemma_sqrt_floor_unique(t: int, n: int)
    requires
        0 <= n,
        n * n <= t,
        t < (n + 1) * (n + 1),
    ensures
        sqrt_floor(t) == n,
{
    assert(is_sqrt_floor(n, t));
    let s = sqrt_floor(t);
    assert(is_sqrt_floor(s, t));
    if s < n {
        assert((s + 1) * (s + 1) <= n * n) by (nonlinear_arith)
            requires 0 <= s < n;
    } else if s > n {
        assert((n + 1) * (n + 1) <= s * s) by (nonlinear_arith)
            requires 0 <= n < s;
    }
}

fn int_sqrt(t: usize) -> (n: usize)
    ensures
        n == sqrt_floor(t as int),
        n * n <= t,
{
    let mut n: usize = 0;
    while n + 1 <= t / (n + 1)
        invariant
            n * n <= t,
            n <= t,
            n < usize::MAX,
        decreases t - n,
    {
        proof {
            let q = t as int / (n + 1) as int;
            vstd::arithmetic::div_mod::lemma_fundamental_div_mod(t as int, (n + 1) as int);
            assert((n + 1) * (n + 1) <= t) by (nonlinear_arith)
                requires n + 1 <= q, (n + 1) * q <= t, n + 1 > 0, q >= 0;
            assert(n + 1 <= t) by (nonlinear_arith)
                requires (n + 1) * (n + 1) <= t, n + 1 >= 1;
            assert(n + 1 < usize::MAX) by (nonlinear_arith)
                requires (n + 1) * (n + 1) <= t, t <= usize::MAX, n + 1 >= 1, usize::MAX >= 4;
        }
        n = n + 1;
    }
    proof {
        let ti = t as int;
        let n1 = n as int + 1;
        let q = ti / n1;
        vstd::arithmetic::div_mod::lemma_fundamental_div_mod(ti, n1);
        vstd::arithmetic::div_mod::lemma_mod_bound(ti, n1);
        assert(ti < n1 * n1) by (nonlinear_arith)
            requires q < n1, ti == n1 * q + ti % n1, ti % n1 < n1, n1 > 0;
        lemma_sqrt_floor_unique(t as int, n as int);
    }
    n
}

/// The identity of side `n` padded with zeros to `total` values: `1` exactly
/// at the positions `(i, i)` with `i < n`.
pub open spec fn identity_spec(total: int, n: int) -> Seq<i32> {
    Seq::new(total as nat, |k: int| if k < n * n && k / n == k % n { 1i32 } else { 0i32 })
}

/// The identity matrix for a slice of `total_elements` values: side
/// `⌊√total_elements⌋`, zeros elsewhere.
fn identity_matrix(total_elements: usize) -> (id: Vec<i32>)
    ensures
        id@ == identity_spec(total_elements as int, sqrt_floor(total_elements as int)),
{
    let n = int_sqrt(total_elements);
    let ghost nn = n as int;
    let mut id: Vec<i32> = vec![0i32; total_elements];
    let mut i: usize = 0;
    while i < n
        invariant
            nn == n,
            n * n <= total_elements,
            id@.len() == total_elements,
            i <= n,
            forall|k: int| 0 <= k < total_elements ==> #[trigger] id@[k] == if k < nn * nn && k / nn
                == k % nn && k / nn < i { 1i32 } else { 0i32 },
        decreases n - i,
    {
        proof {
            lemma_row_major(i as int, i as int, nn);
        }
        let pos = i * n + i;
        id.set(pos, 1);
        proof {
            assert forall|k: int| 0 <= k < total_elements implies #[trigger] id@[k] == if k < nn * nn
                && k / nn == k % nn && k / nn < i + 1 { 1i32 } else { 0i32 } by {
                if k < nn * nn && nn > 0 {
                    vstd::arithmetic::div_mod::lemma_fundamental_div_mod(k, nn);
                    if k / nn == k % nn && k / nn == i {
                        assert(k == i * nn + i) by (nonlinear_arith)
                            requires k == nn * (k / nn) + k % nn, k / nn == i, k % nn == i;
                    }
                }
            }
        }
        i = i + 1;
    }
    proof {
        assert forall|k: int| 0 <= k < total_elements implies #[trigger] id@[k] == identity_spec(
            total_elements as int,
            nn,
        )[k] by {
            if k < nn * nn && nn > 0 {
                vstd::arithmetic::div_mod::lemma_div_pos_is_pos(k, nn);
                vstd::arithmetic::div_mod::lemma_fundamental_div_mod(k, nn);
                vstd::arithmetic::div_mod::lemma_mod_bound(k, nn);
                let q = k / nn;
                assert(q < nn) by (nonlinear_arith)
                    requires k == nn * q + k % nn, 0 <= k % nn, k < nn * nn, nn > 0;
            }
        }
        assert(id@ =~= identity_spec(total_elements as int, nn));
    }
    id
}

/// The inverse that the extended algorithm gives for `alpha` modulo
/// `n_length`: the Bézout coefficient of `alpha`, reduced into `[0, n_length)`
/// when it is not positive.
pub open spec fn inverse_coefficient(n_length: i32, alpha: i32) -> int {
    let (a, b) = ordered(n_length as int, alpha as int);
    let (d, x, y) = xgcd_spec(a, b);
    let out = if a == alpha { x } else { y };
    if out > 0 { out } else { (module_u(out, n_length as u32) as i32) as int }
}

/// The inputs on which the inverse of `alpha` modulo `n_length` evaluates
/// without a panic.
pub open spec fn inverse_coefficient_ok(n_length: i32, alpha: i32) -> bool {
    let (a, b) = ordered(n_length as int, alpha as int);
    let (d, x, y) = xgcd_spec(a, b);
    let out = if a == alpha { x } else { y };
    xgcd_ok(a as i32, b as i32) && (out <= 0 ==> module_u_ok(out as i32, n_length as u32))
}

/// Multiplicative inverse of `alpha` in `Z_{n_length}` by the extended
/// algorithm.
fn euclid_extended(n_length: i32, alpha: i32) -> (inv: i32)
    requires
        inverse_coefficient_ok(n_length, alpha),
    ensures
        inv == inverse_coefficient(n_length, alpha),
{
    let (a, b) = if n_length > alpha { (n_length, alpha) } else { (alpha, n_length) };
    let (_d, x, y) = xgcd_rec(a, b);
    let out = if a == alpha { x } else { y };
    if out > 0 {
        out
    } else {
        module(out, n_length as u32) as i32
    }
}

/// The inverse modulo `m` that [`matrix_inverse_module`] returns: the
/// adjugate times the inverse of the determinant, reduced modulo `m`; empty
/// when the determinant is zero, has no inverse modulo `m`, or the product
/// with the matrix is not the identity modulo `m`.
pub open spec fn inverse_result(mat: Seq<i32>, m: u32) -> Seq<i32> {
    let det = determinant_result(mat);
    let det_mod = module_u(det, m) as i32;
    let inv = inverse_coefficient(m as i32, det_mod);
    let adj = adjugate_result(mat);
    let result = reduced_result(scaled_result(adj, inv as i32), m);
    let product = reduced_result(product_result(result, mat), m);
    if det == 0 {
        Seq::empty()
    } else if inv == 0 {
        Seq::empty()
    } else if module_u(inv * det_mod, m) != 1 {
        Seq::empty()
    } else if product != identity_spec(mat.len() as int, sqrt_floor(mat.len() as int)) {
        Seq::empty()
    } else {
        result
    }
}

/// The inputs on which [`matrix_inverse_module`] evaluates on `i32` without a
/// panic: every step that runs stays in range.
pub open spec fn inverse_ok(mat: Seq<i32>, m: u32) -> bool {
    let det = determinant_result(mat);
    let det_mod = module_u(det, m) as i32;
    let inv = inverse_coefficient(m as i32, det_mod);
    let adj = adjugate_result(mat);
    let scaled = scaled_result(adj, inv as i32);
    let result = reduced_result(scaled, m);
    &&& determinant_ok(mat)
    &&& det != 0 ==> {
        &&& module_u_ok(det as i32, m)
        &&& inverse_coefficient_ok(m as i32, det_mod)
        &&& inv != 0 ==> {
            &&& in_i32(inv * det_mod)
            &&& module_u_ok((inv * det_mod) as i32, m)
            &&& module_u(inv * det_mod, m) == 1 ==> {
                &&& adjugate_ok(mat)
                &&& scaled_ok(adj, inv as i32)
                &&& reduced_ok(scaled, m)
                &&& product_ok(result, mat)
                &&& reduced_ok(product_result(result, mat), m)
            }
        }
    }
}

/// The inverse of a square matrix modulo `m`: the adjugate times the inverse
/// of the determinant modulo `m`, every element reduced. The result is
/// checked: it is returned only when its product with the matrix is the
/// identity modulo `m`, and it is empty otherwise (zero determinant,
/// determinant not invertible modulo `m`, failed check). For a modulus above 1
/// it is non-empty exactly when the determinant is a unit modulo `m`, and it
/// is then an inverse on both sides.
pub fn matrix_inverse_module(matrix: &[i32], m: u32) -> (inv: Vec<i32>)
    requires
        inverse_ok(matrix@, m),
    ensures
        inv@ == inverse_result(matrix@, m),
        inv@.len() > 0 ==> reduced_result(product_result(inv@, matrix@), m) == identity_spec(
            matrix@.len() as int,
            sqrt_floor(matrix@.len() as int),
        ),
        valid_len(matrix@.len() as int) && 0 < m <= i32::MAX && inv@.len() > 0 ==> forall|i: int, j: int|
            0 <= i < side(matrix@.len() as int) && 0 <= j < side(matrix@.len() as int) ==> #[trigger] mm_dot(
                matrix@,
                inv@,
                side(matrix@.len() as int),
                i,
                j,
                side(matrix@.len() as int),
            ) % (m as int) == if i == j { 1int } else { 0int },
        valid_len(matrix@.len() as int) && 1 < m <= i32::MAX ==> (inv@.len() > 0 <==> gcd_t(
            m as int,
            det_value(matrix@) % (m as int),
        ) == 1),
{
    proof {
        let mat = matrix@;
        let n = side(mat.len() as int);
        if valid_len(mat.len() as int) && 1 < m <= i32::MAX {
            lemma_inverse_module_exists(mat, m);
        }
        if valid_len(mat.len() as int) && 0 < m <= i32::MAX && inverse_result(mat, m).len() > 0 {
            assert forall|i: int, j: int| 0 <= i < n && 0 <= j < n implies #[trigger] mm_dot(
                mat,
                inverse_result(mat, m),
                n,
                i,
                j,
                n,
            ) % (m as int) == if i == j { 1int } else { 0int } by {
                lemma_inverse_module_right_inverse(mat, m, i, j);
            }
        }
    }
    let raw_det = matrix_determinant(matrix);
    if raw_det == 0 {
        return Vec::new();
    }
    let det_mod = module(raw_det, m) as i32;
    let inv_det = euclid_extended(m as i32, det_mod);
    if inv_det == 0 {
        return Vec::new();
    }
    if module(inv_det * det_mod, m) != 1 {
        return Vec::new();
    }
    let adjugate = matrix_adjugate(matrix);
    let result = matrix_multiplication_escalar_module(adjugate.as_slice(), inv_det, m);
    let product = matrix_multiplication_matrix_module(result.as_slice(), matrix, m);
    let identity = identity_matrix(matrix.len());
    if !crate::hill::same_block(product.as_slice(), identity.as_slice()) {
        return Vec::new();
    }
    result
}

/// A non-empty result of [`matrix_inverse_module`] is an inverse: its product
/// with the matrix, reduced modulo `m`, is the identity.
pub proof fn lemma_inverse_module_is_inverse(mat: Seq<i32>, m: u32)
    requires
        inverse_result(mat, m).len() > 0,
    ensures
        reduced_result(product_result(inverse_result(mat, m), mat), m) == identity_spec(
            mat.len() as int,
            sqrt_floor(mat.len() as int),
        ),
{
}


// ---------------------------------------------------------------------------
// The adjugate identity
// ---------------------------------------------------------------------------

/// The remaining row (or column) indices of a side-3 matrix without index `r`.
pub open spec fn other3(r: int, t: int) -> int {
    if t == 0 { if r == 0 { 1 } else { 0 } } else { if r == 2 { 1 } else { 2 } }
}

proof fn lemma_minor3(m: Seq<i32>, r: int, c: int)
    requires
        m.len() == 9,
        0 <= r < 3,
        0 <= c < 3,
    ensures
        minor_spec(m, 3, r, c) == seq![
            m[3 * other3(r, 0) + other3(c, 0)],
            m[3 * other3(r, 0) + other3(c, 1)],
            m[3 * other3(r, 1) + other3(c, 0)],
            m[3 * other3(r, 1) + other3(c, 1)],
        ],
{
    reveal_with_fuel(minor_rows, 4);
    reveal_with_fuel(row_part, 4);
    assert(minor_spec(m, 3, r, c) =~= seq![
        m[3 * other3(r, 0) + other3(c, 0)],
        m[3 * other3(r, 0) + other3(c, 1)],
        m[3 * other3(r, 1) + other3(c, 0)],
        m[3 * other3(r, 1) + other3(c, 1)],
    ]);
}

/// Cofactor `(r, c)` of the side-3 matrix with entries `a`, written out.
pub open spec fn cof3(a: Seq<i32>, r: int, c: int) -> int {
    let r0 = other3(r, 0);
    let r1 = other3(r, 1);
    let c0 = other3(c, 0);
    let c1 = other3(c, 1);
    let minor = a[3 * r0 + c0] * a[3 * r1 + c1] - a[3 * r0 + c1] * a[3 * r1 + c0];
    if (r + c) % 2 == 0 { minor } else { -minor }
}

proof fn lemma_laplace3_r00(a0: int, a1: int, a2: int, a3: int, a4: int, a5: int, a6: int, a7: int, a8: int)
    ensures
        a0 * (a4 * a8 - a5 * a7) + a1 * (-(a3 * a8 - a5 * a6)) + a2 * (a3 * a7 - a4 * a6) == (a0 * a4 * a8 + a1 * a5 * a6 + a2 * a3 * a7 - a2 * a4 * a6 - a0 * a5 * a7 - a1 * a3 * a8),
{
    assert(a0 * (a4 * a8 - a5 * a7) == a0 * a4 * a8 - a0 * a5 * a7) by (nonlinear_arith);
    assert(a1 * (-(a3 * a8 - a5 * a6)) == a1 * a5 * a6 - a1 * a3 * a8) by (nonlinear_arith);
    assert(a2 * (a3 * a7 - a4 * a6) == a2 * a3 * a7 - a2 * a4 * a6) by (nonlinear_arith);
}

proof fn lemma_laplace3_r01(a0: int, a1: int, a2: int, a3: int, a4: int, a5: int, a6: int, a7: int, a8: int)
    ensures
        a0 * (-(a1 * a8 - a2 * a7)) + a1 * (a0 * a8 - a2 * a6) + a2 * (-(a0 * a7 - a1 * a6)) == 0,
{
    assert(a0 * (-(a1 * a8 - a2 * a7)) == a0 * a2 * a7 - a0 * a1 * a8) by (nonlinear_arith);
    assert(a1 * (a0 * a8 - a2 * a6) == a0 * a1 * a8 - a1 * a2 * a6) by (nonlinear_arith);
    assert(a2 * (-(a0 * a7 - a1 * a6)) == a1 * a2 * a6 - a0 * a2 * a7) by (nonlinear_arith);
}

proof fn lemma_laplace3_r02(a0: int, a1: int, a2: int, a3: int, a4: int, a5: int, a6: int, a7: int, a8: int)
    ensures
        a0 * (a1 * a5 - a2 * a4) + a1 * (-(a0 * a5 - a2 * a3)) + a2 * (a0 * a4 - a1 * a3) == 0,
{
    assert(a0 * (a1 * a5 - a2 * a4) == a0 * a1 * a5 - a0 * a2 * a4) by (nonlinear_arith);
    assert(a1 * (-(a0 * a5 - a2 * a3)) == a1 * a2 * a3 - a0 * a1 * a5) by (nonlinear_arith);
    assert(a2 * (a0 * a4 - a1 * a3) == a0 * a2 * a4 - a1 * a2 * a3) by (nonlinear_arith);
}

proof fn lemma_laplace3_r10(a0: int, a1: int, a2: int, a3: int, a4: int, a5: int, a6: int, a7: int, a8: int)
    ensures
        a3 * (a4 * a8 - a5 * a7) + a4 * (-(a3 * a8 - a5 * a6)) + a5 * (a3 * a7 - a4 * a6) == 0,
{
    assert(a3 * (a4 * a8 - a5 * a7) == a3 * a4 * a8 - a3 * a5 * a7) by (nonlinear_arith);
    assert(a4 * (-(a3 * a8 - a5 * a6)) == a4 * a5 * a6 - a3 * a4 * a8) by (nonlinear_arith);
    assert(a5 * (a3 * a7 - a4 * a6) == a3 * a5 * a7 - a4 * a5 * a6) by (nonlinear_arith);
}

proof fn lemma_laplace3_r11(a0: int, a1: int, a2: int, a3: int, a4: int, a5: int, a6: int, a7: int, a8: int)
    ensures
        a3 * (-(a1 * a8 - a2 * a7)) + a4 * (a0 * a8 - a2 * a6) + a5 * (-(a0 * a7 - a1 * a6)) == (a0 * a4 * a8 + a1 * a5 * a6 + a2 * a3 * a7 - a2 * a4 * a6 - a0 * a5 * a7 - a1 * a3 * a8),
{
    assert(a3 * (-(a1 * a8 - a2 * a7)) == a2 * a3 * a7 - a1 * a3 * a8) by (nonlinear_arith);
    assert(a4 * (a0 * a8 - a2 * a6) == a0 * a4 * a8 - a2 * a4 * a6) by (nonlinear_arith);
    assert(a5 * (-(a0 * a7 - a1 * a6)) == a1 * a5 * a6 - a0 * a5 * a7) by (nonlinear_arith);
}

proof fn lemma_laplace3_r12(a0: int, a1: int, a2: int, a3: int, a4: int, a5: int, a6: int, a7: int, a8: int)
    ensures
        a3 * (a1 * a5 - a2 * a4) + a4 * (-(a0 * a5 - a2 * a3)) + a5 * (a0 * a4 - a1 * a3) == 0,
{
    assert(a3 * (a1 * a5 - a2 * a4) == a1 * a3 * a5 - a2 * a3 * a4) by (nonlinear_arith);
    assert(a4 * (-(a0 * a5 - a2 * a3)) == a2 * a3 * a4 - a0 * a4 * a5) by (nonlinear_arith);
    assert(a5 * (a0 * a4 - a1 * a3) == a0 * a4 * a5 - a1 * a3 * a5) by (nonlinear_arith);
}

proof fn lemma_laplace3_r20(a0: int, a1: int, a2: int, a3: int, a4: int, a5: int, a6: int, a7: int, a8: int)
    ensures
        a6 * (a4 * a8 - a5 * a7) + a7 * (-(a3 * a8 - a5 * a6)) + a8 * (a3 * a7 - a4 * a6) == 0,
{
    assert(a6 * (a4 * a8 - a5 * a7) == a4 * a6 * a8 - a5 * a6 * a7) by (nonlinear_arith);
    assert(a7 * (-(a3 * a8 - a5 * a6)) == a5 * a6 * a7 - a3 * a7 * a8) by (nonlinear_arith);
    assert(a8 * (a3 * a7 - a4 * a6) == a3 * a7 * a8 - a4 * a6 * a8) by (nonlinear_arith);
}

proof fn lemma_laplace3_r21(a0: int, a1: int, a2: int, a3: int, a4: int, a5: int, a6: int, a7: int, a8: int)
    ensures
        a6 * (-(a1 * a8 - a2 * a7)) + a7 * (a0 * a8 - a2 * a6) + a8 * (-(a0 * a7 - a1 * a6)) == 0,
{
    assert(a6 * (-(a1 * a8 - a2 * a7)) == a2 * a6 * a7 - a1 * a6 * a8) by (nonlinear_arith);
    assert(a7 * (a0 * a8 - a2 * a6) == a0 * a7 * a8 - a2 * a6 * a7) by (nonlinear_arith);
    assert(a8 * (-(a0 * a7 - a1 * a6)) == a1 * a6 * a8 - a0 * a7 * a8) by (nonlinear_arith);
}

proof fn lemma_laplace3_r22(a0: int, a1: int, a2: int, a3: int, a4: int, a5: int, a6: int, a7: int, a8: int)
    ensures
        a6 * (a1 * a5 - a2 * a4) + a7 * (-(a0 * a5 - a2 * a3)) + a8 * (a0 * a4 - a1 * a3) == (a0 * a4 * a8 + a1 * a5 * a6 + a2 * a3 * a7 - a2 * a4 * a6 - a0 * a5 * a7 - a1 * a3 * a8),
{
    assert(a6 * (a1 * a5 - a2 * a4) == a1 * a5 * a6 - a2 * a4 * a6) by (nonlinear_arith);
    assert(a7 * (-(a0 * a5 - a2 * a3)) == a2 * a3 * a7 - a0 * a5 * a7) by (nonlinear_arith);
    assert(a8 * (a0 * a4 - a1 * a3) == a0 * a4 * a8 - a1 * a3 * a8) by (nonlinear_arith);
}

proof fn lemma_laplace3_c00(a0: int, a1: int, a2: int, a3: int, a4: int, a5: int, a6: int, a7: int, a8: int)
    ensures
        a0 * (a4 * a8 - a5 * a7) + a3 * (-(a1 * a8 - a2 * a7)) + a6 * (a1 * a5 - a2 * a4) == (a0 * a4 * a8 + a1 * a5 * a6 + a2 * a3 * a7 - a2 * a4 * a6 - a0 * a5 * a7 - a1 * a3 * a8),
{
    assert(a0 * (a4 * a8 - a5 * a7) == a0 * a4 * a8 - a0 * a5 * a7) by (nonlinear_arith);
    assert(a3 * (-(a1 * a8 - a2 * a7)) == a2 * a3 * a7 - a1 * a3 * a8) by (nonlinear_arith);
    assert(a6 * (a1 * a5 - a2 * a4) == a1 * a5 * a6 - a2 * a4 * a6) by (nonlinear_arith);
}

proof fn lemma_laplace3_c01(a0: int, a1: int, a2: int, a3: int, a4: int, a5: int, a6: int, a7: int, a8: int)
    ensures
        a1 * (a4 * a8 - a5 * a7) + a4 * (-(a1 * a8 - a2 * a7)) + a7 * (a1 * a5 - a2 * a4) == 0,
{
    assert(a1 * (a4 * a8 - a5 * a7) == a1 * a4 * a8 - a1 * a5 * a7) by (nonlinear_arith);
    assert(a4 * (-(a1 * a8 - a2 * a7)) == a2 * a4 * a7 - a1 * a4 * a8) by (nonlinear_arith);
    assert(a7 * (a1 * a5 - a2 * a4) == a1 * a5 * a7 - a2 * a4 * a7) by (nonlinear_arith);
}

proof fn lemma_laplace3_c02(a0: int, a1: int, a2: int, a3: int, a4: int, a5: int, a6: int, a7: int, a8: int)
    ensures
        a2 * (a4 * a8 - a5 * a7) + a5 * (-(a1 * a8 - a2 * a7)) + a8 * (a1 * a5 - a2 * a4) == 0,
{
    assert(a2 * (a4 * a8 - a5 * a7) == a2 * a4 * a8 - a2 * a5 * a7) by (nonlinear_arith);
    assert(a5 * (-(a1 * a8 - a2 * a7)) == a2 * a5 * a7 - a1 * a5 * a8) by (nonlinear_arith);
    assert(a8 * (a1 * a5 - a2 * a4) == a1 * a5 * a8 - a2 * a4 * a8) by (nonlinear_arith);
}

proof fn lemma_laplace3_c10(a0: int, a1: int, a2: int, a3: int, a4: int, a5: int, a6: int, a7: int, a8: int)
    ensures
        a0 * (-(a3 * a8 - a5 * a6)) + a3 * (a0 * a8 - a2 * a6) + a6 * (-(a0 * a5 - a2 * a3)) == 0,
{
    assert(a0 * (-(a3 * a8 - a5 * a6)) == a0 * a5 * a6 - a0 * a3 * a8) by (nonlinear_arith);
    assert(a3 * (a0 * a8 - a2 * a6) == a0 * a3 * a8 - a2 * a3 * a6) by (nonlinear_arith);
    assert(a6 * (-(a0 * a5 - a2 * a3)) == a2 * a3 * a6 - a0 * a5 * a6) by (nonlinear_arith);
}

proof fn lemma_laplace3_c11(a0: int, a1: int, a2: int, a3: int, a4: int, a5: int, a6: int, a7: int, a8: int)
    ensures
        a1 * (-(a3 * a8 - a5 * a6)) + a4 * (a0 * a8 - a2 * a6) + a7 * (-(a0 * a5 - a2 * a3)) == (a0 * a4 * a8 + a1 * a5 * a6 + a2 * a3 * a7 - a2 * a4 * a6 - a0 * a5 * a7 - a1 * a3 * a8),
{
    assert(a1 * (-(a3 * a8 - a5 * a6)) == a1 * a5 * a6 - a1 * a3 * a8) by (nonlinear_arith);
    assert(a4 * (a0 * a8 - a2 * a6) == a0 * a4 * a8 - a2 * a4 * a6) by (nonlinear_arith);
    assert(a7 * (-(a0 * a5 - a2 * a3)) == a2 * a3 * a7 - a0 * a5 * a7) by (nonlinear_arith);
}

proof fn lemma_laplace3_c12(a0: int, a1: int, a2: int, a3: int, a4: int, a5: int, a6: int, a7: int, a8: int)
    ensures
        a2 * (-(a3 * a8 - a5 * a6)) + a5 * (a0 * a8 - a2 * a6) + a8 * (-(a0 * a5 - a2 * a3)) == 0,
{
    assert(a2 * (-(a3 * a8 - a5 * a6)) == a2 * a5 * a6 - a2 * a3 * a8) by (nonlinear_arith);
    assert(a5 * (a0 * a8 - a2 * a6) == a0 * a5 * a8 - a2 * a5 * a6) by (nonlinear_arith);
    assert(a8 * (-(a0 * a5 - a2 * a3)) == a2 * a3 * a8 - a0 * a5 * a8) by (nonlinear_arith);
}

proof fn lemma_laplace3_c20(a0: int, a1: int, a2: int, a3: int, a4: int, a5: int, a6: int, a7: int, a8: int)
    ensures
        a0 * (a3 * a7 - a4 * a6) + a3 * (-(a0 * a7 - a1 * a6)) + a6 * (a0 * a4 - a1 * a3) == 0,
{
    assert(a0 * (a3 * a7 - a4 * a6) == a0 * a3 * a7 - a0 * a4 * a6) by (nonlinear_arith);
    assert(a3 * (-(a0 * a7 - a1 * a6)) == a1 * a3 * a6 - a0 * a3 * a7) by (nonlinear_arith);
    assert(a6 * (a0 * a4 - a1 * a3) == a0 * a4 * a6 - a1 * a3 * a6) by (nonlinear_arith);
}

proof fn lemma_laplace3_c21(a0: int, a1: int, a2: int, a3: int, a4: int, a5: int, a6: int, a7: int, a8: int)
    ensures
        a1 * (a3 * a7 - a4 * a6) + a4 * (-(a0 * a7 - a1 * a6)) + a7 * (a0 * a4 - a1 * a3) == 0,
{
    assert(a1 * (a3 * a7 - a4 * a6) == a1 * a3 * a7 - a1 * a4 * a6) by (nonlinear_arith);
    assert(a4 * (-(a0 * a7 - a1 * a6)) == a1 * a4 * a6 - a0 * a4 * a7) by (nonlinear_arith);
    assert(a7 * (a0 * a4 - a1 * a3) == a0 * a4 * a7 - a1 * a3 * a7) by (nonlinear_arith);
}

proof fn lemma_laplace3_c22(a0: int, a1: int, a2: int, a3: int, a4: int, a5: int, a6: int, a7: int, a8: int)
    ensures
        a2 * (a3 * a7 - a4 * a6) + a5 * (-(a0 * a7 - a1 * a6)) + a8 * (a0 * a4 - a1 * a3) == (a0 * a4 * a8 + a1 * a5 * a6 + a2 * a3 * a7 - a2 * a4 * a6 - a0 * a5 * a7 - a1 * a3 * a8),
{
    assert(a2 * (a3 * a7 - a4 * a6) == a2 * a3 * a7 - a2 * a4 * a6) by (nonlinear_arith);
    assert(a5 * (-(a0 * a7 - a1 * a6)) == a1 * a5 * a6 - a0 * a5 * a7) by (nonlinear_arith);
    assert(a8 * (a0 * a4 - a1 * a3) == a0 * a4 * a8 - a1 * a3 * a8) by (nonlinear_arith);
}

/// Laplace expansion of a 3 × 3 determinant: a row (column) times the
/// cofactors of the same row (column) is the determinant, times those of
/// another row (column) is zero.
proof fn lemma_laplace3(a: Seq<i32>)
    requires
        a.len() == 9,
    ensures
        forall|i: int, j: int|
            0 <= i < 3 && 0 <= j < 3 ==> #[trigger] (a[3 * i] * cof3(a, j, 0) + a[3 * i + 1] * cof3(a, j, 1)
                + a[3 * i + 2] * cof3(a, j, 2)) == if i == j { det3(a) } else { 0 },
        forall|i: int, j: int|
            0 <= i < 3 && 0 <= j < 3 ==> #[trigger] (a[j] * cof3(a, 0, i) + a[3 + j] * cof3(a, 1, i)
                + a[6 + j] * cof3(a, 2, i)) == if i == j { det3(a) } else { 0 },
{
    lemma_laplace3_r00(a[0] as int, a[1] as int, a[2] as int, a[3] as int, a[4] as int, a[5] as int, a[6] as int, a[7] as int, a[8] as int);
    lemma_laplace3_r01(a[0] as int, a[1] as int, a[2] as int, a[3] as int, a[4] as int, a[5] as int, a[6] as int, a[7] as int, a[8] as int);
    lemma_laplace3_r02(a[0] as int, a[1] as int, a[2] as int, a[3] as int, a[4] as int, a[5] as int, a[6] as int, a[7] as int, a[8] as int);
    lemma_laplace3_r10(a[0] as int, a[1] as int, a[2] as int, a[3] as int, a[4] as int, a[5] as int, a[6] as int, a[7] as int, a[8] as int);
    lemma_laplace3_r11(a[0] as int, a[1] as int, a[2] as int, a[3] as int, a[4] as int, a[5] as int, a[6] as int, a[7] as int, a[8] as int);
    lemma_laplace3_r12(a[0] as int, a[1] as int, a[2] as int, a[3] as int, a[4] as int, a[5] as int, a[6] as int, a[7] as int, a[8] as int);
    lemma_laplace3_r20(a[0] as int, a[1] as int, a[2] as int, a[3] as int, a[4] as int, a[5] as int, a[6] as int, a[7] as int, a[8] as int);
    lemma_laplace3_r21(a[0] as int, a[1] as int, a[2] as int, a[3] as int, a[4] as int, a[5] as int, a[6] as int, a[7] as int, a[8] as int);
    lemma_laplace3_r22(a[0] as int, a[1] as int, a[2] as int, a[3] as int, a[4] as int, a[5] as int, a[6] as int, a[7] as int, a[8] as int);
    lemma_laplace3_c00(a[0] as int, a[1] as int, a[2] as int, a[3] as int, a[4] as int, a[5] as int, a[6] as int, a[7] as int, a[8] as int);
    lemma_laplace3_c01(a[0] as int, a[1] as int, a[2] as int, a[3] as int, a[4] as int, a[5] as int, a[6] as int, a[7] as int, a[8] as int);
    lemma_laplace3_c02(a[0] as int, a[1] as int, a[2] as int, a[3] as int, a[4] as int, a[5] as int, a[6] as int, a[7] as int, a[8] as int);
    lemma_laplace3_c10(a[0] as int, a[1] as int, a[2] as int, a[3] as int, a[4] as int, a[5] as int, a[6] as int, a[7] as int, a[8] as int);
    lemma_laplace3_c11(a[0] as int, a[1] as int, a[2] as int, a[3] as int, a[4] as int, a[5] as int, a[6] as int, a[7] as int, a[8] as int);
    lemma_laplace3_c12(a[0] as int, a[1] as int, a[2] as int, a[3] as int, a[4] as int, a[5] as int, a[6] as int, a[7] as int, a[8] as int);
    lemma_laplace3_c20(a[0] as int, a[1] as int, a[2] as int, a[3] as int, a[4] as int, a[5] as int, a[6] as int, a[7] as int, a[8] as int);
    lemma_laplace3_c21(a[0] as int, a[1] as int, a[2] as int, a[3] as int, a[4] as int, a[5] as int, a[6] as int, a[7] as int, a[8] as int);
    lemma_laplace3_c22(a[0] as int, a[1] as int, a[2] as int, a[3] as int, a[4] as int, a[5] as int, a[6] as int, a[7] as int, a[8] as int);
    assert forall|i: int, j: int| 0 <= i < 3 && 0 <= j < 3 implies #[trigger] (a[3 * i] * cof3(a, j, 0)
        + a[3 * i + 1] * cof3(a, j, 1) + a[3 * i + 2] * cof3(a, j, 2)) == if i == j { det3(a) } else { 0 } by {
        assert(i == 0 || i == 1 || i == 2);
        assert(j == 0 || j == 1 || j == 2);
    }
    assert forall|i: int, j: int| 0 <= i < 3 && 0 <= j < 3 implies #[trigger] (a[j] * cof3(a, 0, i)
        + a[3 + j] * cof3(a, 1, i) + a[6 + j] * cof3(a, 2, i)) == if i == j { det3(a) } else { 0 } by {
        assert(i == 0 || i == 1 || i == 2);
        assert(j == 0 || j == 1 || j == 2);
    }
}

proof fn lemma_sign_mul(sign: int, d: int)
    ensures
        sign == 1 ==> sign * d == d,
        sign == -1 ==> sign * d == -d,
{
    if sign == 1 {
        assert(sign * d == d) by (nonlinear_arith) requires sign == 1;
    }
    if sign == -1 {
        assert(sign * d == -d) by (nonlinear_arith) requires sign == -1;
    }
}

/// Entry `(r, c)` of the adjugate is the determinant of the minor, negated
/// when `r + c` is odd.
proof fn lemma_adj_entry_sign(m: Seq<i32>, n: int, r: int, c: int)
    ensures
        (r + c) % 2 == 0 ==> adj_entry(m, n, r, c) == det_value(minor_spec(m, n, r, c)),
        (r + c) % 2 != 0 ==> adj_entry(m, n, r, c) == -det_value(minor_spec(m, n, r, c)),
{
    lemma_sign_mul(if (r + c) % 2 == 0 { 1int } else { -1int }, det_value(minor_spec(m, n, r, c)));
}

/// The adjugate of a side-3 matrix holds its cofactors, transposed.
proof fn lemma_adjugate3(m: Seq<i32>, r: int, c: int)
    requires
        m.len() == 9,
        adjugate_ok(m),
        0 <= r < 3,
        0 <= c < 3,
    ensures
        adjugate_spec(m, 3)[3 * c + r] == cof3(m, r, c),
{
    lemma_minor3(m, r, c);
    assert(side(m.len() as int) == 3);
    assert(adj_entry_ok(m, 3, r, c));
    lemma_adj_entry_sign(m, 3, r, c);
    assert((3 * c + r) % 3 == r && (3 * c + r) / 3 == c) by (nonlinear_arith)
        requires 0 <= r < 3, 0 <= c < 3;
}

/// The adjugate of a side-2 matrix: `[d, -b, -c, a]` for `[a, b, c, d]`.
proof fn lemma_adjugate2(m: Seq<i32>)
    requires
        m.len() == 4,
        adjugate_ok(m),
    ensures
        adjugate_spec(m, 2).len() == 4,
        adjugate_spec(m, 2)[0] == m[3],
        adjugate_spec(m, 2)[1] == -m[1],
        adjugate_spec(m, 2)[2] == -m[2],
        adjugate_spec(m, 2)[3] == m[0],
{
    reveal_with_fuel(minor_rows, 3);
    reveal_with_fuel(row_part, 3);
    assert(minor_spec(m, 2, 0, 0) =~= seq![m[3]]);
    assert(minor_spec(m, 2, 1, 0) =~= seq![m[1]]);
    assert(minor_spec(m, 2, 0, 1) =~= seq![m[2]]);
    assert(minor_spec(m, 2, 1, 1) =~= seq![m[0]]);
    assert(side(m.len() as int) == 2);
    assert(adj_entry_ok(m, 2, 0, 0) && adj_entry_ok(m, 2, 1, 0) && adj_entry_ok(m, 2, 0, 1) && adj_entry_ok(m, 2, 1, 1));
    lemma_adj_entry_sign(m, 2, 0, 0);
    lemma_adj_entry_sign(m, 2, 1, 0);
    lemma_adj_entry_sign(m, 2, 0, 1);
    lemma_adj_entry_sign(m, 2, 1, 1);
}

/// The adjugate identity: a square matrix of side 1 to 3 times its adjugate,
/// in either order, is its determinant times the identity. The entries are
/// the exact integer sums of products (the adjugate's own entries fitting in
/// `i32`, as [`matrix_adjugate`] requires).
pub proof fn lemma_adjugate_identity(mat: Seq<i32>, i: int, j: int)
    requires
        valid_len(mat.len() as int),
        adjugate_ok(mat),
        0 <= i < side(mat.len() as int),
        0 <= j < side(mat.len() as int),
    ensures
        mm_dot(mat, adjugate_result(mat), side(mat.len() as int), i, j, side(mat.len() as int)) == if i == j {
            det_value(mat)
        } else {
            0
        },
        mm_dot(adjugate_result(mat), mat, side(mat.len() as int), i, j, side(mat.len() as int)) == if i == j {
            det_value(mat)
        } else {
            0
        },
{
    let n = side(mat.len() as int);
    let a = adjugate_result(mat);
    reveal_with_fuel(mm_dot, 4);
    if n == 1 {
        reveal_with_fuel(minor_rows, 2);
        assert(minor_spec(mat, 1, 0, 0) =~= Seq::<i32>::empty());
        assert(side(mat.len() as int) == 1);
        assert(adj_entry_ok(mat, 1, 0, 0));
        lemma_adj_entry_sign(mat, 1, 0, 0);
        assert(a =~= seq![1i32]);
        assert(i == 0 && j == 0);
        let x = mat[0] as int;
        let one = a[0] as int;
        assert(one == 1);
        assert(x * one == x && one * x == x) by (nonlinear_arith) requires one == 1;
        assert(mm_dot(mat, a, 1, 0, 0, 1) == x * one);
        assert(mm_dot(a, mat, 1, 0, 0, 1) == one * x);
    } else if n == 2 {
        lemma_adjugate2(mat);
        let (m0, m1, m2, m3) = (mat[0] as int, mat[1] as int, mat[2] as int, mat[3] as int);
        assert(i == 0 || i == 1);
        assert(j == 0 || j == 1);
        assert(m0 * (-m1) + m1 * m0 == 0 && m2 * m3 + m3 * (-m2) == 0 && (-m1) * m0 + m0 * m1 == 0 && m3 * m2
            + (-m2) * m3 == 0 && m3 * m0 + (-m1) * m2 == m0 * m3 - m1 * m2 && (-m2) * m1 + m0 * m3 == m0 * m3
            - m1 * m2 && m2 * (-m1) + m3 * m0 == m0 * m3 - m1 * m2) by (nonlinear_arith);
        assert(a == adjugate_spec(mat, 2));
        assert(a[0] == m3 && a[1] == -m1 && a[2] == -m2 && a[3] == m0);
        assert(mm_dot(mat, a, 2, 0, 0, 2) == m0 * m3 + m1 * (-m2));
        assert(mm_dot(mat, a, 2, 0, 1, 2) == m0 * (-m1) + m1 * m0);
        assert(mm_dot(mat, a, 2, 1, 0, 2) == m2 * m3 + m3 * (-m2));
        assert(mm_dot(mat, a, 2, 1, 1, 2) == m2 * (-m1) + m3 * m0);
        assert(mm_dot(a, mat, 2, 0, 0, 2) == m3 * m0 + (-m1) * m2);
        assert(mm_dot(a, mat, 2, 0, 1, 2) == m3 * m1 + (-m1) * m3);
        assert(mm_dot(a, mat, 2, 1, 0, 2) == (-m2) * m0 + m0 * m2);
        assert(mm_dot(a, mat, 2, 1, 1, 2) == (-m2) * m1 + m0 * m3);
        assert(m3 * m1 + (-m1) * m3 == 0 && (-m2) * m0 + m0 * m2 == 0 && m0 * m3 + m1 * (-m2) == m0 * m3
            - m1 * m2) by (nonlinear_arith);
        assert(mm_dot(mat, a, 2, i, j, 2) == if i == j { det2(mat) } else { 0 });
        assert(mm_dot(a, mat, 2, i, j, 2) == if i == j { det2(mat) } else { 0 });
    } else {
        assert(n == 3);
        lemma_laplace3(mat);
        assert forall|r: int, c: int| 0 <= r < 3 && 0 <= c < 3 implies #[trigger] a[3 * c + r] == cof3(mat, r, c) by {
            lemma_adjugate3(mat, r, c);
        }
        assert(a[3 * 0 + j] == cof3(mat, j, 0) && a[3 * 1 + j] == cof3(mat, j, 1) && a[3 * 2 + j] == cof3(mat, j, 2));
        assert(a[3 * i + 0] == cof3(mat, 0, i) && a[3 * i + 1] == cof3(mat, 1, i) && a[3 * i + 2] == cof3(mat, 2, i));
        let x = mat[3 * i] as int;
        let y = mat[3 * i + 1] as int;
        let z = mat[3 * i + 2] as int;
        assert(mm_dot(mat, a, 3, i, j, 3) == x * cof3(mat, j, 0) + y * cof3(mat, j, 1) + z * cof3(mat, j, 2));
        let u = cof3(mat, 0, i);
        let v = cof3(mat, 1, i);
        let w = cof3(mat, 2, i);
        assert(mm_dot(a, mat, 3, i, j, 3) == u * mat[j] + v * mat[3 + j] + w * mat[6 + j]);
        assert(u * mat[j] + v * mat[3 + j] + w * mat[6 + j] == mat[j] * u + mat[3 + j] * v + mat[6 + j] * w)
            by (nonlinear_arith);
        assert(det_value(mat) == det3(mat));
        assert(mm_dot(mat, a, 3, i, j, 3) == if i == j { det3(mat) } else { 0 });
        assert(mm_dot(a, mat, 3, i, j, 3) == if i == j { det3(mat) } else { 0 });
    }
}

/// A sum of products keeps its residue when each factor of the second matrix
/// is replaced by one congruent to `c` times it.
proof fn lemma_mm_dot_congruent(a: Seq<i32>, b: Seq<i32>, b2: Seq<i32>, n: int, i: int, j: int, k: int, c: int, m: int)
    requires
        m > 0,
        forall|t: int| 0 <= t < k ==> #[trigger] (b2[t * n + j] as int % m) == (c * b[t * n + j]) % m,
    ensures
        mm_dot(a, b2, n, i, j, k) % m == (c * mm_dot(a, b, n, i, j, k)) % m,
    decreases k,
{
    if k > 0 {
        lemma_mm_dot_congruent(a, b, b2, n, i, j, k - 1, c, m);
        let s2 = mm_dot(a, b2, n, i, j, k - 1);
        let s1 = mm_dot(a, b, n, i, j, k - 1);
        let x = a[i * n + k - 1] as int;
        let y2 = b2[(k - 1) * n + j] as int;
        let y = b[(k - 1) * n + j] as int;
        assert(y2 % m == (c * y) % m);
        vstd::arithmetic::div_mod::lemma_add_mod_noop(s2, x * y2, m);
        vstd::arithmetic::div_mod::lemma_mul_mod_noop_right(x, y2, m);
        vstd::arithmetic::div_mod::lemma_mul_mod_noop_right(x, c * y, m);
        assert(x * (c * y) == c * (x * y)) by (nonlinear_arith);
        assert(c * (s1 + x * y) == c * s1 + c * (x * y)) by (nonlinear_arith);
        vstd::arithmetic::div_mod::lemma_add_mod_noop(c * s1, c * (x * y), m);
    }
}

/// The last step of both inverse laws: a sum congruent to `inv` times the
/// diagonal of `det · I`, where `inv` inverts `det` modulo `mi`.
proof fn lemma_unit_diag(total: int, inv: int, s: int, det: int, dm: int, mi: int, diag: bool)
    requires
        mi > 1,
        total % mi == (inv * s) % mi,
        dm == det % mi,
        (inv * dm) % mi == 1,
        diag ==> s == det,
        !diag ==> s == 0,
    ensures
        total % mi == if diag { 1int } else { 0int },
{
    if diag {
        vstd::arithmetic::div_mod::lemma_mul_mod_noop_right(inv, det, mi);
    } else {
        assert(inv * s == 0) by (nonlinear_arith) requires s == 0;
        vstd::arithmetic::div_mod::lemma_small_mod(0nat, mi as nat);
    }
}

/// The inverse modulo `m` is also a right inverse: the matrix times a
/// non-empty result of [`matrix_inverse_module`] is the identity modulo `m`
/// (entry by entry, on the exact integer sums).
pub proof fn lemma_inverse_module_right_inverse(mat: Seq<i32>, m: u32, i: int, j: int)
    requires
        valid_len(mat.len() as int),
        0 < m <= i32::MAX,
        inverse_ok(mat, m),
        inverse_result(mat, m).len() > 0,
        0 <= i < side(mat.len() as int),
        0 <= j < side(mat.len() as int),
    ensures
        mm_dot(mat, inverse_result(mat, m), side(mat.len() as int), i, j, side(mat.len() as int)) % (m as int)
            == if i == j { 1int } else { 0int },
{
    let n = side(mat.len() as int);
    let mi = m as int;
    let det = determinant_result(mat);
    let det_mod = module_u(det, m) as i32;
    let inv = inverse_coefficient(m as i32, det_mod);
    let adj = adjugate_result(mat);
    let e = inv as i32;
    let r = inverse_result(mat, m);
    assert(det != 0 && inv != 0 && module_u(inv * det_mod, m) == 1);
    assert(r == reduced_result(scaled_result(adj, e), m));
    // the reductions are the ordinary residues
    lemma_module_positive(det, mi);
    assert(det_mod as int == det % mi);
    lemma_module_positive(inv * det_mod, mi);
    assert((inv * det_mod) % mi == 1);
    assert(det_mod >= 1) by {
        if det_mod == 0 {
            assert(inv * det_mod == 0) by (nonlinear_arith) requires det_mod == 0;
        }
    }
    assert(i32::MIN <= inv <= i32::MAX) by (nonlinear_arith)
        requires det_mod >= 1, i32::MIN <= inv * det_mod <= i32::MAX;
    assert(e as int == inv);
    // the adjugate identity
    lemma_adjugate_identity(mat, i, j);
    assert(adj.len() == n * n);
    // each entry of the result is congruent to inv times the adjugate's
    assert forall|t: int| 0 <= t < n implies #[trigger] (r[t * n + j] as int % mi) == (inv * adj[t * n + j])
        % mi by {
        lemma_row_major(t, j, n);
        let k = t * n + j;
        assert(in_i32(adj[k] * e));
        lemma_module_positive(adj[k] * e, mi);
        assert(r[k] as int == (adj[k] * inv) % mi);
        vstd::arithmetic::div_mod::lemma_mod_twice(adj[k] * inv, mi);
        assert(adj[k] * inv == inv * adj[k]) by (nonlinear_arith);
    }
    lemma_mm_dot_congruent(mat, adj, r, n, i, j, n, inv, mi);
    let s = mm_dot(mat, adj, n, i, j, n);
    lemma_unit_diag(mm_dot(mat, r, n, i, j, n), inv, s, det, det_mod as int, mi, i == j);
}

/// As [`lemma_mm_dot_congruent`], with the factors of the first matrix
/// replaced.
proof fn lemma_mm_dot_congruent_left(a: Seq<i32>, a2: Seq<i32>, b: Seq<i32>, n: int, i: int, j: int, k: int, c: int, m: int)
    requires
        m > 0,
        forall|t: int| 0 <= t < k ==> #[trigger] (a2[i * n + t] as int % m) == (c * a[i * n + t]) % m,
    ensures
        mm_dot(a2, b, n, i, j, k) % m == (c * mm_dot(a, b, n, i, j, k)) % m,
    decreases k,
{
    if k > 0 {
        lemma_mm_dot_congruent_left(a, a2, b, n, i, j, k - 1, c, m);
        let s2 = mm_dot(a2, b, n, i, j, k - 1);
        let s1 = mm_dot(a, b, n, i, j, k - 1);
        let x2 = a2[i * n + k - 1] as int;
        let x = a[i * n + k - 1] as int;
        let y = b[(k - 1) * n + j] as int;
        assert(x2 % m == (c * x) % m);
        vstd::arithmetic::div_mod::lemma_add_mod_noop(s2, x2 * y, m);
        vstd::arithmetic::div_mod::lemma_mul_mod_noop_left(x2, y, m);
        vstd::arithmetic::div_mod::lemma_mul_mod_noop_left(c * x, y, m);
        assert((c * x) * y == c * (x * y)) by (nonlinear_arith);
        assert(c * (s1 + x * y) == c * s1 + c * (x * y)) by (nonlinear_arith);
        vstd::arithmetic::div_mod::lemma_add_mod_noop(c * s1, c * (x * y), m);
    }
}

/// The matrix inverse modulo `m` exists exactly when the determinant is a
/// unit modulo `m`: [`matrix_inverse_module`] gives a non-empty result if and
/// only if the determinant, reduced modulo `m`, is coprime with `m`. (For
/// `m = 1` the result is always empty, although every residue is a unit.)
pub proof fn lemma_inverse_module_exists(mat: Seq<i32>, m: u32)
    requires
        valid_len(mat.len() as int),
        1 < m <= i32::MAX,
        inverse_ok(mat, m),
    ensures
        inverse_result(mat, m).len() > 0 <==> gcd_t(m as int, det_value(mat) % (m as int)) == 1,
{
    let n = side(mat.len() as int);
    let mi = m as int;
    let det = determinant_result(mat);
    assert(det == det_value(mat));
    let det_mod = module_u(det, m) as i32;
    lemma_module_positive(det, mi);
    assert(det_mod as int == det % mi);
    let dm = det_mod as int;
    let g = gcd_t(mi, dm);
    lemma_gcd_divides(mi, dm);
    let inv = inverse_coefficient(m as i32, det_mod);
    if inverse_result(mat, m).len() > 0 {
        // inv * det_mod is 1 modulo m, so every common divisor divides 1
        assert(det != 0 && inv != 0 && module_u(inv * det_mod, m) == 1);
        lemma_module_positive(inv * dm, mi);
        assert((inv * dm) % mi == 1);
        vstd::arithmetic::div_mod::lemma_fundamental_div_mod(inv * dm, mi);
        vstd::arithmetic::div_mod::lemma_fundamental_div_mod(mi, g);
        vstd::arithmetic::div_mod::lemma_fundamental_div_mod(dm, g);
        let q = (inv * dm) / mi;
        let u = dm / g;
        let v = mi / g;
        assert(g * (inv * u - q * v) == 1) by (nonlinear_arith)
            requires
                inv * dm == mi * q + 1,
                mi == g * v,
                dm == g * u;
        assert(g == 1) by (nonlinear_arith)
            requires g > 0, g * (inv * u - q * v) == 1;
    } else {
        if g == 1 {
            // Bezout gives the inverse, so every check of the function passes
            assert(dm < mi);
            assert(ordered(mi, dm) == (mi, dm));
            lemma_bezout(mi, dm);
            let (d, x, y) = xgcd_spec(mi, dm);
            assert(mi * x + dm * y == 1);
            assert(inv == if y > 0 { y } else { (module_u(y, m) as i32) as int });
            lemma_module_positive(y, mi);
            assert(inv % mi == y % mi) by {
                if y <= 0 {
                    vstd::arithmetic::div_mod::lemma_mod_twice(y, mi);
                }
            }
            // inv * dm is 1 modulo m
            vstd::arithmetic::div_mod::lemma_mul_mod_noop_left(inv, dm, mi);
            vstd::arithmetic::div_mod::lemma_mul_mod_noop_left(y, dm, mi);
            assert(y * dm == 1 + mi * (-x)) by (nonlinear_arith) requires mi * x + dm * y == 1;
            vstd::arithmetic::div_mod::lemma_mod_multiples_vanish(-x, 1, mi);
            vstd::arithmetic::div_mod::lemma_small_mod(1nat, mi as nat);
            assert((inv * dm) % mi == 1);
            assert(det != 0) by {
                if det == 0 {
                    vstd::arithmetic::div_mod::lemma_small_mod(0nat, mi as nat);
                    assert(dm == 0);
                    assert(gcd_t(mi, 0) == mi);
                }
            }
            assert(inv != 0) by {
                if inv == 0 {
                    assert(inv * dm == 0) by (nonlinear_arith) requires inv == 0;
                }
            }
            assert(dm >= 1);
            assert(i32::MIN <= inv * dm <= i32::MAX);
            lemma_module_positive(inv * dm, mi);
            assert(module_u(inv * det_mod, m) == 1);
            lemma_inverse_product_identity(mat, m);
            assert(false);
        }
    }
}

/// Once the inverse of the determinant checks out, the product of the
/// candidate inverse with the matrix is the identity modulo `m`.
proof fn lemma_inverse_product_identity(mat: Seq<i32>, m: u32)
    requires
        valid_len(mat.len() as int),
        1 < m <= i32::MAX,
        inverse_ok(mat, m),
        determinant_result(mat) != 0,
        inverse_coefficient(m as i32, module_u(determinant_result(mat), m) as i32) != 0,
        module_u(
            inverse_coefficient(m as i32, module_u(determinant_result(mat), m) as i32) * (module_u(
                determinant_result(mat),
                m,
            ) as i32),
            m,
        ) == 1,
    ensures
        ({
            let det = determinant_result(mat);
            let det_mod = module_u(det, m) as i32;
            let inv = inverse_coefficient(m as i32, det_mod);
            let result = reduced_result(scaled_result(adjugate_result(mat), inv as i32), m);
            reduced_result(product_result(result, mat), m) == identity_spec(
                mat.len() as int,
                sqrt_floor(mat.len() as int),
            )
        }),
{
    let n = side(mat.len() as int);
    let mi = m as int;
    let det = determinant_result(mat);
    let det_mod = module_u(det, m) as i32;
    let inv = inverse_coefficient(m as i32, det_mod);
    let adj = adjugate_result(mat);
    let e = inv as i32;
    let r = reduced_result(scaled_result(adj, e), m);
    let prod = product_result(r, mat);
    let id = identity_spec(mat.len() as int, sqrt_floor(mat.len() as int));
    lemma_module_positive(det, mi);
    assert(det_mod as int == det % mi);
    lemma_module_positive(inv * det_mod, mi);
    assert((inv * det_mod) % mi == 1);
    assert(det_mod >= 1) by {
        if det_mod == 0 {
            assert(inv * det_mod == 0) by (nonlinear_arith) requires det_mod == 0;
        }
    }
    assert(i32::MIN <= inv <= i32::MAX) by (nonlinear_arith)
        requires det_mod >= 1, i32::MIN <= inv * det_mod <= i32::MAX;
    assert(e as int == inv);
    assert(n * n == mat.len());
    lemma_sqrt_floor_unique(mat.len() as int, n);
    assert(adj.len() == n * n);
    assert(r.len() == n * n);
    assert(prod == product_spec(r, mat, n));
    assert forall|k: int| 0 <= k < n * n implies #[trigger] reduced_result(prod, m)[k] == id[k] by {
        let i = k / n;
        let j = k % n;
        vstd::arithmetic::div_mod::lemma_fundamental_div_mod(k, n);
        vstd::arithmetic::div_mod::lemma_div_pos_is_pos(k, n);
        vstd::arithmetic::div_mod::lemma_mod_bound(k, n);
        assert(i < n) by (nonlinear_arith)
            requires k == n * i + j, 0 <= j, k < n * n, n > 0;
        // each factor of the candidate is congruent to inv times the adjugate's
        assert forall|t: int| 0 <= t < n implies #[trigger] (r[i * n + t] as int % mi) == (inv * adj[i
            * n + t]) % mi by {
            lemma_row_major(i, t, n);
            let kk = i * n + t;
            assert(in_i32(adj[kk] * e));
            lemma_module_positive(adj[kk] * e, mi);
            vstd::arithmetic::div_mod::lemma_mod_twice(adj[kk] * inv, mi);
            assert(adj[kk] * inv == inv * adj[kk]) by (nonlinear_arith);
        }
        lemma_mm_dot_congruent_left(adj, r, mat, n, i, j, n, inv, mi);
        lemma_adjugate_identity(mat, i, j);
        let s = mm_dot(adj, mat, n, i, j, n);
        let total = mm_dot(r, mat, n, i, j, n);
        // the sum fits in i32
        assert(mm_step_ok(r, mat, n, i, j, n - 1));
        assert(in_i32(total));
        assert(prod[k] as int == total);
        lemma_module_positive(total, mi);
        lemma_unit_diag(total, inv, s, det, det_mod as int, mi, i == j);
    }
    assert(reduced_result(prod, m) =~= id);
}

} // verus!
