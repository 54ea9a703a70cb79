//! Hill cipher over `i32` blocks and the block modes built on it
//! (ECB, CBC, CFB, OFB).
//!
//! A block of length `n` is multiplied by an `n × n` key matrix stored row by
//! row, and every coordinate of the product is reduced with [`module`].
//! Every function here rejects a key whose length is not the square of the
//! block length by returning the one-element vector `[1]`.
use vstd::prelude::*;
use crate::arith::{in_i32, lemma_rem_t_bounds, lemma_rem_t_congruent, rem_defined, rem_i32, rem_t};

verus! {

// ---------------------------------------------------------------------------
// Reduction modulo m
// ---------------------------------------------------------------------------

/// `((a % m) + m) % m` with truncating remainders: for `m > 0` the
/// representative of `a` in `[0, m)` (see [`lemma_module_positive`]).
pub open spec fn module_t(a: int, m: int) -> int {
    rem_t(rem_t(a, m) + m, m)
}

/// The inputs on which `((a % m) + m) % m` evaluates on `i32` without a panic.
pub open spec fn module_ok(a: i32, m: i32) -> bool {
    rem_defined(a, m) && in_i32(rem_t(a as int, m as int) + m)
}

/// For a positive modulus the reduction is the ordinary residue in `[0, m)`.
pub proof fn lemma_module_positive(a: int, m: int)
    requires
        m > 0,
    ensures
        module_t(a, m) == a % m,
        0 <= module_t(a, m) < m,
{
    let r = rem_t(a, m);
    lemma_rem_t_bounds(a, m);
    lemma_rem_t_congruent(a, m);
    assert(0 < r + m < 2 * m);
    lemma_rem_t_bounds(r + m, m);
    assert(rem_t(r + m, m) == (r + m) % m);
    // a == r + k*m for some k, so a % m == (r + m) % m
    let k = (a - r) / m;
    vstd::arithmetic::div_mod::lemma_fundamental_div_mod(a - r, m);
    assert(a == (r + m) + (k - 1) * m) by (nonlinear_arith)
        requires a - r == m * k;
    vstd::arithmetic::div_mod::lemma_mod_multiples_vanish(k - 1, r + m, m);
}

/// Always-non-negative remainder (for a positive modulus): `((a % m) + m) % m`.
pub fn module(a: i32, m: i32) -> (r: i32)
    requires
        module_ok(a, m),
    ensures
        r == module_t(a as int, m as int),
        m > 0 ==> 0 <= r < m && r == (a as int) % (m as int),
{
    proof {
        if m > 0 {
            lemma_module_positive(a as int, m as int);
        }
    }
    let r1 = rem_i32(a, m);
    proof {
        lemma_rem_t_bounds(a as int, m as int);
    }
    let s = r1 + m;
    rem_i32(s, m)
}

// ---------------------------------------------------------------------------
// Hill cipher
// ---------------------------------------------------------------------------

/// `Σ_{j < k} block[j] * key[j * n + i]`: the first `k` terms of coordinate
/// `i` of the product of the row vector `block` with the matrix `key`.
pub open spec fn dot(block: Seq<i32>, key: Seq<i32>, n: int, i: int, k: int) -> int
    decreases k,
{
    if k <= 0 {
        0
    } else {
        dot(block, key, n, i, k - 1) + block[k - 1] * key[(k - 1) * n + i]
    }
}

/// Step `j` of coordinate `i` stays in `i32`: the product and the running sum.
pub open spec fn step_fits(block: Seq<i32>, key: Seq<i32>, i: int, j: int) -> bool {
    let n = block.len() as int;
    &&& in_i32(block[j] * key[j * n + i])
    &&& in_i32(dot(block, key, n, i, j + 1))
}

/// The inputs on which the Hill product of `block` with `key` and its
/// reduction modulo `m` evaluate on `i32` without a panic.
pub open spec fn hill_fits(block: Seq<i32>, key: Seq<i32>, m: i32) -> bool {
    let n = block.len() as int;
    &&& forall|i: int, j: int| 0 <= i < n && 0 <= j < n ==> #[trigger] step_fits(block, key, i, j)
    &&& forall|i: int|
        0 <= i < n ==> #[trigger] in_i32(dot(block, key, n, i, n)) && module_ok(
            dot(block, key, n, i, n) as i32,
            m,
        )
}

/// The Hill encryption of `block`: coordinate `i` is
/// `module(Σ_j block[j] * key[j * n + i], m)`.
pub open spec fn hill_spec(block: Seq<i32>, key: Seq<i32>, m: i32) -> Seq<i32> {
    let n = block.len() as int;
    Seq::new(block.len(), |i: int| module_t(dot(block, key, n, i, n), m as int) as i32)
}

proof fn lemma_matrix_index(i: int, j: int, n: int)
    requires
        0 <= i < n,
        0 <= j < n,
    ensures
        0 <= j * n + i < n * n,
{
    assert(0 <= j * n + i < n * n) by (nonlinear_arith)
        requires 0 <= i < n, 0 <= j < n;
}

/// Hill cipher: multiplies the row vector `block` by the square matrix `key`
/// and reduces every coordinate with [`module`]. Returns `[1]` when
/// `key.len()` is not `block.len()²`.
pub fn hill_cipher(block: &[i32], key: &[i32], m: i32) -> (cipher: Vec<i32>)
    requires
        block.len() * block.len() <= usize::MAX,
        key.len() == block.len() * block.len() ==> hill_fits(block@, key@, m),
    ensures
        key.len() != block.len() * block.len() ==> cipher@ == seq![1i32],
        key.len() == block.len() * block.len() ==> cipher@ == hill_spec(block@, key@, m),
{
    let n = block.len();
    if key.len() != n * n {
        return vec![1];
    }
    let ghost nn = n as int;
    let mut cipher: Vec<i32> = Vec::new();
    let mut i: usize = 0;
    while i < n
        invariant
            n == block.len(),
            key.len() == n * n,
            hill_fits(block@, key@, m),
            i <= n,
            cipher@ == hill_spec(block@, key@, m).take(i as int),
        decreases n - i,
    {
        let mut sum: i32 = 0;
        let mut j: usize = 0;
        while j < n
            invariant
                n == block.len(),
                key.len() == n * n,
                hill_fits(block@, key@, m),
                i < n,
                j <= n,
                sum == dot(block@, key@, n as int, i as int, j as int),
            decreases n - j,
        {
            proof {
                lemma_matrix_index(i as int, j as int, n as int);
                assert(step_fits(block@, key@, i as int, j as int));
            }
            let t = block[j] * key[j * n + i];
            sum = sum + t;
            j = j + 1;
        }
        proof {
            assert(in_i32(dot(block@, key@, n as int, i as int, n as int)));
        }
        let r = module(sum, m);
        cipher.push(r);
        proof {
            assert(cipher@ =~= hill_spec(block@, key@, m).take(i + 1));
        }
        i = i + 1;
    }
    proof {
        assert(cipher@ =~= hill_spec(block@, key@, m));
    }
    cipher
}


// ---------------------------------------------------------------------------
// Block helpers
// ---------------------------------------------------------------------------

/// Coordinate-wise exclusive or of two blocks, as long as the shorter one.
pub open spec fn xor_spec(a: Seq<i32>, b: Seq<i32>) -> Seq<i32> {
    let len = if a.len() <= b.len() { a.len() } else { b.len() };
    Seq::new(len, |i: int| a[i] ^ b[i])
}

/// Exclusive or of two blocks, coordinate by coordinate; the result is as long
/// as the shorter block.
pub fn block_xor(block_1: &[i32], block_2: &[i32]) -> (result: Vec<i32>)
    ensures
        result@ == xor_spec(block_1@, block_2@),
{
    let len = if block_1.len() <= block_2.len() { block_1.len() } else { block_2.len() };
    let mut result: Vec<i32> = Vec::new();
    let mut i: usize = 0;
    while i < len
        invariant
            len == (if block_1.len() <= block_2.len() { block_1.len() } else { block_2.len() }),
            i <= len,
            result@ == xor_spec(block_1@, block_2@).take(i as int),
        decreases len - i,
    {
        result.push(block_1[i] ^ block_2[i]);
        proof {
            assert(result@ =~= xor_spec(block_1@, block_2@).take(i + 1));
        }
        i = i + 1;
    }
    proof {
        assert(result@ =~= xor_spec(block_1@, block_2@));
    }
    result
}

/// `k` copies of the filler value `1`.
pub open spec fn ones(k: int) -> Seq<i32> {
    Seq::new(k as nat, |i: int| 1i32)
}

/// The message extended with `1`s up to a multiple of `n`, as ECB and CBC do.
pub open spec fn pad_full(msg: Seq<i32>, n: int) -> Seq<i32> {
    msg + ones((n - (msg.len() as int) % n) % n)
}

/// How many `1`s CFB and OFB add, and later cut from the end of the output:
/// `n - (msg.len() as int) % n`, which is `n` (not `0`) when `n` divides the length.
pub open spec fn stream_padding(msg: Seq<i32>, n: int) -> int {
    n - (msg.len() as int) % n
}

/// The message as CFB and OFB extend it: with `stream_padding` `1`s when `n`
/// does not divide its length, unchanged otherwise.
pub open spec fn pad_stream(msg: Seq<i32>, n: int) -> Seq<i32> {
    if (msg.len() as int) % n != 0 { msg + ones(stream_padding(msg, n)) } else { msg }
}

fn with_padding(msg: &[i32], padding: usize) -> (p: Vec<i32>)
    requires
        msg.len() + padding <= usize::MAX,
    ensures
        p@ == msg@ + ones(padding as int),
{
    let mut p = vstd::slice::slice_to_vec(msg);
    let mut k: usize = 0;
    while k < padding
        invariant
            k <= padding,
            msg.len() + padding <= usize::MAX,
            p@ == msg@ + ones(k as int),
        decreases padding - k,
    {
        p.push(1);
        proof {
            assert(p@ =~= msg@ + ones(k + 1));
        }
        k = k + 1;
    }
    p
}

fn block_at(v: &Vec<i32>, start: usize, n: usize) -> (b: Vec<i32>)
    requires
        start + n <= v.len(),
    ensures
        b@ == v@.subrange(start as int, start + n),
{
    vstd::slice::slice_to_vec(&v.as_slice()[start..start + n])
}

pub(crate) fn same_block(a: &[i32], b: &[i32]) -> (eq: bool)
    ensures
        eq == (a@ == b@),
{
    if a.len() != b.len() {
        return false;
    }
    let mut i: usize = 0;
    while i < a.len()
        invariant
            a.len() == b.len(),
            i <= a.len(),
            forall|k: int| 0 <= k < i ==> a@[k] == b@[k],
        decreases a.len() - i,
    {
        if a[i] != b[i] {
            return false;
        }
        i = i + 1;
    }
    proof {
        assert(a@ =~= b@);
    }
    true
}

/// A positive multiple of `n` is at least `n`, and removing `n` keeps it a multiple.
proof fn lemma_multiple_step(x: int, n: int)
    requires
        n > 0,
        x > 0,
        x % n == 0,
    ensures
        x >= n,
        (x - n) % n == 0,
{
    vstd::arithmetic::div_mod::lemma_fundamental_div_mod(x, n);
    let q = x / n;
    assert(x == n * q);
    assert(q >= 1) by (nonlinear_arith)
        requires x == n * q, x > 0, n > 0;
    assert(x >= n) by (nonlinear_arith)
        requires x == n * q, q >= 1, n > 0;
    assert(x - n == n * (q - 1)) by (nonlinear_arith)
        requires x == n * q;
    vstd::arithmetic::div_mod::lemma_mod_multiples_basic(q - 1, n);
    assert((q - 1) * n == n * (q - 1)) by (nonlinear_arith);
}

/// Both paddings make the length a multiple of `n`.
proof fn lemma_padding_multiple(len: int, n: int)
    requires
        n > 0,
        len >= 0,
    ensures
        (len + (n - len % n) % n) % n == 0,
        len % n != 0 ==> (len + (n - len % n)) % n == 0,
        (n - len % n) % n < n,
        0 <= (n - len % n) % n,
{
    let r = len % n;
    assert(0 <= r < n);
    vstd::arithmetic::div_mod::lemma_fundamental_div_mod(len, n);
    let q = len / n;
    if r == 0 {
        assert((n - r) % n == 0) by {
            vstd::arithmetic::div_mod::lemma_mod_self_0(n);
        }
        assert(len + 0 == n * q + 0);
        vstd::arithmetic::div_mod::lemma_mod_multiples_basic(q, n);
        assert(q * n == n * q) by (nonlinear_arith);
    } else {
        assert((n - r) % n == n - r) by {
            vstd::arithmetic::div_mod::lemma_small_mod((n - r) as nat, n as nat);
        }
        assert(len + (n - r) == (q + 1) * n) by (nonlinear_arith)
            requires len == n * q + r;
        vstd::arithmetic::div_mod::lemma_mod_multiples_basic(q + 1, n);
    }
}

// ---------------------------------------------------------------------------
// Electronic codebook
// ---------------------------------------------------------------------------

/// ECB over a message whose length is a multiple of `n`: every block of `n`
/// values is encrypted on its own.
pub open spec fn ecb_spec(p: Seq<i32>, n: int, key: Seq<i32>, m: i32) -> Seq<i32>
    decreases p.len(),
{
    if n <= 0 || p.len() < n {
        Seq::empty()
    } else {
        hill_spec(p.take(n), key, m) + ecb_spec(p.skip(n), n, key, m)
    }
}

/// Every block that ECB encrypts stays within `i32`.
pub open spec fn ecb_ok(p: Seq<i32>, n: int, key: Seq<i32>, m: i32) -> bool
    decreases p.len(),
{
    if n <= 0 || p.len() < n {
        true
    } else {
        hill_fits(p.take(n), key, m) && ecb_ok(p.skip(n), n, key, m)
    }
}

proof fn lemma_ecb_len(p: Seq<i32>, n: int, key: Seq<i32>, m: i32)
    requires
        n > 0,
        (p.len() as int) % n == 0,
    ensures
        ecb_spec(p, n, key, m).len() == p.len(),
    decreases p.len(),
{
    if p.len() >= n && p.len() > 0 {
        lemma_multiple_step(p.len() as int, n);
        lemma_ecb_len(p.skip(n), n, key, m);
    } else if p.len() > 0 {
        lemma_multiple_step(p.len() as int, n);
    }
}

fn find_block(keys: &Vec<Vec<i32>>, block: &Vec<i32>) -> (found: Option<usize>)
    ensures
        found matches Some(k) ==> k < keys.len() && keys@[k as int]@ == block@,
        found is None ==> forall|k: int| 0 <= k < keys.len() ==> keys@[k]@ != block@,
{
    let mut k: usize = 0;
    while k < keys.len()
        invariant
            k <= keys.len(),
            forall|j: int| 0 <= j < k ==> keys@[j]@ != block@,
        decreases keys.len() - k,
    {
        if same_block(keys[k].as_slice(), block.as_slice()) {
            return Some(k);
        }
        k = k + 1;
    }
    None
}

/// Electronic codebook mode with the Hill cipher: `C_i = E_k(P_i)`.
///
/// The message is padded with `1`s to a multiple of `block_size`, each block
/// is encrypted independently (blocks already seen are taken from a cache),
/// and the output is cut back to the length of the message.
pub fn modus_ecb_hc(msg: &[i32], block_size: usize, key: &[i32], m: i32) -> (cipher: Vec<i32>)
    requires
        block_size * block_size <= usize::MAX,
        msg.len() + block_size <= usize::MAX,
        key.len() == block_size * block_size ==> block_size > 0 && ecb_ok(
            pad_full(msg@, block_size as int),
            block_size as int,
            key@,
            m,
        ),
    ensures
        key.len() != block_size * block_size ==> cipher@ == seq![1i32],
        key.len() == block_size * block_size ==> cipher@ == ecb_spec(
            pad_full(msg@, block_size as int),
            block_size as int,
            key@,
            m,
        ).take(msg.len() as int),
{
    if key.len() != block_size * block_size {
        return vec![1];
    }
    let n = block_size;
    let padding = (n - (msg.len() % n)) % n;
    proof {
        lemma_padding_multiple(msg.len() as int, n as int);
    }
    let p = with_padding(msg, padding);
    let ghost whole = ecb_spec(p@, n as int, key@, m);
    let mut cipher: Vec<i32> = Vec::new();
    // The cache of blocks already encrypted is kept as two vectors searched in
    // order: the contracts of `std::collections::HashMap` hold only for keys
    // with a proven key model (integers, `bool`), which `Vec<i32>` lacks.
    let mut cache_keys: Vec<Vec<i32>> = Vec::new();
    let mut cache_vals: Vec<Vec<i32>> = Vec::new();
    let mut start: usize = 0;
    proof {
        assert(p@.skip(0) =~= p@);
        assert(cipher@ + whole =~= whole);
    }
    while start < p.len()
        invariant
            n == block_size,
            n > 0,
            key.len() == n * n,
            n * n <= usize::MAX,
            p@ == pad_full(msg@, n as int),
            whole == ecb_spec(p@, n as int, key@, m),
            start <= p.len(),
            (p.len() - start) % (n as int) == 0,
            ecb_ok(p@.skip(start as int), n as int, key@, m),
            whole == cipher@ + ecb_spec(p@.skip(start as int), n as int, key@, m),
            cache_keys.len() == cache_vals.len(),
            forall|k: int|
                0 <= k < cache_keys.len() ==> #[trigger] cache_keys@[k]@.len() == n
                    && cache_vals@[k]@ == hill_spec(cache_keys@[k]@, key@, m),
        decreases p.len() - start,
    {
        proof {
            lemma_multiple_step((p.len() - start) as int, n as int);
        }
        let block = block_at(&p, start, n);
        let ghost rest = p@.skip(start as int);
        proof {
            assert(rest.take(n as int) =~= block@);
            assert(rest.skip(n as int) =~= p@.skip(start + n));
        }
        let mut cipher_block: Vec<i32>;
        match find_block(&cache_keys, &block) {
            Some(k) => {
                cipher_block = vstd::slice::slice_to_vec(cache_vals[k].as_slice());
                proof {
                    assert(cache_keys@[k as int]@.len() == n);
                }
            },
            None => {
                cipher_block = hill_cipher(block.as_slice(), key, m);
                let stored = vstd::slice::slice_to_vec(cipher_block.as_slice());
                let ghost b = block@;
                cache_keys.push(block);
                cache_vals.push(stored);
                proof {
                    assert forall|k: int|
                        0 <= k < cache_keys.len() implies #[trigger] cache_keys@[k]@.len() == n
                            && cache_vals@[k]@ == hill_spec(cache_keys@[k]@, key@, m) by {
                        if k == cache_keys.len() - 1 {
                            assert(cache_keys@[k]@ == b);
                        }
                    }
                }
            },
        }
        proof {
            assert(cipher_block@ == hill_spec(rest.take(n as int), key@, m));
        }
        cipher.append(&mut cipher_block);
        proof {
            assert(whole =~= cipher@ + ecb_spec(p@.skip(start + n), n as int, key@, m));
        }
        start = start + n;
    }
    proof {
        assert(p@.skip(start as int).len() == 0);
        assert(cipher@ =~= whole);
        lemma_ecb_len(p@, n as int, key@, m);
    }
    let len = cipher.len();
    cipher.truncate(len - padding);
    cipher
}


// ---------------------------------------------------------------------------
// Chained modes
// ---------------------------------------------------------------------------

/// CBC: `C_i = E_k(P_i xor C_{i-1})`, starting from `prev = C_0`.
pub open spec fn cbc_spec(p: Seq<i32>, prev: Seq<i32>, n: int, key: Seq<i32>, m: i32) -> Seq<i32>
    decreases p.len(),
{
    if n <= 0 || p.len() < n {
        Seq::empty()
    } else {
        let c = hill_spec(xor_spec(p.take(n), prev), key, m);
        c + cbc_spec(p.skip(n), c, n, key, m)
    }
}

/// Every block that CBC encrypts stays within `i32`.
pub open spec fn cbc_ok(p: Seq<i32>, prev: Seq<i32>, n: int, key: Seq<i32>, m: i32) -> bool
    decreases p.len(),
{
    if n <= 0 || p.len() < n {
        true
    } else {
        let x = xor_spec(p.take(n), prev);
        hill_fits(x, key, m) && cbc_ok(p.skip(n), hill_spec(x, key, m), n, key, m)
    }
}

/// CFB: `C_i = P_i xor E_k(C_{i-1})`, starting from `prev = C_0`.
pub open spec fn cfb_spec(p: Seq<i32>, prev: Seq<i32>, n: int, key: Seq<i32>, m: i32) -> Seq<i32>
    decreases p.len(),
{
    if n <= 0 || p.len() < n {
        Seq::empty()
    } else {
        let c = xor_spec(p.take(n), hill_spec(prev, key, m));
        c + cfb_spec(p.skip(n), c, n, key, m)
    }
}

/// Every block that CFB encrypts stays within `i32`.
pub open spec fn cfb_ok(p: Seq<i32>, prev: Seq<i32>, n: int, key: Seq<i32>, m: i32) -> bool
    decreases p.len(),
{
    if n <= 0 || p.len() < n {
        true
    } else {
        let c = xor_spec(p.take(n), hill_spec(prev, key, m));
        hill_fits(prev, key, m) && cfb_ok(p.skip(n), c, n, key, m)
    }
}

/// OFB: `O_i = E_k(O_{i-1})`, `C_i = O_i xor P_i`, starting from `prev = O_0`.
pub open spec fn ofb_spec(p: Seq<i32>, prev: Seq<i32>, n: int, key: Seq<i32>, m: i32) -> Seq<i32>
    decreases p.len(),
{
    if n <= 0 || p.len() < n {
        Seq::empty()
    } else {
        let o = hill_spec(prev, key, m);
        xor_spec(o, p.take(n)) + ofb_spec(p.skip(n), o, n, key, m)
    }
}

/// What [`modus_ofb_hc`] returns for a well-formed key and initial block: OFB
/// of the extended message, with [`stream_padding`] values cut from the end.
pub open spec fn ofb_output(msg: Seq<i32>, c_0: Seq<i32>, n: int, key: Seq<i32>, m: i32) -> Seq<i32> {
    ofb_spec(pad_stream(msg, n), c_0, n, key, m).take(pad_stream(msg, n).len() - stream_padding(msg, n))
}

/// Every block that OFB encrypts stays within `i32`.
pub open spec fn ofb_ok(p: Seq<i32>, prev: Seq<i32>, n: int, key: Seq<i32>, m: i32) -> bool
    decreases p.len(),
{
    if n <= 0 || p.len() < n {
        true
    } else {
        hill_fits(prev, key, m) && ofb_ok(p.skip(n), hill_spec(prev, key, m), n, key, m)
    }
}

proof fn lemma_cbc_len(p: Seq<i32>, prev: Seq<i32>, n: int, key: Seq<i32>, m: i32)
    requires
        n > 0,
        (p.len() as int) % n == 0,
        prev.len() == n,
    ensures
        cbc_spec(p, prev, n, key, m).len() == p.len(),
    decreases p.len(),
{
    if p.len() > 0 {
        lemma_multiple_step(p.len() as int, n);
        let c = hill_spec(xor_spec(p.take(n), prev), key, m);
        lemma_cbc_len(p.skip(n), c, n, key, m);
    }
}

proof fn lemma_cfb_len(p: Seq<i32>, prev: Seq<i32>, n: int, key: Seq<i32>, m: i32)
    requires
        n > 0,
        (p.len() as int) % n == 0,
        prev.len() == n,
    ensures
        cfb_spec(p, prev, n, key, m).len() == p.len(),
    decreases p.len(),
{
    if p.len() > 0 {
        lemma_multiple_step(p.len() as int, n);
        let c = xor_spec(p.take(n), hill_spec(prev, key, m));
        lemma_cfb_len(p.skip(n), c, n, key, m);
    }
}

proof fn lemma_ofb_len(p: Seq<i32>, prev: Seq<i32>, n: int, key: Seq<i32>, m: i32)
    requires
        n > 0,
        (p.len() as int) % n == 0,
        prev.len() == n,
    ensures
        ofb_spec(p, prev, n, key, m).len() == p.len(),
    decreases p.len(),
{
    if p.len() > 0 {
        lemma_multiple_step(p.len() as int, n);
        lemma_ofb_len(p.skip(n), hill_spec(prev, key, m), n, key, m);
    }
}

/// Cipher block chaining mode with the Hill cipher: `C_i = E_k(P_i xor C_{i-1})`.
///
/// Returns `[1]` when the key is not `block_size²` long or the initial block
/// `c_0` is not `block_size` long. Otherwise the message is padded with `1`s to
/// a multiple of `block_size`, chained from `c_0`, and cut back to its length.
pub fn modus_cbc_hc(msg: &[i32], block_size: usize, c_0: &[i32], key: &[i32], m: i32) -> (cipher:
    Vec<i32>)
    requires
        block_size * block_size <= usize::MAX,
        msg.len() + block_size <= usize::MAX,
        key.len() == block_size * block_size && c_0.len() == block_size ==> block_size > 0
            && cbc_ok(pad_full(msg@, block_size as int), c_0@, block_size as int, key@, m),
    ensures
        key.len() != block_size * block_size ==> cipher@ == seq![1i32],
        key.len() == block_size * block_size && c_0.len() != block_size ==> cipher@ == seq![1i32],
        key.len() == block_size * block_size && c_0.len() == block_size ==> cipher@ == cbc_spec(
            pad_full(msg@, block_size as int),
            c_0@,
            block_size as int,
            key@,
            m,
        ).take(msg.len() as int),
{
    if key.len() != block_size * block_size {
        return vec![1];
    }
    if c_0.len() != block_size {
        return vec![1];
    }
    let n = block_size;
    let padding = (n - (msg.len() % n)) % n;
    proof {
        lemma_padding_multiple(msg.len() as int, n as int);
    }
    let p = with_padding(msg, padding);
    let ghost whole = cbc_spec(p@, c_0@, n as int, key@, m);
    let mut cipher: Vec<i32> = Vec::new();
    let mut prev: Vec<i32> = vstd::slice::slice_to_vec(c_0);
    let mut start: usize = 0;
    proof {
        assert(p@.skip(0) =~= p@);
        assert(cipher@ + whole =~= whole);
    }
    while start < p.len()
        invariant
            n == block_size,
            n > 0,
            key.len() == n * n,
            n * n <= usize::MAX,
            p@ == pad_full(msg@, n as int),
            whole == cbc_spec(p@, c_0@, n as int, key@, m),
            start <= p.len(),
            (p.len() - start) % (n as int) == 0,
            prev@.len() == n,
            cbc_ok(p@.skip(start as int), prev@, n as int, key@, m),
            whole == cipher@ + cbc_spec(p@.skip(start as int), prev@, n as int, key@, m),
        decreases p.len() - start,
    {
        proof {
            lemma_multiple_step((p.len() - start) as int, n as int);
        }
        let block = block_at(&p, start, n);
        let ghost rest = p@.skip(start as int);
        proof {
            assert(rest.take(n as int) =~= block@);
            assert(rest.skip(n as int) =~= p@.skip(start + n));
        }
        let x = block_xor(block.as_slice(), prev.as_slice());
        let mut cipher_block = hill_cipher(x.as_slice(), key, m);
        prev = vstd::slice::slice_to_vec(cipher_block.as_slice());
        cipher.append(&mut cipher_block);
        proof {
            assert(whole =~= cipher@ + cbc_spec(p@.skip(start + n), prev@, n as int, key@, m));
        }
        start = start + n;
    }
    proof {
        assert(p@.skip(start as int).len() == 0);
        assert(cipher@ =~= whole);
        lemma_cbc_len(p@, c_0@, n as int, key@, m);
    }
    let len = cipher.len();
    cipher.truncate(len - padding);
    cipher
}

/// The message as CFB and OFB extend it ([`pad_stream`]).
fn stream_input(msg: &[i32], n: usize) -> (p: Vec<i32>)
    requires
        n > 0,
        msg.len() + n <= usize::MAX,
    ensures
        p@ == pad_stream(msg@, n as int),
{
    if msg.len() % n != 0 {
        with_padding(msg, n - (msg.len() % n))
    } else {
        let v = vstd::slice::slice_to_vec(msg);
        proof {
            assert(v@ =~= pad_stream(msg@, n as int));
        }
        v
    }
}

/// Cipher feedback mode with the Hill cipher: `C_i = P_i xor E_k(C_{i-1})`.
///
/// Returns `[1]` on a key that is not `block_size²` long or an initial block
/// that is not `block_size` long. Otherwise the message is padded with
/// [`stream_padding`] `1`s when `block_size` does not divide its length, the
/// blocks are chained from `c_0`, and [`stream_padding`] values are cut from the
/// end of the output; when `block_size` divides the length of the message this
/// drops its last block.
pub fn modus_cfb_hc(msg: &[i32], block_size: usize, c_0: &[i32], key: &[i32], m: i32) -> (cipher:
    Vec<i32>)
    requires
        block_size * block_size <= usize::MAX,
        msg.len() + block_size <= usize::MAX,
        key.len() == block_size * block_size && c_0.len() == block_size ==> block_size > 0
            && msg.len() > 0 && cfb_ok(
            pad_stream(msg@, block_size as int),
            c_0@,
            block_size as int,
            key@,
            m,
        ),
    ensures
        key.len() != block_size * block_size ==> cipher@ == seq![1i32],
        key.len() == block_size * block_size && c_0.len() != block_size ==> cipher@ == seq![1i32],
        key.len() == block_size * block_size && c_0.len() == block_size ==> cipher@ == cfb_spec(
            pad_stream(msg@, block_size as int),
            c_0@,
            block_size as int,
            key@,
            m,
        ).take(
            pad_stream(msg@, block_size as int).len() - stream_padding(msg@, block_size as int),
        ),
{
    if key.len() != block_size * block_size {
        return vec![1];
    }
    if c_0.len() != block_size {
        return vec![1];
    }
    let n = block_size;
    let padding = n - (msg.len() % n);
    proof {
        lemma_padding_multiple(msg.len() as int, n as int);
    }
    let p = stream_input(msg, n);
    proof {
        if msg.len() % n == 0 {
            lemma_multiple_step(msg.len() as int, n as int);
        }
        assert(p.len() >= padding);
    }
    let ghost whole = cfb_spec(p@, c_0@, n as int, key@, m);
    let mut cipher: Vec<i32> = Vec::new();
    let mut prev: Vec<i32> = vstd::slice::slice_to_vec(c_0);
    let mut start: usize = 0;
    proof {
        assert(p@.skip(0) =~= p@);
        assert(cipher@ + whole =~= whole);
    }
    while start < p.len()
        invariant
            n == block_size,
            n > 0,
            key.len() == n * n,
            n * n <= usize::MAX,
            p@ == pad_stream(msg@, n as int),
            (p.len() as int) % (n as int) == 0,
            whole == cfb_spec(p@, c_0@, n as int, key@, m),
            start <= p.len(),
            (p.len() - start) % (n as int) == 0,
            prev@.len() == n,
            cfb_ok(p@.skip(start as int), prev@, n as int, key@, m),
            whole == cipher@ + cfb_spec(p@.skip(start as int), prev@, n as int, key@, m),
        decreases p.len() - start,
    {
        proof {
            lemma_multiple_step((p.len() - start) as int, n as int);
        }
        let block = block_at(&p, start, n);
        let ghost rest = p@.skip(start as int);
        proof {
            assert(rest.take(n as int) =~= block@);
            assert(rest.skip(n as int) =~= p@.skip(start + n));
        }
        let e = hill_cipher(prev.as_slice(), key, m);
        let mut x = block_xor(block.as_slice(), e.as_slice());
        prev = vstd::slice::slice_to_vec(x.as_slice());
        cipher.append(&mut x);
        proof {
            assert(whole =~= cipher@ + cfb_spec(p@.skip(start + n), prev@, n as int, key@, m));
        }
        start = start + n;
    }
    proof {
        assert(p@.skip(start as int).len() == 0);
        assert(cipher@ =~= whole);
        lemma_cfb_len(p@, c_0@, n as int, key@, m);
    }
    let len = cipher.len();
    cipher.truncate(len - padding);
    cipher
}

/// Output feedback mode with the Hill cipher: `O_i = E_k(O_{i-1})`,
/// `C_i = O_i xor P_i`.
///
/// Padding and the final cut are those of [`modus_cfb_hc`].
pub fn modus_ofb_hc(msg: &[i32], block_size: usize, c_0: &[i32], key: &[i32], m: i32) -> (cipher:
    Vec<i32>)
    requires
        block_size * block_size <= usize::MAX,
        msg.len() + block_size <= usize::MAX,
        key.len() == block_size * block_size && c_0.len() == block_size ==> block_size > 0
            && msg.len() > 0 && ofb_ok(
            pad_stream(msg@, block_size as int),
            c_0@,
            block_size as int,
            key@,
            m,
        ),
    ensures
        key.len() != block_size * block_size ==> cipher@ == seq![1i32],
        key.len() == block_size * block_size && c_0.len() != block_size ==> cipher@ == seq![1i32],
        key.len() == block_size * block_size && c_0.len() == block_size ==> cipher@ == ofb_output(
            msg@,
            c_0@,
            block_size as int,
            key@,
            m,
        ),
{
    if key.len() != block_size * block_size {
        return vec![1];
    }
    if c_0.len() != block_size {
        return vec![1];
    }
    let n = block_size;
    let padding = n - (msg.len() % n);
    proof {
        lemma_padding_multiple(msg.len() as int, n as int);
    }
    let p = stream_input(msg, n);
    proof {
        if msg.len() % n == 0 {
            lemma_multiple_step(msg.len() as int, n as int);
        }
        assert(p.len() >= padding);
    }
    let ghost whole = ofb_spec(p@, c_0@, n as int, key@, m);
    let mut cipher: Vec<i32> = Vec::new();
    let mut prev: Vec<i32> = vstd::slice::slice_to_vec(c_0);
    let mut start: usize = 0;
    proof {
        assert(p@.skip(0) =~= p@);
        assert(cipher@ + whole =~= whole);
    }
    while start < p.len()
        invariant
            n == block_size,
            n > 0,
            key.len() == n * n,
            n * n <= usize::MAX,
            p@ == pad_stream(msg@, n as int),
            (p.len() as int) % (n as int) == 0,
            whole == ofb_spec(p@, c_0@, n as int, key@, m),
            start <= p.len(),
            (p.len() - start) % (n as int) == 0,
            prev@.len() == n,
            ofb_ok(p@.skip(start as int), prev@, n as int, key@, m),
            whole == cipher@ + ofb_spec(p@.skip(start as int), prev@, n as int, key@, m),
        decreases p.len() - start,
    {
        proof {
            lemma_multiple_step((p.len() - start) as int, n as int);
        }
        let block = block_at(&p, start, n);
        let ghost rest = p@.skip(start as int);
        proof {
            assert(rest.take(n as int) =~= block@);
            assert(rest.skip(n as int) =~= p@.skip(start + n));
        }
        let o = hill_cipher(prev.as_slice(), key, m);
        let mut c = block_xor(o.as_slice(), block.as_slice());
        prev = o;
        cipher.append(&mut c);
        proof {
            assert(whole =~= cipher@ + ofb_spec(p@.skip(start + n), prev@, n as int, key@, m));
        }
        start = start + n;
    }
    proof {
        assert(p@.skip(start as int).len() == 0);
        assert(cipher@ =~= whole);
        lemma_ofb_len(p@, c_0@, n as int, key@, m);
    }
    let len = cipher.len();
    cipher.truncate(len - padding);
    cipher
}

/// Propagating cipher block chaining with the Hill cipher. Not implemented:
/// performs no work.
pub fn modus_pcbc_hc() {
}

/// Counter mode with the Hill cipher. Not implemented: performs no work.
pub fn modus_ctr_hc() {
}


// ---------------------------------------------------------------------------
// Laws
// ---------------------------------------------------------------------------

/// Block `b` (values `b·n .. b·n + n`) of a sequence.
pub open spec fn block(s: Seq<i32>, n: int, b: int) -> Seq<i32> {
    s.subrange(b * n, b * n + n)
}

proof fn lemma_block_shift(s: Seq<i32>, n: int, b: int)
    requires
        n > 0,
        b >= 1,
        (b + 1) * n <= s.len(),
    ensures
        block(s, n, b) == block(s.skip(n), n, b - 1),
{
    assert(b * n == (b - 1) * n + n) by (nonlinear_arith);
    assert((b + 1) * n == b * n + n) by (nonlinear_arith);
    assert(block(s, n, b) =~= block(s.skip(n), n, b - 1));
}

proof fn lemma_block_of_concat(a: Seq<i32>, c: Seq<i32>, n: int, b: int)
    requires
        n > 0,
        a.len() == n,
        b >= 1,
        (b + 1) * n <= a.len() + c.len(),
    ensures
        block(a + c, n, b) == block(c, n, b - 1),
{
    assert(b * n == (b - 1) * n + n) by (nonlinear_arith);
    assert((b + 1) * n == b * n + n) by (nonlinear_arith);
    assert(block(a + c, n, b) =~= block(c, n, b - 1));
}

proof fn lemma_xor_len(a: Seq<i32>, b: Seq<i32>)
    ensures
        xor_spec(a, b).len() == if a.len() <= b.len() { a.len() } else { b.len() },
{
}

/// ECB encrypts every block on its own: block `b` of the output is the Hill
/// encryption of block `b` of the (padded) message.
pub proof fn lemma_ecb_block(p: Seq<i32>, n: int, key: Seq<i32>, m: i32, b: int)
    requires
        n > 0,
        (p.len() as int) % n == 0,
        0 <= b,
        (b + 1) * n <= p.len(),
    ensures
        block(ecb_spec(p, n, key, m), n, b) == hill_spec(block(p, n, b), key, m),
    decreases b,
{
    assert(p.len() >= n) by (nonlinear_arith)
        requires (b + 1) * n <= p.len(), b >= 0, n > 0;
    lemma_multiple_step(p.len() as int, n);
    let first = hill_spec(p.take(n), key, m);
    let rest = ecb_spec(p.skip(n), n, key, m);
    assert(ecb_spec(p, n, key, m) == first + rest);
    if b == 0 {
        assert(0 * n == 0);
        assert(block(first + rest, n, 0) =~= first);
        assert(block(p, n, 0) =~= p.take(n));
    } else {
        lemma_ecb_len(p.skip(n), n, key, m);
        lemma_block_of_concat(first, rest, n, b);
        lemma_block_shift(p, n, b);
        assert((b - 1 + 1) * n <= p.skip(n).len()) by (nonlinear_arith)
            requires (b + 1) * n <= p.len(), p.skip(n).len() == p.len() - n;
        lemma_ecb_block(p.skip(n), n, key, m, b - 1);
    }
}

/// CBC chains the blocks: block `b` of the output is the Hill encryption of
/// block `b` of the message xor the previous output block (`prev`, the
/// initial block, for block 0).
pub proof fn lemma_cbc_block(p: Seq<i32>, prev: Seq<i32>, n: int, key: Seq<i32>, m: i32, b: int)
    requires
        n > 0,
        prev.len() == n,
        (p.len() as int) % n == 0,
        0 <= b,
        (b + 1) * n <= p.len(),
    ensures
        b == 0 ==> block(cbc_spec(p, prev, n, key, m), n, 0) == hill_spec(xor_spec(block(p, n, 0), prev), key, m),
        b > 0 ==> block(cbc_spec(p, prev, n, key, m), n, b) == hill_spec(
            xor_spec(block(p, n, b), block(cbc_spec(p, prev, n, key, m), n, b - 1)),
            key,
            m,
        ),
    decreases b,
{
    assert(p.len() >= n) by (nonlinear_arith)
        requires (b + 1) * n <= p.len(), b >= 0, n > 0;
    lemma_multiple_step(p.len() as int, n);
    let c = hill_spec(xor_spec(p.take(n), prev), key, m);
    let rest = cbc_spec(p.skip(n), c, n, key, m);
    let out = cbc_spec(p, prev, n, key, m);
    assert(out == c + rest);
    lemma_xor_len(p.take(n), prev);
    assert(c.len() == n);
    assert(0 * n == 0);
    assert(block(out, n, 0) =~= c);
    assert(block(p, n, 0) =~= p.take(n));
    if b > 0 {
        lemma_cbc_len(p.skip(n), c, n, key, m);
        lemma_block_of_concat(c, rest, n, b);
        lemma_block_shift(p, n, b);
        assert((b - 1 + 1) * n <= p.skip(n).len()) by (nonlinear_arith)
            requires (b + 1) * n <= p.len(), p.skip(n).len() == p.len() - n;
        lemma_cbc_block(p.skip(n), c, n, key, m, b - 1);
        if b == 1 {
        } else {
            lemma_block_of_concat(c, rest, n, b - 1);
            assert(b * n <= p.len()) by (nonlinear_arith)
                requires (b + 1) * n <= p.len(), n > 0;
        }
    }
}

/// Exclusive or with the same block twice gives the block back unchanged.
pub proof fn lemma_xor_twice(a: Seq<i32>, k: Seq<i32>)
    requires
        a.len() <= k.len(),
    ensures
        xor_spec(xor_spec(a, k), k) == a,
{
    assert forall|i: int| 0 <= i < a.len() implies #[trigger] xor_spec(xor_spec(a, k), k)[i] == a[i] by {
        let x = a[i];
        let y = k[i];
        assert((x ^ y) ^ y == x) by (bit_vector);
    }
    assert(xor_spec(xor_spec(a, k), k) =~= a);
}

/// OFB is its own inverse: encrypting the output again with the same key and
/// initial block gives the message back.
pub proof fn lemma_ofb_involution(p: Seq<i32>, prev: Seq<i32>, n: int, key: Seq<i32>, m: i32)
    requires
        n > 0,
        prev.len() == n,
        (p.len() as int) % n == 0,
    ensures
        ofb_spec(ofb_spec(p, prev, n, key, m), prev, n, key, m) == p,
    decreases p.len(),
{
    if p.len() > 0 {
        lemma_multiple_step(p.len() as int, n);
        let o = hill_spec(prev, key, m);
        let c = xor_spec(o, p.take(n));
        let rest = ofb_spec(p.skip(n), o, n, key, m);
        let out = ofb_spec(p, prev, n, key, m);
        assert(out == c + rest);
        assert(c.len() == n);
        lemma_ofb_len(p.skip(n), o, n, key, m);
        assert((out.len() as int) % n == 0);
        lemma_multiple_step(out.len() as int, n);
        assert(out.take(n) =~= c);
        assert(out.skip(n) =~= rest);
        lemma_ofb_involution(p.skip(n), o, n, key, m);
        // xor(o, xor(o, p_0)) == p_0
        assert forall|i: int| 0 <= i < n implies #[trigger] xor_spec(o, c)[i] == p.take(n)[i] by {
            let x = o[i];
            let y = p[i];
            assert(x ^ (x ^ y) == y) by (bit_vector);
        }
        assert(xor_spec(o, c) =~= p.take(n));
        assert(ofb_spec(out, prev, n, key, m) == xor_spec(o, out.take(n)) + ofb_spec(out.skip(n), o, n, key, m));
        assert(p =~= p.take(n) + p.skip(n));
    } else {
        assert(ofb_spec(p, prev, n, key, m) =~= p);
    }
}

/// OFB adds a key stream that does not depend on the message: on two
/// messages of the same length, output xor input agree everywhere.
proof fn lemma_ofb_stream(p1: Seq<i32>, p2: Seq<i32>, prev: Seq<i32>, n: int, key: Seq<i32>, m: i32, i: int)
    requires
        n > 0,
        prev.len() == n,
        (p1.len() as int) % n == 0,
        p1.len() == p2.len(),
        0 <= i < p1.len(),
    ensures
        ofb_spec(p1, prev, n, key, m)[i] ^ p1[i] == ofb_spec(p2, prev, n, key, m)[i] ^ p2[i],
    decreases p1.len(),
{
    lemma_multiple_step(p1.len() as int, n);
    let o = hill_spec(prev, key, m);
    lemma_ofb_len(p1.skip(n), o, n, key, m);
    lemma_ofb_len(p2.skip(n), o, n, key, m);
    let out1 = ofb_spec(p1, prev, n, key, m);
    let out2 = ofb_spec(p2, prev, n, key, m);
    assert(out1 == xor_spec(o, p1.take(n)) + ofb_spec(p1.skip(n), o, n, key, m));
    assert(out2 == xor_spec(o, p2.take(n)) + ofb_spec(p2.skip(n), o, n, key, m));
    if i < n {
        let x = o[i];
        let a = p1[i];
        let b = p2[i];
        assert(out1[i] == x ^ a);
        assert(out2[i] == x ^ b);
        assert((x ^ a) ^ a == (x ^ b) ^ b) by (bit_vector);
    } else {
        lemma_ofb_stream(p1.skip(n), p2.skip(n), o, n, key, m, i - n);
        assert(out1[i] == ofb_spec(p1.skip(n), o, n, key, m)[i - n]);
        assert(out2[i] == ofb_spec(p2.skip(n), o, n, key, m)[i - n]);
    }
}

/// [`modus_ofb_hc`] is its own inverse on messages whose length `block_size`
/// does not divide: encrypting its output again with the same key and initial
/// block gives the message back. (When `block_size` divides the length, the
/// last block is dropped and the law fails.)
pub proof fn lemma_ofb_output_involution(msg: Seq<i32>, c_0: Seq<i32>, n: int, key: Seq<i32>, m: i32)
    requires
        n > 0,
        c_0.len() == n,
        (msg.len() as int) % n != 0,
    ensures
        ofb_output(ofb_output(msg, c_0, n, key, m), c_0, n, key, m) == msg,
{
    let len = msg.len() as int;
    let pad = stream_padding(msg, n);
    let p = pad_stream(msg, n);
    lemma_padding_multiple(len, n);
    assert(p.len() == len + pad);
    lemma_ofb_len(p, c_0, n, key, m);
    let c = ofb_output(msg, c_0, n, key, m);
    assert(c.len() == len);
    assert(stream_padding(c, n) == pad);
    let q = pad_stream(c, n);
    assert(q.len() == p.len());
    lemma_ofb_len(q, c_0, n, key, m);
    let out = ofb_output(c, c_0, n, key, m);
    assert(out.len() == len);
    assert forall|i: int| 0 <= i < len implies #[trigger] out[i] == msg[i] by {
        lemma_ofb_stream(p, q, c_0, n, key, m, i);
        let k = ofb_spec(p, c_0, n, key, m)[i] ^ p[i];
        let x = msg[i];
        let y = ofb_spec(p, c_0, n, key, m)[i];
        let z = ofb_spec(q, c_0, n, key, m)[i];
        assert(p[i] == x);
        assert(q[i] == c[i]);
        assert(c[i] == y);
        assert(out[i] == z);
        assert(z ^ y == y ^ x ==> z == x) by (bit_vector);
    }
    assert(out =~= msg);
}

} // verus!
