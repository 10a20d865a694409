//! Sparse polynomials over GF(256), the Reed-Solomon generator and the
//! division that yields error-correction codewords.
use crate::galois::{
    exponent_galois, gf_exp, gf_log, lemma_exp_raw_byte, lemma_gf_log_range, reverse_exponent_galois,
};
use vstd::prelude::*;

verus! {

/// A term: (exponent of x, coefficient in log form, coefficient as a field value).
pub type EntityPolynomial = (i16, i16, i16);

/// A polynomial as its list of terms.
pub struct Polynomial {
    pub data: Vec<EntityPolynomial>,
}

/// Exponents strictly descending and moderate, coefficients in log form.
pub open spec fn wf_terms(s: Seq<EntityPolynomial>) -> bool {
    &&& forall|i: int, j: int| 0 <= i < j < s.len() ==> s[i].0 > s[j].0
    &&& forall|i: int| 0 <= i < s.len() ==> 0 <= #[trigger] s[i].1 < 255 && -16000 <= s[i].0 <= 16000
}

/// XOR of the products of term t with the first m terms of b that land on x^x.
pub open spec fn row_sum(t: EntityPolynomial, b: Seq<EntityPolynomial>, x: int, m: int) -> u32
    decreases m,
{
    if m <= 0 {
        0
    } else {
        let s = row_sum(t, b, x, m - 1);
        if t.0 + b[m - 1].0 == x {
            s ^ gf_exp(t.1 + b[m - 1].1)
        } else {
            s
        }
    }
}

/// Whether term t times one of the first m terms of b lands on x^x.
pub open spec fn row_has(t: EntityPolynomial, b: Seq<EntityPolynomial>, x: int, m: int) -> bool
    decreases m,
{
    if m <= 0 {
        false
    } else {
        row_has(t, b, x, m - 1) || t.0 + b[m - 1].0 == x
    }
}

/// Coefficient of x^x in the product of the first n terms of a with b.
pub open spec fn prod_sum(a: Seq<EntityPolynomial>, b: Seq<EntityPolynomial>, x: int, n: int) -> u32
    decreases n,
{
    if n <= 0 {
        0
    } else {
        prod_sum(a, b, x, n - 1) ^ row_sum(a[n - 1], b, x, b.len() as int)
    }
}

/// Whether some pair of terms of a (the first n) and b lands on x^x.
pub open spec fn prod_has(a: Seq<EntityPolynomial>, b: Seq<EntityPolynomial>, x: int, n: int) -> bool
    decreases n,
{
    if n <= 0 {
        false
    } else {
        prod_has(a, b, x, n - 1) || row_has(a[n - 1], b, x, b.len() as int)
    }
}

/// The merged term of the product at exponent x.
pub open spec fn product_term(a: Seq<EntityPolynomial>, b: Seq<EntityPolynomial>, x: int) -> EntityPolynomial {
    let c = prod_sum(a, b, x, a.len() as int);
    (x as i16, gf_log(c as int) as i16, c as i16)
}

/// Product terms for the exponents lo + k down to lo that some pair reaches.
pub open spec fn emit_from(a: Seq<EntityPolynomial>, b: Seq<EntityPolynomial>, lo: int, k: int) -> Seq<
    EntityPolynomial,
>
    decreases k + 1,
{
    if k < 0 {
        seq![]
    } else {
        let head = if prod_has(a, b, lo + k, a.len() as int) {
            seq![product_term(a, b, lo + k)]
        } else {
            seq![]
        };
        head + emit_from(a, b, lo, k - 1)
    }
}

/// The product of two polynomials: one term per reached exponent, in descending order,
/// terms on the same exponent merged by GF(256) addition. An empty operand gives the
/// empty product.
pub open spec fn mul_spec(a: Seq<EntityPolynomial>, b: Seq<EntityPolynomial>) -> Seq<EntityPolynomial> {
    if a.len() == 0 || b.len() == 0 {
        seq![]
    } else {
        let lo = a.last().0 + b.last().0;
        let hi = a[0].0 + b[0].0;
        emit_from(a, b, lo, hi - lo)
    }
}

/// x + 2^i.
pub open spec fn base_polynomial(i: int) -> Seq<EntityPolynomial> {
    seq![(1i16, 0i16, 0i16), (0i16, i as i16, 0i16)]
}

/// The generator polynomial of degree n: the product of (x + 2^i) for i < n.
pub open spec fn gen_spec(n: int) -> Seq<EntityPolynomial>
    decreases n,
{
    if n <= 1 {
        base_polynomial(0)
    } else {
        mul_spec(gen_spec(n - 1), base_polynomial(n - 1))
    }
}

/// The exponents of the product stay moderate.
pub open spec fn product_fits(a: Seq<EntityPolynomial>, b: Seq<EntityPolynomial>) -> bool {
    a.len() == 0 || b.len() == 0 || (-16000 <= a.last().0 + b.last().0 && a[0].0 + b[0].0 <= 16000)
}

proof fn lemma_xor_facts(x: u32, y: u32, z: u32)
    ensures
        (x ^ y) ^ z == x ^ (y ^ z),
        x ^ 0 == x,
        x < 256 && y < 256 ==> (x ^ y) < 256,
{
    assert((x ^ y) ^ z == x ^ (y ^ z)) by (bit_vector);
    assert(x ^ 0 == x) by (bit_vector);
    assert(x < 256 && y < 256 ==> (x ^ y) < 256) by (bit_vector);
}

proof fn lemma_row_sum_byte(t: EntityPolynomial, b: Seq<EntityPolynomial>, x: int, m: int)
    ensures
        row_sum(t, b, x, m) < 256,
    decreases m,
{
    if m > 0 {
        lemma_row_sum_byte(t, b, x, m - 1);
        let s = row_sum(t, b, x, m - 1);
        let e = gf_exp(t.1 + b[m - 1].1);
        lemma_exp_raw_byte(crate::galois::reduce_spec(t.1 + b[m - 1].1) as nat);
        lemma_xor_facts(s, e, 0);
    }
}

proof fn lemma_prod_sum_byte(a: Seq<EntityPolynomial>, b: Seq<EntityPolynomial>, x: int, n: int)
    ensures
        prod_sum(a, b, x, n) < 256,
    decreases n,
{
    if n > 0 {
        lemma_prod_sum_byte(a, b, x, n - 1);
        lemma_row_sum_byte(a[n - 1], b, x, b.len() as int);
        lemma_xor_facts(prod_sum(a, b, x, n - 1), row_sum(a[n - 1], b, x, b.len() as int), 0);
    }
}

/// Shape of the emitted list: exponents within [lo, lo + k], strictly descending, and
/// every exponent present when every one is reached.
proof fn lemma_emit_shape(a: Seq<EntityPolynomial>, b: Seq<EntityPolynomial>, lo: int, k: int)
    requires
        -32768 <= lo,
        lo + k <= 32767,
        k >= -1,
    ensures
        emit_from(a, b, lo, k).len() <= k + 1,
        forall|j: int|
            0 <= j < emit_from(a, b, lo, k).len() ==> {
                let t = #[trigger] emit_from(a, b, lo, k)[j];
                &&& lo <= t.0 <= lo + k
                &&& t == product_term(a, b, t.0 as int)
            },
        forall|i: int, j: int|
            0 <= i < j < emit_from(a, b, lo, k).len() ==> #[trigger] emit_from(a, b, lo, k)[i].0
                > #[trigger] emit_from(a, b, lo, k)[j].0,
        (forall|x: int| lo <= x <= lo + k ==> #[trigger] prod_has(a, b, x, a.len() as int)) ==> (
        emit_from(a, b, lo, k).len() == k + 1 && forall|j: int|
            0 <= j <= k ==> #[trigger] emit_from(a, b, lo, k)[j].0 == lo + k - j),
    decreases k + 1,
{
    if k >= 0 {
        lemma_emit_shape(a, b, lo, k - 1);
        let rest = emit_from(a, b, lo, k - 1);
        let e = emit_from(a, b, lo, k);
        if prod_has(a, b, lo + k, a.len() as int) {
            let h = product_term(a, b, lo + k);
            assert(e == seq![h] + rest);
            assert(h.0 == lo + k);
            assert forall|j: int| 0 <= j < e.len() implies {
                let t = #[trigger] e[j];
                &&& lo <= t.0 <= lo + k
                &&& t == product_term(a, b, t.0 as int)
            } by {
                if j > 0 {
                    assert(e[j] == rest[j - 1]);
                }
            }
            assert forall|i: int, j: int| 0 <= i < j < e.len() implies #[trigger] e[i].0
                > #[trigger] e[j].0 by {
                assert(e[j] == rest[j - 1]);
                if i > 0 {
                    assert(e[i] == rest[i - 1]);
                }
            }
            if forall|x: int| lo <= x <= lo + k ==> #[trigger] prod_has(a, b, x, a.len() as int) {
                assert forall|j: int| 0 <= j <= k implies #[trigger] e[j].0 == lo + k - j by {
                    if j > 0 {
                        assert(e[j] == rest[j - 1]);
                    }
                }
            }
        } else {
            assert(e =~= rest);
        }
    }
}


/// Multiplies two term lists: every pair of terms is multiplied (exponents add,
/// log coefficients add), and terms on one exponent are merged by GF(256) addition.
#[verifier::rlimit(50)]
fn product(a: &Vec<EntityPolynomial>, b: &Vec<EntityPolynomial>) -> (r: Vec<EntityPolynomial>)
    requires
        wf_terms(a@),
        wf_terms(b@),
        product_fits(a@, b@),
    ensures
        r@ == mul_spec(a@, b@),
{
    if a.len() == 0 || b.len() == 0 {
        return Vec::new();
    }
    let lo: i16 = a[a.len() - 1].0 + b[b.len() - 1].0;
    let hi: i16 = a[0].0 + b[0].0;
    assert(a@[0].0 >= a@.last().0) by {
        if a@.len() > 1 {
            assert(a@[0].0 > a@[a@.len() - 1].0);
        }
    }
    assert(b@[0].0 >= b@.last().0) by {
        if b@.len() > 1 {
            assert(b@[0].0 > b@[b@.len() - 1].0);
        }
    }
    let width: usize = (hi - lo) as usize + 1;
    let mut acc: Vec<u32> = Vec::new();
    let mut present: Vec<bool> = Vec::new();
    while acc.len() < width
        invariant
            acc.len() == present.len(),
            acc.len() <= width,
            forall|k: int| 0 <= k < acc.len() ==> acc@[k] == 0u32 && !present@[k],
        decreases width - acc.len(),
    {
        acc.push(0);
        present.push(false);
    }
    let mut p: usize = 0;
    while p < a.len()
        invariant
            wf_terms(a@),
            wf_terms(b@),
            a.len() > 0,
            b.len() > 0,
            product_fits(a@, b@),
            lo == a@.last().0 + b@.last().0,
            hi == a@[0].0 + b@[0].0,
            width == hi - lo + 1,
            acc.len() == width,
            present.len() == width,
            p <= a.len(),
            forall|k: int|
                0 <= k < width ==> #[trigger] acc@[k] == prod_sum(a@, b@, lo + k, p as int)
                    && present@[k] == prod_has(a@, b@, lo + k, p as int),
        decreases a.len() - p,
    {
        let mut q: usize = 0;
        assert forall|k: int| 0 <= k < width implies #[trigger] acc@[k] == prod_sum(a@, b@, lo + k, p as int)
            ^ row_sum(a@[p as int], b@, lo + k, 0) && present@[k] == (prod_has(a@, b@, lo + k, p as int)
            || row_has(a@[p as int], b@, lo + k, 0)) by {
            lemma_xor_facts(acc@[k], 0, 0);
        }
        while q < b.len()
            invariant
                wf_terms(a@),
                wf_terms(b@),
                a.len() > 0,
                b.len() > 0,
                product_fits(a@, b@),
                lo == a@.last().0 + b@.last().0,
                hi == a@[0].0 + b@[0].0,
                width == hi - lo + 1,
                acc.len() == width,
                present.len() == width,
                p < a.len(),
                q <= b.len(),
                forall|k: int|
                    0 <= k < width ==> #[trigger] acc@[k] == prod_sum(a@, b@, lo + k, p as int)
                        ^ row_sum(a@[p as int], b@, lo + k, q as int) && present@[k] == (prod_has(
                        a@,
                        b@,
                        lo + k,
                        p as int,
                    ) || row_has(a@[p as int], b@, lo + k, q as int)),
            decreases b.len() - q,
        {
            let ta = a[p];
            let tb = b[q];
            assert(ta.0 <= a@[0].0 && ta.0 >= a@.last().0) by {
                if p > 0 {
                    assert(a@[0].0 > a@[p as int].0);
                }
                if p < a.len() - 1 {
                    assert(a@[p as int].0 > a@[a@.len() - 1].0);
                }
            }
            assert(tb.0 <= b@[0].0 && tb.0 >= b@.last().0) by {
                if q > 0 {
                    assert(b@[0].0 > b@[q as int].0);
                }
                if q < b.len() - 1 {
                    assert(b@[q as int].0 > b@[b@.len() - 1].0);
                }
            }
            let x: i16 = ta.0 + tb.0;
            let k: usize = (x - lo) as usize;
            let v = exponent_galois((ta.1 + tb.1) as u32);
            let old_acc = acc[k];
            proof {
                lemma_xor_facts(prod_sum(a@, b@, x as int, p as int), row_sum(a@[p as int], b@, x as int, q as int), v);
            }
            let ghost acc0 = acc@;
            let ghost pres0 = present@;
            acc.set(k, old_acc ^ v);
            present.set(k, true);
            assert forall|j: int| 0 <= j < width implies #[trigger] acc@[j] == prod_sum(a@, b@, lo + j, p as int)
                ^ row_sum(a@[p as int], b@, lo + j, q + 1) && present@[j] == (prod_has(a@, b@, lo + j, p as int)
                || row_has(a@[p as int], b@, lo + j, q + 1)) by {
                assert(acc0[j] == prod_sum(a@, b@, lo + j, p as int) ^ row_sum(a@[p as int], b@, lo + j, q as int));
                assert(pres0[j] == (prod_has(a@, b@, lo + j, p as int) || row_has(a@[p as int], b@, lo + j, q as int)));
            }
            q = q + 1;
        }
        assert forall|k: int| 0 <= k < width implies #[trigger] acc@[k] == prod_sum(a@, b@, lo + k, p + 1)
            && present@[k] == prod_has(a@, b@, lo + k, p + 1) by {
            assert(acc@[k] == prod_sum(a@, b@, lo + k, p as int) ^ row_sum(a@[p as int], b@, lo + k, b.len() as int));
        }
        p = p + 1;
    }
    let mut r: Vec<EntityPolynomial> = Vec::new();
    let mut k: usize = width;
    while k > 0
        invariant
            k <= width,
            a.len() > 0,
            b.len() > 0,
            width == hi - lo + 1,
            acc.len() == width,
            present.len() == width,
            -16000 <= lo <= hi <= 16000,
            forall|j: int|
                0 <= j < width ==> #[trigger] acc@[j] == prod_sum(a@, b@, lo + j, a.len() as int)
                    && present@[j] == prod_has(a@, b@, lo + j, a.len() as int),
            r@ + emit_from(a@, b@, lo as int, k - 1) == emit_from(a@, b@, lo as int, width - 1),
        decreases k,
    {
        k = k - 1;
        let ghost before = r@;
        if present[k] {
            let c = acc[k];
            proof {
                lemma_prod_sum_byte(a@, b@, lo + k, a.len() as int);
                lemma_gf_log_range(c as int);
            }
            let lg = reverse_exponent_galois(c);
            r.push(((lo + k as i16) as i16, lg as i16, c as i16));
            assert(emit_from(a@, b@, lo as int, k as int) == seq![product_term(a@, b@, lo + k)]
                + emit_from(a@, b@, lo as int, k - 1));
            assert(r@ + emit_from(a@, b@, lo as int, k - 1) =~= before + emit_from(a@, b@, lo as int, k as int));
        } else {
            assert(acc@[k as int] == prod_sum(a@, b@, lo + k, a.len() as int));
            assert(!prod_has(a@, b@, lo + k, a.len() as int));
            assert(emit_from(a@, b@, lo as int, k as int) =~= emit_from(a@, b@, lo as int, k - 1));
        }
    }
    assert(r@ =~= r@ + emit_from(a@, b@, lo as int, -1));
    r
}


proof fn lemma_row_has(t: EntityPolynomial, b: Seq<EntityPolynomial>, q: int, m: int)
    requires
        0 <= q < m <= b.len(),
    ensures
        row_has(t, b, t.0 + b[q].0, m),
    decreases m,
{
    if m - 1 > q {
        lemma_row_has(t, b, q, m - 1);
    }
}

/// A product reaches every exponent that some pair of terms reaches.
proof fn lemma_has_pair(a: Seq<EntityPolynomial>, b: Seq<EntityPolynomial>, p: int, q: int, n: int)
    requires
        0 <= p < n <= a.len(),
        0 <= q < b.len(),
    ensures
        prod_has(a, b, a[p].0 + b[q].0, n),
    decreases n,
{
    if n - 1 > p {
        lemma_has_pair(a, b, p, q, n - 1);
    } else {
        lemma_row_has(a[p], b, q, b.len() as int);
    }
}

/// The product of two well-formed polynomials is well formed.
pub proof fn lemma_mul_wf(a: Seq<EntityPolynomial>, b: Seq<EntityPolynomial>)
    requires
        wf_terms(a),
        wf_terms(b),
        product_fits(a, b),
    ensures
        wf_terms(mul_spec(a, b)),
{
    if a.len() == 0 || b.len() == 0 {
        return;
    }
    let lo = a.last().0 + b.last().0;
    let hi = a[0].0 + b[0].0;
    assert(a[0].0 >= a.last().0) by {
        if a.len() > 1 {
            assert(a[0].0 > a[a.len() - 1].0);
        }
    }
    assert(b[0].0 >= b.last().0) by {
        if b.len() > 1 {
            assert(b[0].0 > b[b.len() - 1].0);
        }
    }
    lemma_emit_shape(a, b, lo, hi - lo);
    lemma_has_pair(a, b, 0, 0, a.len() as int);
    let m = mul_spec(a, b);
    let rest = emit_from(a, b, lo, hi - lo - 1);
    assert(m == seq![product_term(a, b, hi)] + rest);
    assert forall|i: int| 0 <= i < m.len() implies 0 <= #[trigger] m[i].1 < 255 && -16000 <= m[i].0 <= 16000 by {
        lemma_gf_log_range(prod_sum(a, b, m[i].0 as int, a.len() as int) as int);
    }
}

/// The generator of degree n has the n + 1 exponents n, n - 1, ..., 0.
pub proof fn lemma_gen_shape(n: int)
    requires
        1 <= n <= 255,
    ensures
        wf_terms(gen_spec(n)),
        gen_spec(n).len() == n + 1,
        forall|k: int| 0 <= k <= n ==> #[trigger] gen_spec(n)[k].0 == n - k,
    decreases n,
{
    if n == 1 {
        assert(gen_spec(1) == base_polynomial(0));
    } else {
        lemma_gen_shape(n - 1);
        let a = gen_spec(n - 1);
        let b = base_polynomial(n - 1);
        assert(a.last().0 == 0);
        lemma_mul_wf(a, b);
        assert forall|x: int| 0 <= x <= n implies #[trigger] prod_has(a, b, x, a.len() as int) by {
            if x == n {
                lemma_has_pair(a, b, 0, 0, a.len() as int);
            } else {
                assert(a[n - 1 - x].0 == x);
                lemma_has_pair(a, b, n - 1 - x, 1, a.len() as int);
            }
        }
        lemma_emit_shape(a, b, 0, n);
    }
}

impl Polynomial {
    pub fn new(value: Vec<EntityPolynomial>) -> (r: Polynomial)
        ensures
            r.data == value,
    {
        Polynomial { data: value }
    }

    pub fn new_default() -> (r: Polynomial)
        ensures
            r.data@ == Seq::<EntityPolynomial>::empty(),
    {
        Polynomial { data: Vec::new() }
    }

    /// Index of the first term with the given exponent.
    pub fn find_polynomial(&self, target: i16) -> (r: Option<usize>)
        ensures
            match r {
                Some(i) => i < self.data.len() && self.data@[i as int].0 == target && forall|j: int|
                    0 <= j < i ==> self.data@[j].0 != target,
                None => forall|j: int| 0 <= j < self.data.len() ==> self.data@[j].0 != target,
            },
    {
        let mut i: usize = 0;
        while i < self.data.len()
            invariant
                i <= self.data.len(),
                forall|j: int| 0 <= j < i ==> self.data@[j].0 != target,
            decreases self.data.len() - i,
        {
            if self.data[i].0 == target {
                return Some(i);
            }
            i = i + 1;
        }
        None
    }

    pub fn push(&mut self, value: EntityPolynomial)
        ensures
            final(self).data@ == old(self).data@.push(value),
    {
        self.data.push(value);
    }

    /// The product of this polynomial and another.
    pub fn multiply_by_poly(&self, by_polynomial: Polynomial) -> (r: Polynomial)
        requires
            wf_terms(self.data@),
            wf_terms(by_polynomial.data@),
            product_fits(self.data@, by_polynomial.data@),
        ensures
            r.data@ == mul_spec(self.data@, by_polynomial.data@),
            wf_terms(r.data@),
    {
        proof {
            lemma_mul_wf(self.data@, by_polynomial.data@);
        }
        Polynomial { data: product(&self.data, &by_polynomial.data) }
    }

    /// The product of this polynomial and a list of terms (a monomial in division).
    pub fn multiply_by_exp(&self, by_polynomial: Vec<EntityPolynomial>) -> (r: Polynomial)
        requires
            wf_terms(self.data@),
            wf_terms(by_polynomial@),
            product_fits(self.data@, by_polynomial@),
        ensures
            r.data@ == mul_spec(self.data@, by_polynomial@),
            wf_terms(r.data@),
    {
        proof {
            lemma_mul_wf(self.data@, by_polynomial@);
        }
        Polynomial { data: product(&self.data, &by_polynomial) }
    }
}

/// x + 2^i as a polynomial.
fn base_poly(i: i16) -> (r: Polynomial)
    ensures
        r.data@ == base_polynomial(i as int),
{
    let r = Polynomial::new(vec![(1, 0, 0), (0, i, 0)]);
    assert(r.data@ =~= base_polynomial(i as int));
    r
}

/// The Reed-Solomon generator of the given degree: the product of (x + 2^i) for
/// i below the degree (a degree under 1 gives x + 1).
pub fn generator_polynomial(number: i32) -> (r: Polynomial)
    requires
        number <= 255,
    ensures
        r.data@ == gen_spec(number as int),
{
    let mut tmp_polynomial = base_poly(0);
    let mut i: i32 = 1;
    while i < number
        invariant
            1 <= i <= 255,
            i < number ==> i < 255,
            number <= 255,
            tmp_polynomial.data@ == gen_spec(i as int),
            i > number ==> i == 1,
        decreases number - i,
    {
        proof {
            lemma_gen_shape(i as int);
            assert(gen_spec(i as int).last().0 == 0);
        }
        let base = base_poly(i as i16);
        tmp_polynomial = tmp_polynomial.multiply_by_poly(base);
        i = i + 1;
    }
    proof {
        if number <= 1 {
            assert(gen_spec(number as int) == gen_spec(1));
        }
    }
    tmp_polynomial
}


/// One step of long division at position i: when the coefficient there is nonzero,
/// the generator scaled by it is added in, clearing that position.
pub open spec fn div_step(r: Seq<u32>, i: int, g: Seq<EntityPolynomial>) -> Seq<u32> {
    if r[i] == 0 {
        r
    } else {
        Seq::new(
            r.len(),
            |k: int|
                if i <= k < i + g.len() {
                    r[k] ^ gf_exp(gf_log(r[i] as int) + g[k - i].1)
                } else {
                    r[k]
                },
        )
    }
}

/// Long division steps at positions i up to n.
pub open spec fn long_div(r: Seq<u32>, i: int, n: int, g: Seq<EntityPolynomial>) -> Seq<u32>
    decreases n - i,
{
    if i >= n {
        r
    } else {
        long_div(div_step(r, i, g), i + 1, n, g)
    }
}

/// The message coefficients followed by ec zero coefficients (the message times x^ec).
pub open spec fn padded_message(msg: Seq<i16>, ec: int) -> Seq<u32> {
    Seq::new((msg.len() + ec) as nat, |k: int| if k < msg.len() { msg[k] as u32 } else { 0u32 })
}

/// The remainder of (message times x^ec) divided by the generator of degree ec.
pub open spec fn rs_remainder(msg: Seq<i16>, ec: int) -> Seq<u32> {
    long_div(padded_message(msg, ec), 0, msg.len() as int, gen_spec(ec)).subrange(
        msg.len() as int,
        msg.len() + ec,
    )
}

/// The remainder as terms, highest exponent (ec - 1) first.
pub open spec fn remainder_terms(msg: Seq<i16>, ec: int) -> Seq<EntityPolynomial> {
    Seq::new(
        ec as nat,
        |k: int|
            {
                let v = rs_remainder(msg, ec)[k];
                ((ec - 1 - k) as i16, gf_log(v as int) as i16, v as i16)
            },
    )
}

pub open spec fn all_bytes(s: Seq<u32>) -> bool {
    forall|k: int| 0 <= k < s.len() ==> #[trigger] s[k] < 256
}

proof fn lemma_div_step_bytes(r: Seq<u32>, i: int, g: Seq<EntityPolynomial>)
    requires
        all_bytes(r),
        0 <= i < r.len(),
    ensures
        all_bytes(div_step(r, i, g)),
        div_step(r, i, g).len() == r.len(),
{
    if r[i] != 0 {
        let d = div_step(r, i, g);
        assert forall|k: int| 0 <= k < d.len() implies #[trigger] d[k] < 256 by {
            if i <= k < i + g.len() {
                let e = gf_log(r[i] as int) + g[k - i].1;
                lemma_exp_raw_byte(crate::galois::reduce_spec(e) as nat);
                lemma_xor_facts(r[k], gf_exp(e), 0);
            }
        }
    }
}

/// Divides the message, shifted up by ec places, by the generator of degree ec and
/// returns the remainder: the ec error-correction codewords, highest exponent first.
///
/// This is plain long division, one step per message codeword, and it always yields ec
/// codewords. No extra division step is taken for blocks shorter than 19 codewords: the
/// published Reed-Solomon examples agree with plain long division for every block length.
#[verifier::rlimit(50)]
pub fn div_polynomial(dec_words: &mut Vec<i16>, error_correction: i16) -> (r: Polynomial)
    requires
        old(dec_words).len() >= 1,
        old(dec_words).len() + 256 <= usize::MAX,
        1 <= error_correction <= 255,
        forall|k: int| 0 <= k < old(dec_words).len() ==> 0 <= #[trigger] old(dec_words)@[k] < 256,
    ensures
        final(dec_words)@ == old(dec_words)@,
        r.data@ == remainder_terms(old(dec_words)@, error_correction as int),
{
    let n = dec_words.len();
    let ec = error_correction as usize;
    let generator = generator_polynomial(error_correction as i32);
    proof {
        lemma_gen_shape(error_correction as int);
    }
    let mut rem: Vec<u32> = Vec::new();
    let mut k: usize = 0;
    while k < n + ec
        invariant
            n == dec_words.len(),
            n + 256 <= usize::MAX,
            ec <= 255,
            dec_words@ == old(dec_words)@,
            forall|j: int| 0 <= j < n ==> 0 <= #[trigger] dec_words@[j] < 256,
            k <= n + ec,
            rem.len() == k,
            forall|j: int| 0 <= j < k ==> #[trigger] rem@[j] == padded_message(dec_words@, ec as int)[j],
        decreases n + ec - k,
    {
        if k < n {
            rem.push(dec_words[k] as u32);
        } else {
            rem.push(0);
        }
        k = k + 1;
    }
    assert(rem@ =~= padded_message(dec_words@, ec as int));
    let ghost g = gen_spec(ec as int);
    let mut i: usize = 0;
    while i < n
        invariant
            n == dec_words.len(),
            dec_words@ == old(dec_words)@,
            n + 256 <= usize::MAX,
            1 <= ec <= 255,
            ec == error_correction,
            i <= n,
            rem.len() == n + ec,
            generator.data@ == g,
            g == gen_spec(ec as int),
            g.len() == ec + 1,
            wf_terms(g),
            all_bytes(rem@),
            long_div(rem@, i as int, n as int, g) == long_div(
                padded_message(dec_words@, ec as int),
                0,
                n as int,
                g,
            ),
        decreases n - i,
    {
        let ghost r0 = rem@;
        let lead = rem[i];
        if lead != 0 {
            let lg = reverse_exponent_galois(lead);
            let mut j: usize = 0;
            while j < ec + 1
                invariant
                    rem.len() == n + ec,
                    i < n,
                    j <= ec + 1,
                    generator.data@ == g,
                    g.len() == ec + 1,
                    wf_terms(g),
                    r0.len() == n + ec,
                    lg < 255,
                    lg as int == gf_log(r0[i as int] as int),
                    forall|k: int|
                        0 <= k < rem.len() ==> #[trigger] rem@[k] == if i <= k < i + j {
                            r0[k] ^ gf_exp(gf_log(r0[i as int] as int) + g[k - i].1)
                        } else {
                            r0[k]
                        },
                decreases ec + 1 - j,
            {
                let gj = generator.data[j].1;
                let v = exponent_galois(lg + gj as u32);
                let cur = rem[i + j];
                rem.set(i + j, cur ^ v);
                j = j + 1;
            }
            assert(rem@ =~= div_step(r0, i as int, g));
        } else {
            assert(rem@ =~= div_step(r0, i as int, g));
        }
        proof {
            lemma_div_step_bytes(r0, i as int, g);
        }
        i = i + 1;
    }
    let ghost fin = rem@;
    assert(fin == long_div(padded_message(dec_words@, ec as int), 0, n as int, g));
    let mut data: Vec<EntityPolynomial> = Vec::new();
    let mut k: usize = 0;
    while k < ec
        invariant
            rem@ == fin,
            rem.len() == n + ec,
            n == dec_words.len(),
            dec_words@ == old(dec_words)@,
            1 <= ec <= 255,
            ec == error_correction,
            all_bytes(fin),
            k <= ec,
            data.len() == k,
            fin.subrange(n as int, n + ec) == rs_remainder(dec_words@, ec as int),
            forall|j: int| 0 <= j < k ==> #[trigger] data@[j] == remainder_terms(dec_words@, ec as int)[j],
        decreases ec - k,
    {
        let v = rem[n + k];
        assert(fin.subrange(n as int, n + ec)[k as int] == v);
        proof {
            lemma_gf_log_range(v as int);
        }
        let lg = reverse_exponent_galois(v);
        data.push(((ec - 1 - k) as i16, lg as i16, v as i16));
        k = k + 1;
    }
    assert(data@ =~= remainder_terms(dec_words@, ec as int));
    Polynomial { data }
}

proof fn lemma_long_div_zero(r: Seq<u32>, i: int, n: int, g: Seq<EntityPolynomial>)
    requires
        forall|k: int| 0 <= k < r.len() ==> #[trigger] r[k] == 0,
        0 <= i,
        n <= r.len(),
    ensures
        long_div(r, i, n, g) == r,
    decreases n - i,
{
    if i < n {
        lemma_long_div_zero(r, i + 1, n, g);
    }
}

/// Dividing an all-zero message leaves an all-zero remainder of length ec.
pub proof fn lemma_zero_message_remainder(msg: Seq<i16>, ec: int)
    requires
        ec >= 0,
        forall|k: int| 0 <= k < msg.len() ==> #[trigger] msg[k] == 0,
    ensures
        rs_remainder(msg, ec).len() == ec,
        forall|k: int| 0 <= k < ec ==> #[trigger] rs_remainder(msg, ec)[k] == 0,
{
    let p = padded_message(msg, ec);
    assert forall|k: int| 0 <= k < p.len() implies #[trigger] p[k] == 0 by {
        if k < msg.len() {
            assert(msg[k] == 0);
        }
    }
    lemma_long_div_zero(p, 0, msg.len() as int, gen_spec(ec));
}

} // verus!
