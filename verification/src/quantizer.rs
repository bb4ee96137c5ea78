//! The quantizer: nearest-neighbor assignment of latent vectors to
//! codewords, the straight-through output, and the two training losses,
//! all in exact arithmetic over [`Dual`] components.

use vstd::prelude::*;

use crate::codebook::{Codebook, lemma_flat_index, selected};
use crate::dual::{COMPONENT_BOUND, Dual};
use crate::error::Error;
use crate::tensor::{ELEMENT_BOUND, IndexTensor, Tensor, dim_product};

verus! {

/// Largest value one squared difference of two in-range components, or one
/// gradient product `2 * diff * grad`, can reach.
pub const TERM_BOUND: i64 = 4 * COMPONENT_BOUND * COMPONENT_BOUND;

/// Sum of the first `n` squared component differences between the vector
/// of `data` starting at `base` and the codeword `e`.
pub open spec fn sq_dist_prefix(data: Seq<Dual>, base: int, e: Seq<Dual>, n: int) -> int
    decreases n,
{
    if n <= 0 {
        0
    } else {
        sq_dist_prefix(data, base, e, n - 1) + (data[base + n - 1].val - e[n - 1].val) * (
        data[base + n - 1].val - e[n - 1].val)
    }
}

/// Squared Euclidean distance between latent vector `v` of the flat,
/// row-major `data` (rows of length `ld`) and the codeword `e`.
pub open spec fn distance_sq(data: Seq<Dual>, ld: int, v: int, e: Seq<Dual>) -> int {
    sq_dist_prefix(data, v * ld, e, ld)
}

/// Sum over the first `n` flat positions of the squared difference between
/// the input component and the component of the codeword chosen for its
/// vector: the unnormalized squared error of the quantization.
pub open spec fn sum_sq_err(
    data: Seq<Dual>,
    entries: Seq<Vec<Dual>>,
    idx: Seq<usize>,
    ld: int,
    n: int,
) -> int
    decreases n,
{
    if n <= 0 {
        0
    } else {
        sum_sq_err(data, entries, idx, ld, n - 1) + (data[n - 1].val - selected(
            entries,
            idx,
            ld,
            n - 1,
        ).val) * (data[n - 1].val - selected(entries, idx, ld, n - 1).val)
    }
}

/// Derivative of the unnormalized codebook loss with respect to the seed
/// variable: the input is held constant (stop-gradient), so only the
/// gradients of the selected codewords contribute.
pub open spec fn sum_codebook_grad(
    data: Seq<Dual>,
    entries: Seq<Vec<Dual>>,
    idx: Seq<usize>,
    ld: int,
    n: int,
) -> int
    decreases n,
{
    if n <= 0 {
        0
    } else {
        sum_codebook_grad(data, entries, idx, ld, n - 1) + (-2) * (data[n - 1].val - selected(
            entries,
            idx,
            ld,
            n - 1,
        ).val) * selected(entries, idx, ld, n - 1).grad
    }
}

/// Derivative of the unnormalized commitment loss (before the beta factor)
/// with respect to the seed variable: the selected codewords are held
/// constant (stop-gradient), so only the gradients of the input contribute.
pub open spec fn sum_commit_grad(
    data: Seq<Dual>,
    entries: Seq<Vec<Dual>>,
    idx: Seq<usize>,
    ld: int,
    n: int,
) -> int
    decreases n,
{
    if n <= 0 {
        0
    } else {
        sum_commit_grad(data, entries, idx, ld, n - 1) + 2 * (data[n - 1].val - selected(
            entries,
            idx,
            ld,
            n - 1,
        ).val) * data[n - 1].grad
    }
}

/// Sum of the gradients of the first `n` components of `s`.
pub open spec fn sum_grads(s: Seq<Dual>, n: int) -> int
    decreases n,
{
    if n <= 0 {
        0
    } else {
        sum_grads(s, n - 1) + s[n - 1].grad
    }
}

/// A non-negative exact rational weight, such as the commitment beta
/// (conventionally about one quarter).
#[derive(Clone, Copy, Debug, PartialEq, Eq, Structural)]
pub struct Ratio {
    pub num: i64,
    pub den: i64,
}

/// An exact training loss in forward mode: the value is `num / den` and its
/// derivative with respect to the seed variable is `grad_num / den`.
#[derive(Clone, Copy, Debug, PartialEq, Eq, Structural)]
pub struct Loss {
    pub num: i128,
    pub den: i128,
    pub grad_num: i128,
}

/// Immutable construction-time configuration of a [`Quantizer`].
#[derive(Clone, Copy, Debug, PartialEq, Eq, Structural)]
pub struct QuantizerConfig {
    pub codebook_size: usize,
    pub latent_dimension: usize,
}

/// The quantization layer: owns its [`Codebook`] and maps batches of latent
/// vectors onto it.
#[derive(Debug)]
pub struct Quantizer {
    pub codebook: Codebook,
}

/// The result bundle of one [`Quantizer::forward`] call.
#[derive(Debug)]
pub struct QuantizerOutput {
    /// Straight-through quantized latents: values are the chosen codewords,
    /// gradients pass through from the input unchanged.
    pub latents: Tensor,
    /// The chosen codeword position for each latent vector, as a
    /// `[vector_count, 1]` tensor.
    pub indices: IndexTensor,
    /// Mean squared difference between the stop-gradient input and the
    /// chosen codewords; its gradient flows only into the codebook.
    pub codebook_loss: Loss,
    /// Beta times the mean squared difference between the input and the
    /// stop-gradient chosen codewords; its gradient flows only into the
    /// input.
    pub commitment_loss: Loss,
}

impl QuantizerConfig {
    /// Builds a quantizer with a zero-initialized codebook; rejects a
    /// non-positive size on either axis. Codeword values are then set by
    /// the external training procedure through
    /// [`Codebook::set_codeword`].
    pub fn init(&self) -> (r: Result<Quantizer, Error>)
        ensures
            r is Ok <==> self.codebook_size >= 1 && self.latent_dimension >= 1,
            r matches Err(e) ==> e == (Error::ShapeMismatch { expected: 1, found: 0 }),
            r matches Ok(q) ==> {
                &&& q.codebook.wf()
                &&& q.codebook.in_range()
                &&& q.codebook.latent_dimension == self.latent_dimension
                &&& q.codebook.entries@.len() == self.codebook_size
                &&& forall|k: int, c: int|
                    0 <= k < self.codebook_size && 0 <= c < self.latent_dimension
                        ==> (#[trigger] q.codebook.entries@[k]@[c]) == (Dual { val: 0, grad: 0 })
            },
    {
        match Codebook::new(self.codebook_size, self.latent_dimension) {
            Ok(codebook) => Ok(Quantizer { codebook }),
            Err(e) => Err(e),
        }
    }
}

/// Squared Euclidean distance between the vector of `data` starting at
/// `base` and the codeword `e`.
fn distance(data: &Vec<Dual>, base: usize, e: &Vec<Dual>) -> (d: i64)
    requires
        data@.len() <= ELEMENT_BOUND,
        base + e@.len() <= data@.len(),
        e@.len() <= ELEMENT_BOUND,
        forall|i: int| base <= i < base + e@.len() ==> (#[trigger] data@[i]).in_range(),
        forall|c: int| 0 <= c < e@.len() ==> (#[trigger] e@[c]).in_range(),
    ensures
        d == sq_dist_prefix(data@, base as int, e@, e@.len() as int),
        0 <= d <= TERM_BOUND * e@.len(),
{
    let ld = e.len();
    let mut acc: i64 = 0;
    let mut c: usize = 0;
    while c < ld
        invariant
            ld == e@.len(),
            data@.len() <= ELEMENT_BOUND,
            base + ld <= data@.len(),
            ld <= ELEMENT_BOUND,
            forall|i: int| base <= i < base + ld ==> (#[trigger] data@[i]).in_range(),
            forall|cc: int| 0 <= cc < ld ==> (#[trigger] e@[cc]).in_range(),
            c <= ld,
            acc == sq_dist_prefix(data@, base as int, e@, c as int),
            0 <= acc <= TERM_BOUND * c,
        decreases ld - c,
    {
        let zd = data[base + c];
        let diff = zd.val - e[c].val;
        proof {
            assert(0 <= diff * diff <= TERM_BOUND) by (nonlinear_arith)
                requires
                    -2 * COMPONENT_BOUND <= diff <= 2 * COMPONENT_BOUND,
                    TERM_BOUND == 4 * COMPONENT_BOUND * COMPONENT_BOUND,
                    COMPONENT_BOUND == 1_000_000;
            assert(TERM_BOUND == 4_000_000_000_000);
            assert(acc + diff * diff <= TERM_BOUND * (c + 1)) by (nonlinear_arith)
                requires
                    0 <= diff * diff <= TERM_BOUND,
                    0 <= acc <= TERM_BOUND * c,
                    TERM_BOUND == 4_000_000_000_000;
            assert(TERM_BOUND * (c + 1) <= TERM_BOUND * ld) by (nonlinear_arith)
                requires
                    c < ld,
                    TERM_BOUND == 4_000_000_000_000;
        }
        acc = acc + diff * diff;
        c = c + 1;
    }
    acc
}

/// For each of the `vc` rows of `data`, the position of the codeword
/// nearest to it in squared Euclidean distance, taking the lowest position
/// on ties.
fn nearest_indices(cb: &Codebook, data: &Vec<Dual>, vc: usize) -> (idx: Vec<usize>)
    requires
        cb.wf(),
        cb.in_range(),
        data@.len() <= ELEMENT_BOUND,
        data@.len() == vc * cb.latent_dimension,
        forall|i: int| 0 <= i < data@.len() ==> (#[trigger] data@[i]).in_range(),
    ensures
        idx@.len() == vc,
        forall|v: int| 0 <= v < vc ==> (#[trigger] idx@[v]) < cb.entries@.len(),
        forall|v: int, j: int|
            #![trigger distance_sq(data@, cb.latent_dimension as int, v, cb.entries@[j]@)]
            0 <= v < vc && 0 <= j < cb.entries@.len() ==> distance_sq(
                data@,
                cb.latent_dimension as int,
                v,
                cb.entries@[idx@[v] as int]@,
            ) <= distance_sq(data@, cb.latent_dimension as int, v, cb.entries@[j]@),
        forall|v: int, j: int|
            #![trigger distance_sq(data@, cb.latent_dimension as int, v, cb.entries@[j]@)]
            0 <= v < vc && 0 <= j < idx@[v] ==> distance_sq(
                data@,
                cb.latent_dimension as int,
                v,
                cb.entries@[j]@,
            ) > distance_sq(data@, cb.latent_dimension as int, v, cb.entries@[idx@[v] as int]@),
{
    let ld = cb.latent_dimension;
    let cs = cb.entries.len();
    let mut idx: Vec<usize> = Vec::new();
    let mut v: usize = 0;
    while v < vc
        invariant
            cb.wf(),
            cb.in_range(),
            data@.len() <= ELEMENT_BOUND,
            data@.len() == vc * cb.latent_dimension,
            forall|i: int| 0 <= i < data@.len() ==> (#[trigger] data@[i]).in_range(),
            ld == cb.latent_dimension,
            cs == cb.entries@.len(),
            v <= vc,
            idx@.len() == v,
            forall|vv: int| 0 <= vv < v ==> (#[trigger] idx@[vv]) < cs,
            forall|vv: int, j: int|
                #![trigger distance_sq(data@, ld as int, vv, cb.entries@[j]@)]
                0 <= vv < v && 0 <= j < cs ==> distance_sq(
                    data@,
                    ld as int,
                    vv,
                    cb.entries@[idx@[vv] as int]@,
                ) <= distance_sq(data@, ld as int, vv, cb.entries@[j]@),
            forall|vv: int, j: int|
                #![trigger distance_sq(data@, ld as int, vv, cb.entries@[j]@)]
                0 <= vv < v && 0 <= j < idx@[vv] ==> distance_sq(
                    data@,
                    ld as int,
                    vv,
                    cb.entries@[j]@,
                ) > distance_sq(data@, ld as int, vv, cb.entries@[idx@[vv] as int]@),
        decreases vc - v,
    {
        proof {
            assert(0 <= v * ld && v * ld + ld <= vc * ld) by (nonlinear_arith)
                requires
                    0 <= v < vc,
                    1 <= ld;
        }
        let base = v * ld;
        let mut best = distance(data, base, &cb.entries[0]);
        let mut best_k: usize = 0;
        let mut k: usize = 1;
        while k < cs
            invariant
                cb.wf(),
                cb.in_range(),
                data@.len() <= ELEMENT_BOUND,
                forall|i: int| 0 <= i < data@.len() ==> (#[trigger] data@[i]).in_range(),
                ld == cb.latent_dimension,
                cs == cb.entries@.len(),
                base == v * ld,
                base + ld <= data@.len(),
                1 <= k <= cs,
                best_k < k,
                best == distance_sq(data@, ld as int, v as int, cb.entries@[best_k as int]@),
                forall|j: int|
                    0 <= j < k ==> best <= distance_sq(
                        data@,
                        ld as int,
                        v as int,
                        (#[trigger] cb.entries@[j])@,
                    ),
                forall|j: int|
                    0 <= j < best_k ==> distance_sq(
                        data@,
                        ld as int,
                        v as int,
                        (#[trigger] cb.entries@[j])@,
                    ) > best,
            decreases cs - k,
        {
            let d = distance(data, base, &cb.entries[k]);
            if d < best {
                best = d;
                best_k = k;
            }
            k = k + 1;
        }
        idx.push(best_k);
        v = v + 1;
    }
    idx
}

/// Builds the straight-through components (chosen codeword value, input
/// gradient) for every flat position, and accumulates the unnormalized
/// squared error and the two unnormalized loss gradients.
fn quantize_rows(cb: &Codebook, data: &Vec<Dual>, idx: &Vec<usize>, vc: usize) -> (out: (
    Vec<Dual>,
    i64,
    i64,
    i64,
))
    requires
        cb.wf(),
        cb.in_range(),
        data@.len() <= ELEMENT_BOUND,
        data@.len() == vc * cb.latent_dimension,
        forall|i: int| 0 <= i < data@.len() ==> (#[trigger] data@[i]).in_range(),
        idx@.len() == vc,
        forall|v: int| 0 <= v < vc ==> (#[trigger] idx@[v]) < cb.entries@.len(),
    ensures
        out.0@.len() == data@.len(),
        forall|i: int|
            0 <= i < data@.len() ==> (#[trigger] out.0@[i]).val == selected(
                cb.entries@,
                idx@,
                cb.latent_dimension as int,
                i,
            ).val && out.0@[i].grad == data@[i].grad,
        out.1 == sum_sq_err(data@, cb.entries@, idx@, cb.latent_dimension as int, data@.len() as int),
        0 <= out.1,
        out.2 == sum_codebook_grad(
            data@,
            cb.entries@,
            idx@,
            cb.latent_dimension as int,
            data@.len() as int,
        ),
        out.3 == sum_commit_grad(
            data@,
            cb.entries@,
            idx@,
            cb.latent_dimension as int,
            data@.len() as int,
        ),
{
    let ld = cb.latent_dimension;
    let n = data.len();
    let mut qd: Vec<Dual> = Vec::new();
    let mut sq_acc: i64 = 0;
    let mut gq_acc: i64 = 0;
    let mut gz_acc: i64 = 0;
    let mut v: usize = 0;
    while v < vc
        invariant
            cb.wf(),
            cb.in_range(),
            data@.len() <= ELEMENT_BOUND,
            data@.len() == vc * cb.latent_dimension,
            forall|i: int| 0 <= i < data@.len() ==> (#[trigger] data@[i]).in_range(),
            idx@.len() == vc,
            forall|vv: int| 0 <= vv < vc ==> (#[trigger] idx@[vv]) < cb.entries@.len(),
            ld == cb.latent_dimension,
            n == data@.len(),
            v <= vc,
            qd@.len() == v * ld,
            qd@.len() <= n,
            forall|i: int|
                0 <= i < qd@.len() ==> (#[trigger] qd@[i]).val == selected(
                    cb.entries@,
                    idx@,
                    ld as int,
                    i,
                ).val && qd@[i].grad == data@[i].grad,
            sq_acc == sum_sq_err(data@, cb.entries@, idx@, ld as int, qd@.len() as int),
            gq_acc == sum_codebook_grad(data@, cb.entries@, idx@, ld as int, qd@.len() as int),
            gz_acc == sum_commit_grad(data@, cb.entries@, idx@, ld as int, qd@.len() as int),
            0 <= sq_acc <= TERM_BOUND * qd@.len(),
            -(TERM_BOUND * qd@.len()) <= gq_acc <= TERM_BOUND * qd@.len(),
            -(TERM_BOUND * qd@.len()) <= gz_acc <= TERM_BOUND * qd@.len(),
        decreases vc - v,
    {
        proof {
            assert(0 <= v * ld && v * ld + ld <= vc * ld) by (nonlinear_arith)
                requires
                    0 <= v < vc,
                    1 <= ld;
        }
        let base = v * ld;
        let k = idx[v];
        let row = &cb.entries[k];
        let mut c: usize = 0;
        while c < ld
            invariant
                cb.wf(),
                cb.in_range(),
                data@.len() <= ELEMENT_BOUND,
                forall|i: int| 0 <= i < data@.len() ==> (#[trigger] data@[i]).in_range(),
                idx@.len() == vc,
                forall|vv: int| 0 <= vv < vc ==> (#[trigger] idx@[vv]) < cb.entries@.len(),
                ld == cb.latent_dimension,
                n == data@.len(),
                v < vc,
                base == v * ld,
                base + ld <= n,
                k == idx@[v as int],
                k < cb.entries@.len(),
                row == cb.entries@[k as int],
                c <= ld,
                qd@.len() == base + c,
                forall|i: int|
                    0 <= i < qd@.len() ==> (#[trigger] qd@[i]).val == selected(
                        cb.entries@,
                        idx@,
                        ld as int,
                        i,
                    ).val && qd@[i].grad == data@[i].grad,
                sq_acc == sum_sq_err(data@, cb.entries@, idx@, ld as int, qd@.len() as int),
                gq_acc == sum_codebook_grad(data@, cb.entries@, idx@, ld as int, qd@.len() as int),
                gz_acc == sum_commit_grad(data@, cb.entries@, idx@, ld as int, qd@.len() as int),
                0 <= sq_acc <= TERM_BOUND * qd@.len(),
                -(TERM_BOUND * qd@.len()) <= gq_acc <= TERM_BOUND * qd@.len(),
                -(TERM_BOUND * qd@.len()) <= gz_acc <= TERM_BOUND * qd@.len(),
            decreases ld - c,
        {
            let zd = data[base + c];
            let e = row[c];
            let diff = zd.val - e.val;
            proof {
                lemma_flat_index(v as int, c as int, ld as int);
                assert(TERM_BOUND == 4_000_000_000_000);
                assert(0 <= diff * diff <= TERM_BOUND && -TERM_BOUND <= 2 * diff * e.grad
                    <= TERM_BOUND && -TERM_BOUND <= 2 * diff * zd.grad <= TERM_BOUND && (-2) * diff
                    * e.grad == -(2 * diff * e.grad)) by (nonlinear_arith)
                    requires
                        -2_000_000 <= diff <= 2_000_000,
                        -1_000_000 <= e.grad <= 1_000_000,
                        -1_000_000 <= zd.grad <= 1_000_000,
                        TERM_BOUND == 4_000_000_000_000;
                assert(TERM_BOUND * (qd@.len() + 1) <= TERM_BOUND * n && TERM_BOUND * (qd@.len()
                    + 1) == TERM_BOUND * qd@.len() + TERM_BOUND) by (nonlinear_arith)
                    requires
                        qd@.len() < n,
                        n <= 1_000_000,
                        TERM_BOUND == 4_000_000_000_000;
            }
            qd.push(Dual { val: e.val, grad: zd.grad });
            sq_acc = sq_acc + diff * diff;
            gq_acc = gq_acc - 2 * diff * e.grad;
            gz_acc = gz_acc + 2 * diff * zd.grad;
            c = c + 1;
        }
        proof {
            assert((v + 1) * ld == v * ld + ld) by (nonlinear_arith);
        }
        v = v + 1;
    }
    (qd, sq_acc, gq_acc, gz_acc)
}

/// Copies a shape vector.
fn clone_dims(dims: &Vec<usize>) -> (out: Vec<usize>)
    ensures
        out@ == dims@,
{
    let mut out: Vec<usize> = Vec::new();
    let mut i: usize = 0;
    while i < dims.len()
        invariant
            i <= dims@.len(),
            out@ == dims@.take(i as int),
        decreases dims@.len() - i,
    {
        out.push(dims[i]);
        proof {
            assert(out@ =~= dims@.take(i as int + 1));
        }
        i = i + 1;
    }
    proof {
        assert(dims@.take(dims@.len() as int) =~= dims@);
    }
    out
}

impl Quantizer {
    /// Quantizes a batch of latent vectors against the codebook.
    ///
    /// Rejects the input, with a shape-mismatch error, exactly when its
    /// trailing axis differs from the codebook's latent dimension. On
    /// success the output holds, for every flat position, the chosen
    /// codeword's value with the input's gradient (the straight-through
    /// estimator); the chosen positions minimize the squared Euclidean
    /// distance, with the lowest position taken on ties; and the two
    /// losses are the exact flattened means, the commitment loss weighted
    /// by `commitment_beta`. On an empty batch both means are 0 over the
    /// denominator 1.
    pub fn forward(&self, latents: &Tensor, commitment_beta: Ratio) -> (r: Result<
        QuantizerOutput,
        Error,
    >)
        requires
            self.codebook.wf(),
            self.codebook.in_range(),
            latents.wf(),
            latents.in_range(),
            latents.data@.len() <= ELEMENT_BOUND,
            commitment_beta.num >= 0,
            commitment_beta.den >= 1,
        ensures
            r is Ok <==> latents.trailing_dim() == self.codebook.latent_dimension,
            r matches Err(e) ==> e == (Error::ShapeMismatch {
                expected: self.codebook.latent_dimension,
                found: latents.shape@.last(),
            }),
            r matches Ok(out) ==> ({
                let entries = self.codebook.entries@;
                let ld = self.codebook.latent_dimension as int;
                let z = latents.data@;
                let total = z.len() as int;
                let idx = out.indices.data@;
                &&& out.latents.wf()
                &&& out.latents.shape@ == latents.shape@
                &&& out.latents.data@.len() == total
                &&& out.indices.wf()
                &&& out.indices.shape@.len() == 2
                &&& out.indices.shape@[0] as int == latents.vector_count()
                &&& out.indices.shape@[1] == 1
                &&& idx.len() == latents.vector_count()
                &&& total == latents.vector_count() * ld
                &&& forall|v: int| 0 <= v < idx.len() ==> (#[trigger] idx[v]) < entries.len()
                &&& forall|v: int, j: int|
                    #![trigger distance_sq(z, ld, v, entries[j]@)]
                    0 <= v < idx.len() && 0 <= j < entries.len() ==> distance_sq(
                        z,
                        ld,
                        v,
                        entries[idx[v] as int]@,
                    ) <= distance_sq(z, ld, v, entries[j]@)
                &&& forall|v: int, j: int|
                    #![trigger distance_sq(z, ld, v, entries[j]@)]
                    0 <= v < idx.len() && 0 <= j < idx[v] ==> distance_sq(z, ld, v, entries[j]@)
                        > distance_sq(z, ld, v, entries[idx[v] as int]@)
                &&& forall|i: int|
                    0 <= i < total ==> (#[trigger] out.latents.data@[i]).val == selected(
                        entries,
                        idx,
                        ld,
                        i,
                    ).val
                &&& forall|i: int|
                    0 <= i < total ==> (#[trigger] out.latents.data@[i]).grad == z[i].grad
                &&& out.codebook_loss.num == sum_sq_err(z, entries, idx, ld, total)
                &&& out.codebook_loss.grad_num == sum_codebook_grad(z, entries, idx, ld, total)
                &&& out.codebook_loss.den == (if total == 0 { 1int } else { total })
                &&& out.commitment_loss.num == commitment_beta.num * sum_sq_err(
                    z,
                    entries,
                    idx,
                    ld,
                    total,
                )
                &&& out.commitment_loss.grad_num == commitment_beta.num * sum_commit_grad(
                    z,
                    entries,
                    idx,
                    ld,
                    total,
                )
                &&& out.commitment_loss.den == commitment_beta.den * (if total == 0 {
                    1int
                } else {
                    total
                })
                &&& out.codebook_loss.num >= 0
                &&& out.codebook_loss.den >= 1
                &&& out.commitment_loss.num >= 0
                &&& out.commitment_loss.den >= 1
            }),
    {
        let ld = self.codebook.latent_dimension;
        let n_axes = latents.shape.len();
        let found = latents.shape[n_axes - 1];
        if found != ld {
            return Err(Error::ShapeMismatch { expected: ld, found });
        }
        let total = latents.data.len();
        let vc = total / ld;
        proof {
            crate::tensor::lemma_dim_product_nonneg(latents.shape@.drop_last());
            assert(total as int == latents.vector_count() * ld);
            assert(vc as int == latents.vector_count()) by (nonlinear_arith)
                requires
                    total as int == latents.vector_count() * ld,
                    latents.vector_count() >= 0,
                    ld >= 1,
                    vc == total as int / ld as int;
            assert(total as int == vc * ld);
        }
        let idx_data = nearest_indices(&self.codebook, &latents.data, vc);
        let (q_data, sq, gq, gz) = quantize_rows(&self.codebook, &latents.data, &idx_data, vc);
        let out_shape = clone_dims(&latents.shape);
        let out_latents = Tensor { shape: out_shape, data: q_data };
        let mut idx_shape: Vec<usize> = Vec::new();
        idx_shape.push(vc);
        idx_shape.push(1);
        let indices = IndexTensor { shape: idx_shape, data: idx_data };
        proof {
            assert(indices.shape@.drop_last() =~= seq![vc]);
            assert(seq![vc].drop_last() =~= Seq::<usize>::empty());
            assert(dim_product(Seq::<usize>::empty()) == 1);
            assert(seq![vc].last() == vc);
            assert(dim_product(seq![vc]) == dim_product(seq![vc].drop_last()) * seq![vc].last());
            assert(dim_product(seq![vc]) == vc);
            assert(indices.shape@.len() == 2);
            assert(indices.shape@.last() == 1);
            assert(dim_product(indices.shape@) == dim_product(indices.shape@.drop_last())
                * indices.shape@.last());
            assert(dim_product(indices.shape@) == vc);
            assert(out_latents.shape@ == latents.shape@);
        }
        let den: i128 = if total == 0 {
            1
        } else {
            total as i128
        };
        let codebook_loss = Loss { num: sq as i128, den, grad_num: gq as i128 };
        proof {
            assert((commitment_beta.num as i128) * (sq as i128) >= 0 && i128::MIN
                <= (commitment_beta.num as i128) * (sq as i128) <= i128::MAX) by (nonlinear_arith)
                requires
                    0 <= commitment_beta.num < 0x8000_0000_0000_0000,
                    0 <= sq < 0x8000_0000_0000_0000;
            assert((commitment_beta.den as i128) * den >= 1 && (commitment_beta.den as i128) * den
                <= i128::MAX) by (nonlinear_arith)
                requires
                    1 <= commitment_beta.den < 0x8000_0000_0000_0000,
                    1 <= den < 0x8000_0000_0000_0000;
            assert(i128::MIN <= (commitment_beta.num as i128) * (gz as i128) <= i128::MAX)
                by (nonlinear_arith)
                requires
                    0 <= commitment_beta.num < 0x8000_0000_0000_0000,
                    -0x8000_0000_0000_0000 <= gz < 0x8000_0000_0000_0000;
        }
        let commitment_loss = Loss {
            num: (commitment_beta.num as i128) * (sq as i128),
            den: (commitment_beta.den as i128) * den,
            grad_num: (commitment_beta.num as i128) * (gz as i128),
        };
        Ok(QuantizerOutput { latents: out_latents, indices, codebook_loss, commitment_loss })
    }
}

/// With a one-hot gradient seed at position `p`, the sum of the first `n`
/// gradients of `s` is 1 once the sum covers `p` and 0 before.
proof fn lemma_sum_grads_one_hot(s: Seq<Dual>, p: int, n: int)
    requires
        0 <= p < s.len(),
        s[p].grad == 1,
        forall|i: int| 0 <= i < s.len() && i != p ==> (#[trigger] s[i]).grad == 0,
        0 <= n <= s.len(),
    ensures
        sum_grads(s, n) == if p < n {
            1int
        } else {
            0int
        },
    decreases n,
{
    if n > 0 {
        lemma_sum_grads_one_hot(s, p, n - 1);
    }
}

/// Straight-through gradient identity: the output's gradients equal the
/// input's, so seeding any single input component with gradient 1 (and
/// everything else with 0) makes the derivative of the sum of all output
/// components exactly 1 — during backpropagation the quantization behaves
/// as the identity.
pub proof fn lemma_straight_through_identity(z: Seq<Dual>, out: Seq<Dual>, p: int)
    requires
        z.len() == out.len(),
        forall|i: int| 0 <= i < out.len() ==> (#[trigger] out[i]).grad == z[i].grad,
        0 <= p < z.len(),
        z[p].grad == 1,
        forall|i: int| 0 <= i < z.len() && i != p ==> (#[trigger] z[i]).grad == 0,
    ensures
        sum_grads(out, out.len() as int) == 1,
{
    lemma_sum_grads_one_hot(out, p, out.len() as int);
}

/// Gradient isolation of the codebook loss: when every codeword component
/// carries gradient zero — that is, the seed variable is a component of
/// the input, whose side of the loss is behind a stop-gradient — the
/// codebook loss has derivative zero. No gradient flows from the codebook
/// loss into the input.
pub proof fn lemma_codebook_gradient_isolated(
    data: Seq<Dual>,
    entries: Seq<Vec<Dual>>,
    idx: Seq<usize>,
    ld: int,
    n: int,
)
    requires
        ld >= 1,
        0 <= n <= idx.len() * ld,
        forall|v: int| 0 <= v < idx.len() ==> (#[trigger] idx[v]) < entries.len(),
        forall|k: int| 0 <= k < entries.len() ==> (#[trigger] entries[k])@.len() == ld,
        forall|k: int, c: int|
            0 <= k < entries.len() && 0 <= c < ld ==> (#[trigger] entries[k]@[c]).grad == 0,
    ensures
        sum_codebook_grad(data, entries, idx, ld, n) == 0,
    decreases n,
{
    if n > 0 {
        lemma_codebook_gradient_isolated(data, entries, idx, ld, n - 1);
        let i = n - 1;
        let q = i / ld;
        let r = i % ld;
        vstd::arithmetic::div_mod::lemma_fundamental_div_mod(i, ld);
        vstd::arithmetic::div_mod::lemma_mod_bound(i, ld);
        assert(0 <= q && q < idx.len()) by (nonlinear_arith)
            requires
                i == ld * q + r,
                0 <= r < ld,
                0 <= i,
                i < idx.len() * ld,
                ld >= 1;
        assert(selected(entries, idx, ld, i).grad == 0);
        assert((-2) * (data[i].val - selected(entries, idx, ld, i).val) * selected(
            entries,
            idx,
            ld,
            i,
        ).grad == 0) by (nonlinear_arith)
            requires
                selected(entries, idx, ld, i).grad == 0;
    }
}

/// Gradient isolation of the commitment loss: when every input component
/// carries gradient zero — that is, the seed variable is a codeword
/// component, whose side of the loss is behind a stop-gradient — the
/// unweighted commitment loss has derivative zero. No gradient flows from
/// the commitment loss into the codebook.
pub proof fn lemma_commitment_gradient_isolated(
    data: Seq<Dual>,
    entries: Seq<Vec<Dual>>,
    idx: Seq<usize>,
    ld: int,
    n: int,
)
    requires
        0 <= n <= data.len(),
        forall|i: int| 0 <= i < data.len() ==> (#[trigger] data[i]).grad == 0,
    ensures
        sum_commit_grad(data, entries, idx, ld, n) == 0,
    decreases n,
{
    if n > 0 {
        lemma_commitment_gradient_isolated(data, entries, idx, ld, n - 1);
        let i = n - 1;
        assert(2 * (data[i].val - selected(entries, idx, ld, i).val) * data[i].grad == 0)
            by (nonlinear_arith)
            requires
                data[i].grad == 0;
    }
}

} // verus!
