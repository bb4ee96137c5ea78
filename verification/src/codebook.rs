//! The codebook: an owned, ordered table of learnable codewords, each a
//! fixed-length vector of [`Dual`] components, with lookup by index. The
//! quantizer reads the table; an external optimizer writes it through
//! [`Codebook::set_codeword`].

use vstd::arithmetic::div_mod::lemma_fundamental_div_mod_converse;
use vstd::prelude::*;

use crate::dual::Dual;
use crate::error::Error;
use crate::tensor::{IndexTensor, Tensor, dim_product};

verus! {

/// The component a flat lookup places at position `i` when each chosen
/// index of `idx` is replaced by its codeword of length `ld`: component
/// `i % ld` of the codeword chosen for vector `i / ld`.
pub open spec fn selected(entries: Seq<Vec<Dual>>, idx: Seq<usize>, ld: int, i: int) -> Dual {
    entries[idx[i / ld] as int]@[i % ld]
}

/// Position `v * ld + c` of a flat row-major layout belongs to row `v`,
/// column `c`.
pub proof fn lemma_flat_index(v: int, c: int, ld: int)
    requires
        0 <= v,
        0 <= c < ld,
    ensures
        (v * ld + c) / ld == v,
        (v * ld + c) % ld == c,
{
    lemma_fundamental_div_mod_converse(v * ld + c, ld, v, c);
}

/// A fixed-size table of `codebook_size` learnable codewords of dimension
/// `latent_dimension`.
#[derive(Debug)]
pub struct Codebook {
    pub latent_dimension: usize,
    pub entries: Vec<Vec<Dual>>,
}

impl Codebook {
    /// Both sizes are positive and every codeword has exactly
    /// `latent_dimension` components; this holds from construction on and
    /// no operation of the crate breaks it.
    pub open spec fn wf(self) -> bool {
        &&& self.latent_dimension >= 1
        &&& self.entries@.len() >= 1
        &&& forall|k: int|
            0 <= k < self.entries@.len() ==> (#[trigger] self.entries@[k])@.len()
                == self.latent_dimension
    }

    /// Every component of every codeword is small enough for the
    /// quantizer's exact arithmetic.
    pub open spec fn in_range(self) -> bool {
        forall|k: int, c: int|
            0 <= k < self.entries@.len() && 0 <= c < self.entries@[k]@.len()
                ==> (#[trigger] self.entries@[k]@[c]).in_range()
    }

    /// Builds a zero-initialized codebook; rejects a size of zero on either
    /// axis. Codeword values are then set by the external training
    /// procedure through [`Codebook::set_codeword`].
    pub fn new(codebook_size: usize, latent_dimension: usize) -> (r: Result<Codebook, Error>)
        ensures
            r is Ok <==> codebook_size >= 1 && latent_dimension >= 1,
            r matches Err(e) ==> e == (Error::ShapeMismatch { expected: 1, found: 0 }),
            r matches Ok(cb) ==> {
                &&& cb.wf()
                &&& cb.in_range()
                &&& cb.latent_dimension == latent_dimension
                &&& cb.entries@.len() == codebook_size
                &&& forall|k: int, c: int|
                    0 <= k < codebook_size && 0 <= c < latent_dimension
                        ==> (#[trigger] cb.entries@[k]@[c]) == (Dual { val: 0, grad: 0 })
            },
    {
        if codebook_size == 0 {
            return Err(Error::ShapeMismatch { expected: 1, found: 0 });
        }
        if latent_dimension == 0 {
            return Err(Error::ShapeMismatch { expected: 1, found: 0 });
        }
        let mut entries: Vec<Vec<Dual>> = Vec::new();
        let mut k: usize = 0;
        while k < codebook_size
            invariant
                k <= codebook_size,
                entries@.len() == k,
                forall|kk: int|
                    0 <= kk < k ==> (#[trigger] entries@[kk])@.len() == latent_dimension,
                forall|kk: int, c: int|
                    0 <= kk < k && 0 <= c < latent_dimension
                        ==> (#[trigger] entries@[kk]@[c]) == (Dual { val: 0, grad: 0 }),
            decreases codebook_size - k,
        {
            let mut row: Vec<Dual> = Vec::new();
            let mut c: usize = 0;
            while c < latent_dimension
                invariant
                    c <= latent_dimension,
                    row@.len() == c,
                    forall|j: int| 0 <= j < c ==> (#[trigger] row@[j]) == (Dual { val: 0, grad: 0 }),
                decreases latent_dimension - c,
            {
                row.push(Dual { val: 0, grad: 0 });
                c = c + 1;
            }
            entries.push(row);
            k = k + 1;
        }
        Ok(Codebook { latent_dimension, entries })
    }

    /// The number of codewords in the table.
    pub fn codebook_size(&self) -> (n: usize)
        ensures
            n == self.entries@.len(),
    {
        self.entries.len()
    }

    /// The full table as a `[codebook_size, latent_dimension]` matrix:
    /// position `i` of the flat data is component `i % latent_dimension`
    /// of codeword `i / latent_dimension`.
    pub fn table(&self) -> (t: Tensor)
        requires
            self.wf(),
        ensures
            t.wf(),
            t.shape@.len() == 2,
            t.shape@[0] == self.entries@.len(),
            t.shape@[1] == self.latent_dimension,
            t.data@.len() == self.entries@.len() * self.latent_dimension,
            forall|i: int|
                0 <= i < t.data@.len() ==> (#[trigger] t.data@[i]) == self.entries@[i
                    / self.latent_dimension as int]@[i % self.latent_dimension as int],
    {
        let ld = self.latent_dimension;
        let cs = self.entries.len();
        let mut data: Vec<Dual> = Vec::new();
        let mut k: usize = 0;
        while k < cs
            invariant
                self.wf(),
                ld == self.latent_dimension,
                cs == self.entries@.len(),
                k <= cs,
                data@.len() == k * ld,
                forall|i: int|
                    0 <= i < data@.len() ==> (#[trigger] data@[i]) == self.entries@[i
                        / ld as int]@[i % ld as int],
            decreases cs - k,
        {
            let row = &self.entries[k];
            let mut c: usize = 0;
            while c < ld
                invariant
                    self.wf(),
                    ld == self.latent_dimension,
                    cs == self.entries@.len(),
                    k < cs,
                    row == self.entries@[k as int],
                    c <= ld,
                    data@.len() == k * ld + c,
                    forall|i: int|
                        0 <= i < data@.len() ==> (#[trigger] data@[i]) == self.entries@[i
                            / ld as int]@[i % ld as int],
                decreases ld - c,
            {
                data.push(row[c]);
                proof {
                    lemma_flat_index(k as int, c as int, ld as int);
                }
                c = c + 1;
            }
            proof {
                assert((k + 1) * ld == k * ld + ld) by (nonlinear_arith);
            }
            k = k + 1;
        }
        let mut shape: Vec<usize> = Vec::new();
        shape.push(cs);
        shape.push(ld);
        let t = Tensor { shape, data };
        proof {
            assert(t.shape@.drop_last() =~= seq![cs]);
            assert(seq![cs].drop_last() =~= Seq::<usize>::empty());
            assert(dim_product(Seq::<usize>::empty()) == 1);
            assert(dim_product(seq![cs]) == dim_product(seq![cs].drop_last()) * seq![cs].last());
            assert(dim_product(t.shape@) == dim_product(t.shape@.drop_last()) * t.shape@.last());
        }
        t
    }

    /// Replaces one codeword; the write path granted to the external
    /// optimizer. No operation of the quantizer itself calls this.
    pub fn set_codeword(&mut self, index: usize, values: Vec<Dual>)
        requires
            old(self).wf(),
            index < old(self).entries@.len(),
            values@.len() == old(self).latent_dimension,
        ensures
            final(self).wf(),
            final(self).latent_dimension == old(self).latent_dimension,
            final(self).entries@ == old(self).entries@.update(index as int, values),
    {
        self.entries.set(index, values);
    }

    /// Replaces each index of `indices` by the codeword it names. The
    /// result keeps the index tensor's shape except that the trailing
    /// axis, which must be 1, becomes `latent_dimension`.
    pub fn lookup(&self, indices: &IndexTensor) -> (t: Tensor)
        requires
            self.wf(),
            indices.wf(),
            indices.shape@.last() == 1,
            forall|i: int|
                0 <= i < indices.data@.len() ==> (#[trigger] indices.data@[i]) < self.entries@.len(),
        ensures
            t.wf(),
            t.shape@ == indices.shape@.update(
                indices.shape@.len() - 1,
                self.latent_dimension,
            ),
            t.data@.len() == indices.data@.len() * self.latent_dimension,
            forall|i: int|
                0 <= i < t.data@.len() ==> (#[trigger] t.data@[i])
                    == selected(self.entries@, indices.data@, self.latent_dimension as int, i),
    {
        let ld = self.latent_dimension;
        let n = indices.data.len();
        let n_axes = indices.shape.len();
        let mut out_shape: Vec<usize> = Vec::new();
        let mut a: usize = 0;
        while a < n_axes - 1
            invariant
                n_axes == indices.shape@.len(),
                n_axes >= 1,
                a <= n_axes - 1,
                out_shape@.len() == a,
                forall|j: int| 0 <= j < a ==> out_shape@[j] == indices.shape@[j],
            decreases indices.shape@.len() - a,
        {
            out_shape.push(indices.shape[a]);
            a = a + 1;
        }
        out_shape.push(ld);
        proof {
            assert(out_shape@ =~= indices.shape@.update(indices.shape@.len() - 1, ld));
            assert(out_shape@.drop_last() =~= indices.shape@.drop_last());
            assert(dim_product(indices.shape@) == dim_product(indices.shape@.drop_last()));
        }
        let mut out_data: Vec<Dual> = Vec::new();
        let mut v: usize = 0;
        while v < n
            invariant
                self.wf(),
                n == indices.data@.len(),
                ld == self.latent_dimension,
                forall|i: int|
                    0 <= i < indices.data@.len() ==> (#[trigger] indices.data@[i])
                        < self.entries@.len(),
                v <= n,
                out_data@.len() == v * ld,
                forall|i: int|
                    0 <= i < out_data@.len() ==> (#[trigger] out_data@[i])
                        == selected(self.entries@, indices.data@, ld as int, i),
            decreases n - v,
        {
            let k = indices.data[v];
            let row = &self.entries[k];
            let mut c: usize = 0;
            while c < ld
                invariant
                    self.wf(),
                    n == indices.data@.len(),
                    ld == self.latent_dimension,
                    forall|i: int|
                        0 <= i < indices.data@.len() ==> (#[trigger] indices.data@[i])
                            < self.entries@.len(),
                    v < n,
                    k == indices.data@[v as int],
                    row == self.entries@[k as int],
                    c <= ld,
                    out_data@.len() == v * ld + c,
                    forall|i: int|
                        0 <= i < out_data@.len() ==> (#[trigger] out_data@[i])
                            == selected(self.entries@, indices.data@, ld as int, i),
                decreases ld - c,
            {
                out_data.push(row[c]);
                proof {
                    lemma_flat_index(v as int, c as int, ld as int);
                }
                c = c + 1;
            }
            proof {
                assert((v + 1) * ld == v * ld + ld) by (nonlinear_arith);
            }
            v = v + 1;
        }
        let t = Tensor { shape: out_shape, data: out_data };
        proof {
            assert(t.shape@.drop_last() =~= indices.shape@.drop_last());
            assert(t.shape@.last() == ld);
            assert(dim_product(t.shape@) == dim_product(indices.shape@.drop_last()) * ld);
        }
        t
    }
}

} // verus!
