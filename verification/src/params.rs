//! Layout of the flat parameter buffer.
//!
//! The trainable state of the network is packed into one contiguous
//! buffer: first the `nnz` connection weights, then six per-neuron
//! windows — the bias `H` and the five activation shape parameters
//! `A, B, C, D, E`.  This module owns the arithmetic of that layout:
//! validating a buffer length against a weight count, cutting a buffer
//! into its seven named parts, and packing seven parts back into one
//! buffer.  Cutting and packing are proved inverse to each other, so a
//! resize of the connection set can cut, edit and repack the buffer
//! without disturbing a single value.

use vstd::prelude::*;

use crate::errors::EngineError;

verus! {

/// The extents of the seven windows of the flat buffer: `nnz` weight
/// words, then six windows of `per_neuron` words each.
#[derive(Clone, Copy, Debug, PartialEq, Eq, Structural)]
pub struct ParamLayout {
    pub nnz: usize,
    pub per_neuron: usize,
}

/// The seven named parts of the buffer.
pub struct ParamParts {
    pub weights: Vec<u32>,
    pub bias: Vec<u32>,
    pub a: Vec<u32>,
    pub b: Vec<u32>,
    pub c: Vec<u32>,
    pub d: Vec<u32>,
    pub e: Vec<u32>,
}

impl ParamLayout {
    /// Total length of a buffer with this layout.
    pub open spec fn total(self) -> int {
        self.nnz + 6 * self.per_neuron
    }

    /// Start of the window `w` (0 is the weights, then `H, A, B, C, D,
    /// E` in that order).
    pub open spec fn start(self, w: int) -> int {
        if w <= 0 {
            0
        } else {
            self.nnz + (w - 1) * self.per_neuron
        }
    }

    /// Derives the layout from a buffer length and a weight count: the
    /// remainder after the weights must cut evenly into the six
    /// per-neuron windows.  Fails with `ShapeMismatch` exactly when it
    /// does not.
    pub fn infer(total_len: usize, nnz: usize) -> (result: Result<ParamLayout, EngineError>)
        ensures
            match result {
                Ok(layout) => {
                    &&& nnz <= total_len
                    &&& (total_len - nnz) % 6 == 0
                    &&& layout.nnz == nnz
                    &&& layout.per_neuron == (total_len - nnz) / 6
                    &&& layout.total() == total_len
                },
                Err(e) => {
                    &&& e == EngineError::ShapeMismatch
                    &&& !(nnz <= total_len && (total_len - nnz) % 6 == 0)
                },
            },
    {
        if nnz > total_len {
            return Err(EngineError::ShapeMismatch);
        }
        let rem = total_len - nnz;
        if rem % 6 != 0 {
            return Err(EngineError::ShapeMismatch);
        }
        let per_neuron = rem / 6;
        proof {
            assert(6 * (rem as int / 6) == rem);
        }
        Ok(ParamLayout { nnz, per_neuron })
    }
}

impl ParamParts {
    /// The six per-neuron parts agree in length.
    pub open spec fn wf(self) -> bool {
        &&& self.bias@.len() == self.a@.len()
        &&& self.bias@.len() == self.b@.len()
        &&& self.bias@.len() == self.c@.len()
        &&& self.bias@.len() == self.d@.len()
        &&& self.bias@.len() == self.e@.len()
    }

    /// The layout these parts pack into.
    pub open spec fn layout(self) -> ParamLayout {
        ParamLayout {
            nnz: self.weights@.len() as usize,
            per_neuron: self.bias@.len() as usize,
        }
    }

    /// The packed buffer: the seven parts in layout order.
    pub open spec fn packed(self) -> Seq<u32> {
        self.weights@ + self.bias@ + self.a@ + self.b@ + self.c@ + self.d@ + self.e@
    }
}

/// An element-for-element copy of the window `start .. end` of a
/// buffer.
fn copy_window(v: &Vec<u32>, start: usize, end: usize) -> (r: Vec<u32>)
    requires
        start <= end <= v@.len(),
    ensures
        r@ == v@.subrange(start as int, end as int),
{
    let mut r: Vec<u32> = Vec::new();
    for i in start..end
        invariant
            start <= i <= end <= v@.len(),
            r@.len() == i - start,
            forall|j: int| 0 <= j < r@.len() ==> r@[j] == v@[start + j],
    {
        r.push(v[i]);
    }
    proof {
        assert(r@ =~= v@.subrange(start as int, end as int));
    }
    r
}

/// Appends a whole part to the buffer being packed.
fn push_all(out: &mut Vec<u32>, v: &Vec<u32>)
    requires
        old(out)@.len() + v@.len() <= usize::MAX,
    ensures
        final(out)@ == old(out)@ + v@,
{
    let ghost base = out@;
    for i in 0..v.len()
        invariant
            base.len() + v@.len() <= usize::MAX,
            out@.len() == base.len() + i,
            out@ == base + v@.subrange(0, i as int),
    {
        out.push(v[i]);
        proof {
            assert(base + v@.subrange(0, i + 1) =~= (base + v@.subrange(0, i as int)).push(
                v@[i as int],
            ));
        }
    }
    proof {
        assert(v@.subrange(0, v@.len() as int) =~= v@);
    }
}

/// Cuts a buffer into its seven named windows.
pub fn split_params(buf: &Vec<u32>, layout: ParamLayout) -> (parts: ParamParts)
    requires
        buf@.len() == layout.total(),
    ensures
        parts.wf(),
        parts.layout() == layout,
        parts.weights@ == buf@.subrange(layout.start(0), layout.start(1)),
        parts.bias@ == buf@.subrange(layout.start(1), layout.start(2)),
        parts.a@ == buf@.subrange(layout.start(2), layout.start(3)),
        parts.b@ == buf@.subrange(layout.start(3), layout.start(4)),
        parts.c@ == buf@.subrange(layout.start(4), layout.start(5)),
        parts.d@ == buf@.subrange(layout.start(5), layout.start(6)),
        parts.e@ == buf@.subrange(layout.start(6), layout.total()),
        parts.packed() == buf@,
    {
        let total = buf.len();
        let nnz = layout.nnz;
        let per = layout.per_neuron;
        let weights = copy_window(buf, 0, nnz);
        let bias = copy_window(buf, nnz, nnz + per);
        let a = copy_window(buf, nnz + per, nnz + 2 * per);
        let b = copy_window(buf, nnz + 2 * per, nnz + 3 * per);
        let c = copy_window(buf, nnz + 3 * per, nnz + 4 * per);
        let d = copy_window(buf, nnz + 4 * per, nnz + 5 * per);
        let e = copy_window(buf, nnz + 5 * per, nnz + 6 * per);
        let parts = ParamParts { weights, bias, a, b, c, d, e };
        proof {
            assert(layout.start(1) == nnz as int);
            assert(layout.start(2) == nnz + per);
            assert(layout.start(3) == nnz + 2 * per);
            assert(layout.start(4) == nnz + 3 * per);
            assert(layout.start(5) == nnz + 4 * per);
            assert(layout.start(6) == nnz + 5 * per);
            assert(parts.packed() =~= buf@);
        }
        parts
    }

/// Packs seven parts back into one flat buffer, in layout order.
pub fn pack_params(parts: &ParamParts) -> (buf: Vec<u32>)
    requires
        parts.packed().len() <= usize::MAX,
    ensures
        buf@ == parts.packed(),
{
    let mut buf: Vec<u32> = Vec::new();
    push_all(&mut buf, &parts.weights);
    push_all(&mut buf, &parts.bias);
    push_all(&mut buf, &parts.a);
    push_all(&mut buf, &parts.b);
    push_all(&mut buf, &parts.c);
    push_all(&mut buf, &parts.d);
    push_all(&mut buf, &parts.e);
    proof {
        assert(buf@ =~= parts.packed());
    }
    buf
}

/// Slice-and-reassign law, packing direction: the parts cut from a
/// buffer pack back into that very buffer.
pub proof fn lemma_pack_inverts_split(buf: Seq<u32>, layout: ParamLayout, parts: ParamParts)
    requires
        buf.len() == layout.total(),
        parts.weights@ == buf.subrange(layout.start(0), layout.start(1)),
        parts.bias@ == buf.subrange(layout.start(1), layout.start(2)),
        parts.a@ == buf.subrange(layout.start(2), layout.start(3)),
        parts.b@ == buf.subrange(layout.start(3), layout.start(4)),
        parts.c@ == buf.subrange(layout.start(4), layout.start(5)),
        parts.d@ == buf.subrange(layout.start(5), layout.start(6)),
        parts.e@ == buf.subrange(layout.start(6), layout.total()),
    ensures
        parts.packed() == buf,
{
    assert(parts.packed() =~= buf);
}

/// Slice-and-reassign law, cutting direction: a packed buffer cut at
/// the layout boundaries returns the seven parts unchanged.
pub proof fn lemma_split_inverts_pack(parts: ParamParts)
    requires
        parts.wf(),
        parts.packed().len() <= usize::MAX,
    ensures
        parts.packed().len() == parts.layout().total(),
        parts.packed().subrange(parts.layout().start(0), parts.layout().start(1))
            == parts.weights@,
        parts.packed().subrange(parts.layout().start(1), parts.layout().start(2)) == parts.bias@,
        parts.packed().subrange(parts.layout().start(2), parts.layout().start(3)) == parts.a@,
        parts.packed().subrange(parts.layout().start(3), parts.layout().start(4)) == parts.b@,
        parts.packed().subrange(parts.layout().start(4), parts.layout().start(5)) == parts.c@,
        parts.packed().subrange(parts.layout().start(5), parts.layout().start(6)) == parts.d@,
        parts.packed().subrange(parts.layout().start(6), parts.layout().total()) == parts.e@,
{
    let s1 = parts.weights@ + parts.bias@;
    let s2 = s1 + parts.a@;
    let s3 = s2 + parts.b@;
    let s4 = s3 + parts.c@;
    let s5 = s4 + parts.d@;
    let s6 = s5 + parts.e@;
    assert(parts.packed() == s6);
    let nnz = parts.weights@.len() as int;
    let per = parts.bias@.len() as int;
    let layout = parts.layout();
    assert(layout.nnz == nnz);
    assert(layout.per_neuron == per);
    assert(layout.start(0) == 0);
    assert(layout.start(1) == nnz + 0 * per);
    assert(layout.start(2) == nnz + 1 * per);
    assert(layout.start(3) == nnz + 2 * per);
    assert(layout.start(4) == nnz + 3 * per);
    assert(layout.start(5) == nnz + 4 * per);
    assert(layout.start(6) == nnz + 5 * per);
    assert(layout.total() == nnz + 6 * per);
    assert(parts.packed().len() == nnz + 6 * per);
    assert forall|i: int| 0 <= i < nnz implies s6[i] == parts.weights@[i] by {
        assert(s6[i] == s5[i]);
        assert(s5[i] == s4[i]);
        assert(s4[i] == s3[i]);
        assert(s3[i] == s2[i]);
        assert(s2[i] == s1[i]);
        assert(s1[i] == parts.weights@[i]);
    }
    assert forall|i: int| 0 <= i < per implies s6[nnz + i] == parts.bias@[i] by {
        assert(s6[nnz + i] == s5[nnz + i]);
        assert(s5[nnz + i] == s4[nnz + i]);
        assert(s4[nnz + i] == s3[nnz + i]);
        assert(s3[nnz + i] == s2[nnz + i]);
        assert(s2[nnz + i] == s1[nnz + i]);
        assert(s1[nnz + i] == parts.bias@[i]);
    }
    assert forall|i: int| 0 <= i < per implies s6[nnz + per + i] == parts.a@[i] by {
        assert(s6[nnz + per + i] == s5[nnz + per + i]);
        assert(s5[nnz + per + i] == s4[nnz + per + i]);
        assert(s4[nnz + per + i] == s3[nnz + per + i]);
        assert(s3[nnz + per + i] == s2[nnz + per + i]);
        assert(s2[nnz + per + i] == parts.a@[i]);
    }
    assert forall|i: int| 0 <= i < per implies s6[nnz + 2 * per + i] == parts.b@[i] by {
        assert(s6[nnz + 2 * per + i] == s5[nnz + 2 * per + i]);
        assert(s5[nnz + 2 * per + i] == s4[nnz + 2 * per + i]);
        assert(s4[nnz + 2 * per + i] == s3[nnz + 2 * per + i]);
        assert(s3[nnz + 2 * per + i] == parts.b@[i]);
    }
    assert forall|i: int| 0 <= i < per implies s6[nnz + 3 * per + i] == parts.c@[i] by {
        assert(s6[nnz + 3 * per + i] == s5[nnz + 3 * per + i]);
        assert(s5[nnz + 3 * per + i] == s4[nnz + 3 * per + i]);
        assert(s4[nnz + 3 * per + i] == parts.c@[i]);
    }
    assert forall|i: int| 0 <= i < per implies s6[nnz + 4 * per + i] == parts.d@[i] by {
        assert(s6[nnz + 4 * per + i] == s5[nnz + 4 * per + i]);
        assert(s5[nnz + 4 * per + i] == parts.d@[i]);
    }
    assert forall|i: int| 0 <= i < per implies s6[nnz + 5 * per + i] == parts.e@[i] by {
        assert(s6[nnz + 5 * per + i] == parts.e@[i]);
    }
    assert(parts.packed().subrange(parts.layout().start(0), parts.layout().start(1))
        =~= parts.weights@);
    assert(parts.packed().subrange(parts.layout().start(1), parts.layout().start(2))
        =~= parts.bias@);
    assert(parts.packed().subrange(parts.layout().start(2), parts.layout().start(3))
        =~= parts.a@);
    assert(parts.packed().subrange(parts.layout().start(3), parts.layout().start(4))
        =~= parts.b@);
    assert(parts.packed().subrange(parts.layout().start(4), parts.layout().start(5))
        =~= parts.c@);
    assert(parts.packed().subrange(parts.layout().start(5), parts.layout().start(6))
        =~= parts.d@);
    assert(parts.packed().subrange(parts.layout().start(6), parts.layout().total())
        =~= parts.e@);
}

} // verus!
