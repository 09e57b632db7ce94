//! Arithmetic of equal strides within a span: pages in a region, chunks
//! below the end of a region.

use vstd::prelude::*;
use vstd::arithmetic::div_mod::{
    lemma_fundamental_div_mod, lemma_hoist_over_denominator, lemma_mod_bound,
    lemma_mod_multiples_vanish,
};

verus! {

/// `index` strides of `size` fit in `span` exactly if `index` is at most the
/// quotient of `span` by `size`.
pub proof fn lemma_strides_fit(span: int, size: int, index: int)
    requires
        0 <= span,
        0 < size,
        0 <= index,
    ensures
        index * size <= span <==> index <= span / size,
        (index + 1) * size == index * size + size,
        0 <= index * size,
{
    let count = span / size;
    lemma_fundamental_div_mod(span, size);
    lemma_mod_bound(span, size);
    assert((index + 1) * size == index * size + size) by (nonlinear_arith);
    assert(0 <= index * size) by (nonlinear_arith)
        requires
            0 <= index,
            0 < size,
    ;
    assert(size * count == count * size) by (nonlinear_arith);
    if index <= count {
        assert(index * size <= count * size) by (nonlinear_arith)
            requires
                index <= count,
                size > 0,
        ;
    } else {
        assert(index * size >= (count + 1) * size) by (nonlinear_arith)
            requires
                index >= count + 1,
                size > 0,
        ;
        assert((count + 1) * size == count * size + size) by (nonlinear_arith);
    }
}

/// After `index` strides of `size`, the span that is left holds `index`
/// strides fewer, and a multiple of `size` stays one.
pub proof fn lemma_strides_left(span: int, size: int, index: int)
    requires
        0 <= span,
        0 < size,
        0 <= index,
        index * size <= span,
    ensures
        (span - index * size) / size == span / size - index,
        (span - index * size) % size == span % size,
{
    lemma_hoist_over_denominator(span - index * size, index, size as nat);
    lemma_mod_multiples_vanish(-index, span, size);
    assert(size * (-index) + span == span - index * size) by (nonlinear_arith);
}

} // verus!
