//! Equality of matrices: the cells, taken in row-major order, are equal as
//! binary64 values. The extents are not looked at.

use vstd::prelude::*;
use vstd::std_specs::cmp::PartialEqSpecImpl;
use crate::lin_alg::matrix::Matrix;
use crate::lin_alg::scalar::{equals, same_value};

verus! {

/// Two buffers hold equal values, place by place.
pub open spec fn same_cells(a: Seq<u64>, b: Seq<u64>) -> bool {
    &&& a.len() == b.len()
    &&& forall|i: int| 0 <= i < a.len() ==> same_value(#[trigger] a[i], b[i])
}

impl PartialEq for Matrix {
    fn eq(&self, other: &Self) -> (r: bool) {
        let n = self.data.len();
        if other.data.len() != n {
            return false;
        }
        let mut i: usize = 0;
        while i < n
            invariant
                n == self.data.len(),
                n == other.data.len(),
                i <= n,
                forall|j: int| 0 <= j < i ==> same_value(#[trigger] self.data[j], other.data[j]),
            decreases n - i,
        {
            if !equals(self.data[i], other.data[i]) {
                return false;
            }
            i += 1;
        }
        true
    }
}

impl PartialEqSpecImpl for Matrix {
    open spec fn obeys_eq_spec() -> bool {
        true
    }

    open spec fn eq_spec(&self, other: &Self) -> bool {
        same_cells(self.data@, other.data@)
    }
}

} // verus!
