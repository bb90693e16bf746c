//! Quantization matrices: the two base tables, the pair that a stream
//! carries, and the multiplication that undoes quantization.

use crate::blocks::Block;
use crate::error::CodecError;
use vstd::prelude::*;

verus! {

/// The base table for luma, row by row.
pub const QMATRIX_LUMA: [u8; 64] = [
    16, 11, 10, 16, 24, 40, 51, 61,
    12, 12, 14, 19, 26, 58, 60, 55,
    14, 13, 16, 24, 40, 57, 69, 56,
    14, 17, 22, 29, 51, 87, 80, 62,
    18, 22, 37, 56, 68, 109, 103, 77,
    24, 35, 55, 64, 81, 104, 113, 92,
    49, 64, 78, 87, 103, 121, 120, 101,
    72, 92, 95, 98, 112, 100, 103, 99,
];

/// The base table for chroma, row by row.
pub const QMATRIX_CHROMA: [u8; 64] = [
    17, 18, 24, 47, 99, 99, 99, 99,
    18, 21, 26, 66, 99, 99, 99, 99,
    24, 26, 56, 99, 99, 99, 99, 99,
    47, 66, 99, 99, 99, 99, 99, 99,
    99, 99, 99, 99, 99, 99, 99, 99,
    99, 99, 99, 99, 99, 99, 99, 99,
    99, 99, 99, 99, 99, 99, 99, 99,
    99, 99, 99, 99, 99, 99, 99, 99,
];

/// The number of bytes that a pair of matrices takes in a stream.
pub const QMATRICES_LEN: usize = 128;

/// The divisors of one stream: a matrix for luma and one for chroma, each
/// row by row.
#[derive(Clone, Copy, Debug)]
pub struct QMatrices {
    pub luma: [u8; 64],
    pub chroma: [u8; 64],
}

/// Whether every divisor is at least one.
pub open spec fn divisors_positive(matrix: Seq<u8>) -> bool {
    forall|i: int| 0 <= i < matrix.len() ==> #[trigger] matrix[i] >= 1
}

fn all_positive(matrix: &[u8; 64]) -> (ok: bool)
    ensures
        ok == divisors_positive(matrix@),
{
    let mut i: usize = 0;
    while i < 64
        invariant
            0 <= i <= 64,
            forall|j: int| 0 <= j < i ==> #[trigger] matrix@[j] >= 1,
        decreases 64 - i,
    {
        if matrix[i] == 0 {
            return false;
        }
        i = i + 1;
    }
    true
}

impl QMatrices {
    /// The bytes of the pair: the luma matrix and then the chroma matrix.
    pub open spec fn bytes(&self) -> Seq<u8> {
        self.luma@ + self.chroma@
    }

    /// Whether both matrices hold divisors of at least one.
    pub open spec fn spec_is_positive(&self) -> bool {
        divisors_positive(self.luma@) && divisors_positive(self.chroma@)
    }

    /// The base tables themselves.
    pub fn base() -> (q: QMatrices)
        ensures
            q.luma == QMATRIX_LUMA,
            q.chroma == QMATRIX_CHROMA,
    {
        QMatrices { luma: QMATRIX_LUMA, chroma: QMATRIX_CHROMA }
    }

    /// Whether both matrices hold divisors of at least one.
    #[verifier::when_used_as_spec(spec_is_positive)]
    pub fn is_positive(&self) -> (ok: bool)
        ensures
            ok == self.spec_is_positive(),
    {
        all_positive(&self.luma) && all_positive(&self.chroma)
    }

    /// Appends the 128 bytes of the pair to `out`.
    pub fn write(&self, out: &mut Vec<u8>)
        ensures
            final(out)@ == old(out)@ + self.bytes(),
    {
        let mut i: usize = 0;
        while i < 64
            invariant
                0 <= i <= 64,
                out@ == old(out)@ + self.luma@.take(i as int),
            decreases 64 - i,
        {
            out.push(self.luma[i]);
            i = i + 1;
            proof {
                assert(out@ =~= old(out)@ + self.luma@.take(i as int));
            }
        }
        let mut j: usize = 0;
        proof {
            assert(self.luma@.take(64) =~= self.luma@);
            assert(out@ =~= old(out)@ + self.luma@ + self.chroma@.take(0));
        }
        while j < 64
            invariant
                0 <= j <= 64,
                out@ == old(out)@ + self.luma@ + self.chroma@.take(j as int),
            decreases 64 - j,
        {
            out.push(self.chroma[j]);
            j = j + 1;
            proof {
                assert(out@ =~= old(out)@ + self.luma@ + self.chroma@.take(j as int));
            }
        }
        proof {
            assert(self.chroma@.take(64) =~= self.chroma@);
            assert(out@ =~= old(out)@ + self.bytes());
        }
    }

    /// Reads a pair from the first 128 bytes of `data`.
    pub fn read(data: &[u8]) -> (r: Result<QMatrices, CodecError>)
        ensures
            r is Ok <==> data@.len() >= 128,
            r is Ok ==> r->Ok_0.bytes() == data@.take(128),
            r is Err ==> r == Err::<QMatrices, CodecError>(CodecError::UnexpectedEof),
    {
        if data.len() < QMATRICES_LEN {
            return Err(CodecError::UnexpectedEof);
        }
        let mut luma = [0u8;64];
        let mut chroma = [0u8;64];
        let mut i: usize = 0;
        while i < 64
            invariant
                0 <= i <= 64,
                data@.len() >= 128,
                forall|j: int| 0 <= j < i ==> luma@[j] == data@[j],
                forall|j: int| 0 <= j < i ==> chroma@[j] == data@[64 + j],
            decreases 64 - i,
        {
            luma[i] = data[i];
            chroma[i] = data[64 + i];
            i = i + 1;
        }
        let q = QMatrices { luma, chroma };
        proof {
            assert(q.bytes() =~= data@.take(128));
        }
        Ok(q)
    }
}

impl Block<i16> {
    /// Undoes quantization: each coefficient times its divisor.
    pub fn dequantization(&self, matrix: &[u8; 64]) -> (product: Block<i32>)
        ensures
            forall|i: int| 0 <= i < 64 ==> #[trigger] product.0[i] == self.0[i] * matrix[i],
    {
        let mut product = Block::new(0i32);
        let mut i: usize = 0;
        while i < 64
            invariant
                0 <= i <= 64,
                forall|j: int| 0 <= j < i ==> #[trigger] product.0[j] == self.0[j] * matrix[j],
            decreases 64 - i,
        {
            let coefficient = self.0[i] as i32;
            let divisor = matrix[i] as i32;
            assert(-32768 * 255 <= coefficient * divisor <= 32767 * 255) by (nonlinear_arith)
                requires
                    -32768 <= coefficient <= 32767,
                    0 <= divisor <= 255,
            ;
            product.0[i] = coefficient * divisor;
            i = i + 1;
        }
        product
    }
}

} // verus!
