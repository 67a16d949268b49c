//! Reading the three Strassen factor matrices `[U, V, W]` from the text of their file.
use crate::cp::{all_blocks_valid, is_matrix_of, matrix_blocks, parse_matrix_blocks, CpError, TokenMatrix};
use crate::text::chars_of;
use vstd::prelude::*;

verus! {

/// Splits the text of the Strassen decomposition file into its matrices `[U, V, W]`,
/// with entries still as text; the file must hold exactly three matrices.
pub fn parse_strassen_matrices(content: &str) -> (r: Result<(TokenMatrix, TokenMatrix, TokenMatrix), CpError>)
    ensures
        r is Ok <==> (all_blocks_valid(matrix_blocks(content@)) && matrix_blocks(content@).len()
            == 3),
        r matches Err(e) ==> if !all_blocks_valid(matrix_blocks(content@)) {
            e == CpError::InvalidMatrixShape
        } else {
            e == CpError::MatrixCount(matrix_blocks(content@).len() as usize)
        },
        r matches Ok((u, v, w)) ==> {
            &&& is_matrix_of(u, matrix_blocks(content@)[0])
            &&& is_matrix_of(v, matrix_blocks(content@)[1])
            &&& is_matrix_of(w, matrix_blocks(content@)[2])
        },
{
    let chars = chars_of(content);
    let mut matrices = match parse_matrix_blocks(&chars) {
        Ok(ms) => ms,
        Err(e) => {
            return Err(e);
        },
    };
    if matrices.len() != 3 {
        return Err(CpError::MatrixCount(matrices.len()));
    }
    proof {
        assert(is_matrix_of(matrices@[0], matrix_blocks(content@)[0]));
        assert(is_matrix_of(matrices@[1], matrix_blocks(content@)[1]));
        assert(is_matrix_of(matrices@[2], matrix_blocks(content@)[2]));
    }
    let w = matrices.pop().unwrap();
    let v = matrices.pop().unwrap();
    let u = matrices.pop().unwrap();
    Ok((u, v, w))
}

} // verus!
