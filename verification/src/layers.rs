use crate::errors::ModelError;
use crate::text::{decimal_digits, decimal_string};
use vstd::prelude::*;
use vstd::string::*;

verus! {

/// The key under which the optimizer keeps the state of one parameter.
#[derive(Clone, Copy, Debug, PartialEq, Eq, Hash, Structural)]
pub struct ParamKey(pub u64);

/// Layers whose accumulated gradients can be reset to zero.
pub trait ZeroGrad {
    /// Sets every accumulated gradient of the layer to zero.
    fn zero_grad(&mut self);
}

/// The message of an attention layer whose output width does not split over its heads.
pub open spec fn head_split_message(dim_out: nat, num_heads: nat) -> Seq<char> {
    "dim_out "@ + decimal_digits(dim_out) + " must be divisible by num_heads "@ + decimal_digits(
        num_heads,
    )
}

/// The width of each attention head where `dim_out` output features split evenly over
/// `num_heads` heads; a dimension mismatch otherwise.
pub fn attention_head_dim(dim_out: usize, num_heads: usize) -> (r: Result<usize, ModelError>)
    requires
        num_heads > 0,
    ensures
        r is Ok <==> dim_out % num_heads == 0,
        r matches Ok(h) ==> h == dim_out / num_heads,
        r matches Err(e) ==> (e matches ModelError::DimensionMismatch(m) && m@ == head_split_message(
            dim_out as nat,
            num_heads as nat,
        )),
{
    if dim_out % num_heads != 0 {
        let mut m = "dim_out ".to_owned();
        let a = decimal_string(dim_out);
        m.append(a.as_str());
        m.append(" must be divisible by num_heads ");
        let b = decimal_string(num_heads);
        m.append(b.as_str());
        return Err(ModelError::DimensionMismatch(m));
    }
    Ok(dim_out / num_heads)
}

} // verus!
