use crabformer::errors::ModelError;
use crabformer::layers::{attention_head_dim, ParamKey};
use std::collections::HashMap;

#[test]
fn heads_split_output_width() {
    assert_eq!(attention_head_dim(64, 8).unwrap(), 8);
    match attention_head_dim(10, 3) {
        Err(ModelError::DimensionMismatch(m)) => {
            assert_eq!(m, "dim_out 10 must be divisible by num_heads 3")
        }
        _ => panic!("expected a dimension mismatch"),
    }
}

#[test]
fn param_keys_index_maps() {
    let mut m = HashMap::new();
    m.insert(ParamKey(7), 1);
    m.insert(ParamKey(7), 2);
    m.insert(ParamKey(8), 3);
    assert_eq!(m.len(), 2);
    assert_eq!(m[&ParamKey(7)], 2);
}
