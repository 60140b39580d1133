use transformer::cache::LayerCache;
use transformer::dtype::DataType;
use transformer::transformer::{ModelConfig, Transformer, UpdateError};

fn config() -> ModelConfig {
    ModelConfig {
        dt: DataType::F32,
        num_hidden_layers: 1,
        hidden_size: 8,
        num_attention_heads: 2,
        num_key_value_heads: 1,
        intermediate_size: 16,
        max_seq_len: 8,
    }
}

#[test]
fn brain_float_is_upcast() {
    let t = Transformer::new(ModelConfig { dt: DataType::BF16, ..config() }).unwrap();
    assert_eq!(t.config.dt, DataType::F32);
    let t = Transformer::new(ModelConfig { dt: DataType::F16, ..config() }).unwrap();
    assert_eq!(t.config.dt, DataType::F16);
}

#[test]
fn invalid_head_config_is_refused() {
    let r = Transformer::new(ModelConfig { num_attention_heads: 3, ..config() });
    assert_eq!(r.err(), Some(UpdateError::InvalidHeadConfig));
    let r = Transformer::new(ModelConfig { num_attention_heads: 8, num_key_value_heads: 3, ..config() });
    assert_eq!(r.err(), Some(UpdateError::InvalidHeadConfig));
}

#[test]
fn oversized_cache_is_refused() {
    let r = Transformer::new(ModelConfig { max_seq_len: usize::MAX, ..config() });
    assert_eq!(r.err(), Some(UpdateError::CacheTooLarge));
}

#[test]
fn new_cache_has_one_cache_per_layer() {
    let t = Transformer::new(ModelConfig { num_hidden_layers: 3, ..config() }).unwrap();
    let caches = t.new_cache();
    assert_eq!(caches.len(), 3);
    let (k, v) = caches[0].get();
    assert_eq!(k.shape, vec![1, 8, 4]);
    assert_eq!(v.shape, vec![1, 8, 4]);
    assert_eq!(k.len, 1 * 8 * 4 * 4);
}

#[test]
fn single_layer_plan_dimensions() {
    let t = Transformer::new(config()).unwrap();
    let caches = t.new_cache();
    let plan = t.update(&[5], &caches, 0).unwrap();
    assert_eq!(plan.dims.head_dim, 4);
    assert_eq!(plan.dims.kv_dim, 4);
    assert_eq!(plan.dims.head_group, 2);
    assert_eq!(plan.dims.att_len, 1);
    assert_eq!(plan.positions, vec![0]);
    assert_eq!(plan.layers.len(), 1);
    assert_eq!(plan.layers[0].k_cat.shape, vec![1, 1, 4]);
    assert_eq!(plan.layers[0].k_att.shape, vec![1, 1, 4]);
    assert_eq!(plan.layers[0].k_att_t.shape, vec![1, 4, 1]);
    assert_eq!(plan.layers[0].k_att_t.strides, vec![32, 1, 4]);
}

#[test]
fn sequence_too_long_is_refused_and_cache_kept() {
    let t = Transformer::new(config()).unwrap();
    let caches = t.new_cache();
    let before: Vec<u8> = caches[0].k_storage.bytes.clone();
    let r = t.update(&[1, 2, 3], &caches, 6);
    assert_eq!(r.err(), Some(UpdateError::SequenceTooLong));
    assert_eq!(caches[0].k_storage.bytes, before);
    assert!(t.update(&[1, 2], &caches, 6).is_ok());
}

#[test]
fn layer_count_must_match() {
    let t = Transformer::new(config()).unwrap();
    let caches: Vec<LayerCache> = Vec::new();
    assert_eq!(t.update(&[1], &caches, 0).err(), Some(UpdateError::LayerCountMismatch));
}

#[test]
fn two_appends_tile_one_append() {
    let t = Transformer::new(config()).unwrap();
    let caches = t.new_cache();
    let first = t.update(&[1, 2, 3], &caches, 0).unwrap();
    let second = t.update(&[4, 5], &caches, 3).unwrap();
    let whole = t.update(&[1, 2, 3, 4, 5], &caches, 0).unwrap();
    let row = 4 * 4;
    assert_eq!(first.layers[0].k_cat.offset, 0);
    assert_eq!(second.layers[0].k_cat.offset, 3 * row);
    assert_eq!(whole.layers[0].k_cat.offset, 0);
    assert_eq!(second.layers[0].k_att.shape, whole.layers[0].k_cat.shape);
    assert_eq!(second.positions, vec![3, 4]);
    assert_eq!(whole.positions, vec![0, 1, 2, 3, 4]);
}

#[test]
fn query_heads_share_key_value_heads_in_groups() {
    let c = ModelConfig { hidden_size: 32, num_attention_heads: 8, num_key_value_heads: 2, ..config() };
    let t = Transformer::new(c).unwrap();
    let caches = t.new_cache();
    let plan = t.update(&[1], &caches, 0).unwrap();
    assert_eq!(plan.dims.head_group, 4);
    let groups: Vec<usize> = (0..8).map(|h| plan.dims.kv_head_of(h)).collect();
    assert_eq!(groups, vec![0, 0, 0, 0, 1, 1, 1, 1]);
}

#[test]
fn cache_window_addresses_positions() {
    let cache = LayerCache::new(DataType::F16, 2, 6, 3);
    let (k, v) = cache.window(2, 3);
    assert_eq!(k.shape, vec![2, 3, 3]);
    assert_eq!(k.strides, vec![18, 3, 1]);
    assert_eq!(k.offset, 2 * 3 * 2);
    assert_eq!(v.offset, k.offset);
    assert_eq!(cache.max_seq_len(), 6);
}

#[test]
fn attention_buffers_group_query_heads() {
    let c = ModelConfig { hidden_size: 32, num_attention_heads: 8, num_key_value_heads: 2, ..config() };
    let t = Transformer::new(c).unwrap();
    let caches = t.new_cache();
    let plan = t.update(&[1, 2, 3], &caches, 2).unwrap();
    let b = plan.dims.attention_buffers(DataType::F32).unwrap();
    assert_eq!(b.q_att.shape, vec![8, 3, 4]);
    assert_eq!(b.q_grouped.shape, vec![2, 12, 4]);
    assert_eq!(b.q_grouped.strides, vec![48, 4, 1]);
    assert_eq!(b.att.shape, vec![2, 12, 5]);
    assert_eq!(b.att_heads.shape, vec![8, 3, 5]);
    assert_eq!(b.att_heads.strides, vec![15, 5, 1]);
    assert_eq!(b.q_att_storage.len(), 8 * 3 * 4 * 4);
    assert_eq!(b.att_storage.len(), 2 * 12 * 5 * 4);
    assert_eq!(b.out.shape, vec![2, 12, 4]);
    assert_eq!(b.out_by_token.shape, vec![3, 8, 4]);
    assert_eq!(b.out_by_token.strides, vec![4, 12, 1]);
    assert_eq!(b.out_storage.len(), 2 * 12 * 4 * 4);
}

#[test]
fn attention_buffers_refuse_oversized_workspace() {
    let t = Transformer::new(config()).unwrap();
    let caches = t.new_cache();
    let plan = t.update(&[1], &caches, 0).unwrap();
    let mut dims = plan.dims;
    dims.seq_len = usize::MAX;
    assert!(dims.attention_buffers(DataType::F32).is_none());
}

#[test]
fn projection_buffers_split_fused_weights() {
    let c = ModelConfig { hidden_size: 32, num_attention_heads: 8, num_key_value_heads: 2, intermediate_size: 20, ..config() };
    let t = Transformer::new(c).unwrap();
    let caches = t.new_cache();
    let plan = t.update(&[1, 2, 3], &caches, 0).unwrap();
    let b = plan.dims.projection_buffers(DataType::F32).unwrap();
    assert_eq!(b.x0.shape, vec![3, 32]);
    assert_eq!(b.x1_heads.shape, vec![3, 8, 4]);
    assert_eq!(b.x1_heads.strides, vec![32, 4, 1]);
    assert_eq!(b.qkv.shape, vec![3, 48]);
    assert_eq!(b.q.shape, vec![3, 32]);
    assert_eq!(b.k.shape, vec![3, 8]);
    assert_eq!(b.k.offset, 32 * 4);
    assert_eq!(b.v.offset, 40 * 4);
    assert_eq!(b.v.strides, vec![48, 1]);
    assert_eq!(b.gate_up.shape, vec![3, 40]);
    assert_eq!(b.up.offset, 20 * 4);
    assert_eq!(b.gate.shape, vec![3, 20]);
    assert_eq!(b.qkv_storage.len(), 3 * 48 * 4);
    assert_eq!(b.gate_up_storage.len(), 3 * 40 * 4);
}

#[test]
fn projection_buffers_need_tokens() {
    let t = Transformer::new(config()).unwrap();
    let caches = t.new_cache();
    let plan = t.update(&[], &caches, 0).unwrap();
    assert!(plan.dims.projection_buffers(DataType::F32).is_none());
}
