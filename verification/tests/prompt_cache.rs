use lib::prompt_cache::PromptCache;
use lib::qwen3::{FfnAct, Qwen3Config, ROPE_TYPE_NEOX};

fn config() -> Qwen3Config {
    Qwen3Config {
        n_layer: 2,
        n_embd: 64,
        n_head: 4,
        n_head_kv: 2,
        head_dim: 16,
        n_ff: 128,
        vocab_size: 100,
        rope_orig_ctx: 0,
        n_expert: 0,
        n_expert_used: 0,
        n_ff_expert: 0,
        qk_norm: true,
        rope_type: ROPE_TYPE_NEOX,
        rope_type_is_known: true,
        attn_bias: false,
        layer_norm: false,
        norm_affine: true,
        norm_bias: false,
        uses_alibi: false,
        rope_freqs: false,
        ffn_bias: false,
        attn_out_bias: false,
        n_rot: 16,
        fused_qkv: false,
        fused_gate_up: false,
        parallel_residual: false,
        post_norms: false,
        ssm: None,
        rope_sections: None,
        ffn_norm_name: "ffn_norm",
        fused_q_gate: false,
        scale_embeddings: false,
        attn_scale_dim: 16,
        prescale_q: false,
        ffn_act: FfnAct::Silu,
        sliding_window: 0,
        swa_pattern: 0,
    }
}

fn fnv(parts: &[u64]) -> u64 {
    let mut h = 0xcbf2_9ce4_8422_2325u64;
    for p in parts {
        h ^= p;
        h = h.wrapping_mul(0x0000_0100_0000_01b3);
    }
    h
}

#[test]
fn the_fingerprint_is_fnv_over_the_shape() {
    let c = config();
    assert_eq!(PromptCache::fingerprint(&c, 1), fnv(&[2, 64, 4, 2, 16, 100, 1]));
    assert_ne!(PromptCache::fingerprint(&c, 1), PromptCache::fingerprint(&c, 8));
    let wider = Qwen3Config { n_embd: 128, ..c };
    assert_ne!(PromptCache::fingerprint(&c, 1), PromptCache::fingerprint(&wider, 1));
}

#[test]
fn a_saved_cache_loads_back() {
    let layers = vec![(vec![1u8, 2, 3], vec![4u8]), (vec![], vec![9u8, 9])];
    let tokens = [7u32, 8, 70000];
    let bytes = PromptCache::save(0xfeed, 8, 3, &layers, &tokens);
    assert_eq!(&bytes[..4], b"BTPC");
    assert_eq!(bytes.len(), 32 + 12 + (8 + 3 + 8 + 1) + (8 + 0 + 8 + 2));
    let (t, l) = PromptCache::load(&bytes, 0xfeed).expect("round trip");
    assert_eq!(t, tokens.to_vec());
    assert_eq!(l, layers);
}

#[test]
fn a_cache_for_another_shape_is_discarded() {
    let bytes = PromptCache::save(1, 8, 0, &Vec::new(), &[5]);
    assert!(PromptCache::load(&bytes, 2).is_none());
    assert!(PromptCache::load(&bytes, 1).is_some());
}

#[test]
fn a_damaged_cache_is_not_used() {
    let layers = vec![(vec![1u8, 2, 3], vec![4u8])];
    let bytes = PromptCache::save(3, 8, 1, &layers, &[1, 2]);
    for cut in 0..bytes.len() {
        assert!(PromptCache::load(&bytes[..cut], 3).is_none(), "a file cut at {cut} was read");
    }
    let mut wrong_magic = bytes.clone();
    wrong_magic[0] = b'X';
    assert!(PromptCache::load(&wrong_magic, 3).is_none());
    let mut wrong_version = bytes.clone();
    wrong_version[4] = 2;
    assert!(PromptCache::load(&wrong_version, 3).is_none());
    let mut trailing = bytes.clone();
    trailing.extend_from_slice(b"junk");
    assert!(PromptCache::load(&trailing, 3).is_some(), "what follows the last layer is not read");
    assert!(PromptCache::load(&[], 3).is_none());
}

#[test]
fn the_header_is_little_endian() {
    let bytes = PromptCache::save(0x0102030405060708, 0x0a0b0c0d, 0x11223344, &Vec::new(), &[]);
    assert_eq!(&bytes[4..8], &[1, 0, 0, 0]);
    assert_eq!(&bytes[8..16], &[8, 7, 6, 5, 4, 3, 2, 1]);
    assert_eq!(&bytes[16..20], &[0x0d, 0x0c, 0x0b, 0x0a]);
    assert_eq!(&bytes[20..24], &[0, 0, 0, 0]);
    assert_eq!(&bytes[24..28], &[0x44, 0x33, 0x22, 0x11]);
    assert_eq!(&bytes[28..32], &[0, 0, 0, 0]);
}
