use lib::qwen3::{
    architecture_is_verified, ffn_act_for, rope_type_for, verified_architectures, why_no_device,
    FfnAct, Qwen3Config, Qwen3Model, SsmConfig, ROPE_TYPE_IMROPE, ROPE_TYPE_NEOX, ROPE_TYPE_NORM,
};
use lib::container::attn_scale_dim;

fn dense_config() -> Qwen3Config {
    Qwen3Config {
        n_layer: 2,
        n_embd: 64,
        n_head: 4,
        n_head_kv: 2,
        head_dim: 16,
        n_ff: 128,
        vocab_size: 100,
        rope_orig_ctx: 0,
        n_expert: 0,
        n_expert_used: 0,
        n_ff_expert: 0,
        qk_norm: true,
        rope_type: ROPE_TYPE_NEOX,
        rope_type_is_known: true,
        attn_bias: false,
        layer_norm: false,
        norm_affine: true,
        norm_bias: false,
        uses_alibi: false,
        rope_freqs: false,
        ffn_bias: false,
        attn_out_bias: false,
        n_rot: 16,
        fused_qkv: false,
        fused_gate_up: false,
        parallel_residual: false,
        post_norms: false,
        ssm: None,
        rope_sections: None,
        ffn_norm_name: "ffn_norm",
        fused_q_gate: false,
        scale_embeddings: false,
        attn_scale_dim: 16,
        prescale_q: false,
        ffn_act: FfnAct::Silu,
        sliding_window: 0,
        swa_pattern: 0,
    }
}

fn dense_config_no_qk_norm() -> Qwen3Config {
    Qwen3Config { qk_norm: false, ..dense_config() }
}

#[test]
fn a_non_parametric_norm_is_not_a_missing_tensor() {
    let c = Qwen3Config {
        norm_affine: false,
        norm_bias: false,
        layer_norm: true,
        qk_norm: false,
        ..dense_config()
    };
    let names = Qwen3Model::new(c).required_tensors();
    for n in &names {
        assert!(
            !n.ends_with("_norm.weight") && !n.ends_with("_norm.bias"),
            "asked for {n} from a model whose norms have no parameters"
        );
    }
    assert!(names.contains(&"blk.0.attn_output.weight".to_string()));
    assert!(names.contains(&"token_embd.weight".to_string()));

    let affine = Qwen3Model::new(dense_config_no_qk_norm()).required_tensors();
    assert!(affine.contains(&"output_norm.weight".to_string()));
    assert!(affine.contains(&"blk.1.ffn_norm.weight".to_string()));
}

#[test]
fn rope_freqs_is_required_when_the_container_has_one() {
    let with = Qwen3Model::new(Qwen3Config { rope_freqs: true, ..dense_config() }).required_tensors();
    assert!(with.contains(&"rope_freqs.weight".to_string()));
    let without = Qwen3Model::new(dense_config()).required_tensors();
    assert!(!without.contains(&"rope_freqs.weight".to_string()));
}

#[test]
fn dense_and_moe_are_distinguished_by_expert_counts() {
    let dense = dense_config();
    assert!(!dense.is_moe());
    let moe = Qwen3Config { n_expert: 128, n_expert_used: 8, n_ff_expert: 768, ..dense_config() };
    assert!(moe.is_moe());
}

#[test]
fn the_gemma_family_uses_gelu_and_everyone_else_silu() {
    for arch in ["gemma", "gemma2", "gemma3", "gemma3n"] {
        assert_eq!(ffn_act_for(arch), FfnAct::Gelu, "{arch}");
    }
    for arch in ["llama", "qwen2", "qwen3", "qwen3moe", "phi3", "deepseek4"] {
        assert_eq!(ffn_act_for(arch), FfnAct::Silu, "{arch}");
    }
}

#[test]
fn only_the_27b_gemmas_scale_by_n_embd_over_n_head() {
    assert_eq!(attn_scale_dim("gemma2", 26, 2304, 8, 256), 256);
    assert_eq!(attn_scale_dim("gemma3", 26, 1152, 4, 256), 256);
    assert_eq!(attn_scale_dim("gemma2", 46, 4608, 32, 128), 144);
    assert_eq!(attn_scale_dim("gemma3", 62, 5376, 32, 128), 168);
    assert_eq!(attn_scale_dim("llama", 46, 4096, 32, 128), 128);
}

#[test]
fn llama_gets_norm_rope_and_qwen_gets_neox() {
    assert_eq!(rope_type_for("llama"), (ROPE_TYPE_NORM, true));
    assert_eq!(rope_type_for("mistral"), (ROPE_TYPE_NORM, true));
    assert_eq!(rope_type_for("qwen3"), (ROPE_TYPE_NEOX, true));
    assert_eq!(rope_type_for("qwen3moe"), (ROPE_TYPE_NEOX, true));
    assert_eq!(rope_type_for("gemma2"), (ROPE_TYPE_NEOX, true));
    assert_eq!(rope_type_for("olmo"), (ROPE_TYPE_NORM, true));
    assert_eq!(rope_type_for("minicpm"), (ROPE_TYPE_NORM, true));
    assert_eq!(rope_type_for("falcon"), (ROPE_TYPE_NEOX, true));
    assert_eq!(rope_type_for("phi2"), (ROPE_TYPE_NEOX, true));
    assert_eq!(rope_type_for("gptneox"), (ROPE_TYPE_NEOX, true));
    assert!(!rope_type_for("mpt").1);
    assert_eq!(rope_type_for("qwen35"), (ROPE_TYPE_IMROPE, true));
    assert!(!rope_type_for("qwen35moe").1);
    assert!(!rope_type_for("bloom").1);
    assert_eq!(rope_type_for("internlm2"), (ROPE_TYPE_NORM, true));
    assert_eq!(rope_type_for("baichuan"), (ROPE_TYPE_NORM, true));
    assert_eq!(rope_type_for("starcoder2"), (ROPE_TYPE_NEOX, true));
    let (ty, known) = rope_type_for("some-model-invented-next-year");
    assert_eq!(ty, ROPE_TYPE_NEOX);
    assert!(!known, "an unknown architecture must not claim to be known");
}

#[test]
fn a_llama_family_container_is_not_asked_for_qk_norm() {
    let m = Qwen3Model::new(dense_config_no_qk_norm());
    let names = m.required_tensors();
    assert!(!names.iter().any(|n| n.contains("attn_q_norm")), "{names:?}");
    assert!(!names.iter().any(|n| n.contains("attn_k_norm")));
    for il in 0..2 {
        for suffix in [
            "attn_norm.weight",
            "attn_q.weight",
            "attn_k.weight",
            "attn_v.weight",
            "attn_output.weight",
            "ffn_norm.weight",
        ] {
            assert!(names.contains(&format!("blk.{il}.{suffix}")), "blk.{il}.{suffix} is still required");
        }
    }
    let qwen = Qwen3Model::new(dense_config());
    assert!(qwen.required_tensors().contains(&"blk.0.attn_q_norm.weight".to_string()));
}

#[test]
fn an_moe_container_is_gated_even_though_ffn_gate_is_absent() {
    for (arch, expected) in [("qwen3moe", FfnAct::Silu), ("qwen2moe", FfnAct::Silu), ("deepseek4", FfnAct::Silu)] {
        assert_eq!(ffn_act_for(arch), expected, "{arch}");
    }
    let moe = Qwen3Model::new(Qwen3Config { n_expert: 128, n_expert_used: 8, ..dense_config() });
    assert!(moe.config.is_moe());
    assert_eq!(moe.config.ffn_act, FfnAct::Silu);
}

#[test]
fn required_tensors_cover_every_layer_and_match_the_variant() {
    let dense = Qwen3Model::new(dense_config());
    let names = dense.required_tensors();
    assert!(names.contains(&"token_embd.weight".to_string()));
    assert!(names.contains(&"blk.1.ffn_gate.weight".to_string()));
    assert!(!names.iter().any(|n| n.contains("_exps")));

    let moe = Qwen3Model::new(Qwen3Config { n_expert: 128, n_expert_used: 8, ..dense_config() });
    let names = moe.required_tensors();
    assert!(names.contains(&"blk.0.ffn_gate_exps.weight".to_string()));
    assert!(!names.iter().any(|n| n.ends_with("ffn_gate.weight")));
}

#[test]
fn every_layer_is_accounted_for() {
    let m = Qwen3Model::new(dense_config());
    let names = m.required_tensors();
    for il in 0..2 {
        assert!(names.contains(&format!("blk.{il}.attn_q_norm.weight")));
        assert!(names.contains(&format!("blk.{il}.attn_k_norm.weight")));
    }
}

#[test]
fn only_checked_architectures_are_called_verified() {
    for arch in ["deepseek4", "gemma", "gemma2", "gemma3", "llama", "phi3", "qwen3"] {
        assert!(architecture_is_verified(arch), "{arch} should be verified");
    }
    for arch in ["gemma3n", "qwen3moe", "falcon", "mamba", "something-new"] {
        assert!(!architecture_is_verified(arch), "{arch} has not been checked and must not claim to be");
    }
}

#[test]
fn the_verified_list_is_a_set_of_plain_names() {
    let list = verified_architectures();
    assert!(!list.is_empty(), "nothing is verified, which cannot be right");
    let mut seen = std::collections::HashSet::new();
    for a in &list {
        assert!(seen.insert(*a), "{a} is listed twice");
        assert_eq!(*a, a.to_lowercase(), "{a} is not the container's own spelling");
        assert!(!a.is_empty());
        assert!(!a.contains(char::is_whitespace), "{a:?} has whitespace");
    }
}

#[test]
fn only_the_streaming_path_refuses_a_device() {
    assert!(why_no_device("deepseek4").is_some());
    assert!(why_no_device("qwen3").is_none());
}

#[test]
fn a_hybrid_stack_is_mostly_recurrent() {
    let c = Qwen3Config {
        n_layer: 24,
        ssm: Some(SsmConfig {
            conv_kernel: 4,
            inner_size: 2048,
            state_size: 128,
            group_count: 16,
            time_step_rank: 16,
            full_attention_interval: 4,
        }),
        ..dense_config()
    };
    let attention: Vec<u32> = (0..24).filter(|il| !c.is_recurrent(*il)).collect();
    assert_eq!(attention, vec![3, 7, 11, 15, 19, 23]);
    assert!(!dense_config().is_recurrent(0));
    assert_eq!(c.ffn_norm(7), "blk.7.ffn_norm");
}

#[test]
fn the_delta_net_shape_adds_up() {
    let s = SsmConfig {
        conv_kernel: 4,
        inner_size: 2048,
        state_size: 128,
        group_count: 16,
        time_step_rank: 16,
        full_attention_interval: 4,
    };
    assert_eq!(s.key_dim(), 2048);
    assert_eq!(s.value_dim(), 2048);
    assert_eq!(s.head_v_dim(), 128);
    assert_eq!(s.conv_dim(), 6144);
    assert_eq!(s.conv_state_len(), 3 * 6144);
    assert_eq!(s.recurrent_state_len(), 128 * 128 * 16);
    let zero_rank = SsmConfig { time_step_rank: 0, ..s };
    assert_eq!(zero_rank.head_v_dim(), 2048);
}

#[test]
fn every_layer_but_the_last_of_each_pattern_is_windowed() {
    let c = Qwen3Config { sliding_window: 4096, swa_pattern: 6, ..dense_config() };
    let windowed: Vec<bool> = (0..7).map(|il| c.is_swa_layer(il)).collect();
    assert_eq!(windowed, vec![true, true, true, true, true, false, true]);
    assert!(!dense_config().is_swa_layer(0));
    assert_eq!(dense_config().correct_context_limit(), usize::MAX);
}
