use lib::container::ModelFacts;
use lib::qwen3::{FfnAct, Qwen3Config, Qwen3Model, Refusal, ROPE_TYPE_NEOX, ROPE_TYPE_NORM};

fn facts(arch: &str, numbers: &[(&str, u64)], tensors: &[(&str, &[u64])]) -> ModelFacts {
    ModelFacts {
        arch: arch.to_string(),
        numbers: numbers.iter().map(|(k, v)| (format!("{arch}.{k}"), *v)).collect(),
        sections: None,
        tensors: tensors.iter().map(|(n, d)| (n.to_string(), d.to_vec())).collect(),
    }
}

fn qwen3_facts() -> ModelFacts {
    facts(
        "qwen3",
        &[
            ("embedding_length", 1024),
            ("attention.head_count", 16),
            ("attention.head_count_kv", 8),
            ("attention.key_length", 128),
            ("block_count", 28),
            ("feed_forward_length", 3072),
            ("vocab_size", 151936),
        ],
        &[
            ("token_embd.weight", &[1024, 151936]),
            ("blk.0.attn_norm.weight", &[1024]),
            ("blk.0.ffn_norm.weight", &[1024]),
            ("blk.0.attn_q.weight", &[1024, 2048]),
            ("blk.0.attn_q_norm.weight", &[128]),
            ("blk.0.ffn_gate.weight", &[1024, 3072]),
            ("blk.0.ffn_up.weight", &[1024, 3072]),
        ],
    )
}

fn config(f: &ModelFacts) -> Qwen3Config {
    Qwen3Config::from_model(f).unwrap_or_else(|e| panic!("missing {}", e.key))
}

#[test]
fn a_plain_container_reads_as_what_it_declares() {
    let c = config(&qwen3_facts());
    assert_eq!((c.n_layer, c.n_embd, c.n_head, c.n_head_kv, c.head_dim), (28, 1024, 16, 8, 128));
    assert_eq!((c.n_ff, c.vocab_size), (3072, 151936));
    assert!(c.qk_norm);
    assert!(!c.fused_q_gate);
    assert!(!c.parallel_residual);
    assert!(!c.layer_norm && c.norm_affine && !c.norm_bias);
    assert_eq!(c.ffn_act, FfnAct::Silu);
    assert_eq!((c.rope_type, c.rope_type_is_known), (ROPE_TYPE_NEOX, true));
    assert_eq!(c.ffn_norm_name, "ffn_norm");
    assert_eq!(c.n_rot, 128);
    assert_eq!(c.attn_scale_dim, 128);
    assert!(!c.is_moe());
    assert_eq!(c.ssm, None);
}

#[test]
fn the_three_keys_it_cannot_do_without_are_named() {
    let mut f = qwen3_facts();
    f.numbers.retain(|(k, _)| k != "qwen3.block_count");
    assert_eq!(Qwen3Config::from_model(&f).unwrap_err().key, "qwen3.block_count");
    f.numbers.retain(|(k, _)| k != "qwen3.embedding_length");
    assert_eq!(Qwen3Config::from_model(&f).unwrap_err().key, "qwen3.embedding_length");
}

#[test]
fn the_head_dimension_is_implied_when_undeclared() {
    let f = facts(
        "llama",
        &[("embedding_length", 2048), ("attention.head_count", 32), ("block_count", 16)],
        &[("token_embd.weight", &[2048, 32000]), ("blk.0.attn_norm.weight", &[2048])],
    );
    let c = config(&f);
    assert_eq!(c.head_dim, 64);
    assert_eq!(c.n_head_kv, 32, "kv heads default to the head count");
    assert_eq!(c.vocab_size, 32000, "the embedding's shape stands in for vocab_size");
    assert_eq!((c.rope_type, c.rope_type_is_known), (ROPE_TYPE_NORM, true));
    assert!(!c.qk_norm);
    assert!(c.parallel_residual, "one norm per block means a parallel block");
}

#[test]
fn a_missing_gate_means_three_different_things() {
    let moe = facts(
        "qwen3moe",
        &[("embedding_length", 8), ("attention.head_count", 2), ("block_count", 2), ("feed_forward_length", 16)],
        &[("blk.0.ffn_gate_exps.weight", &[8, 16, 4])],
    );
    assert_eq!(config(&moe).ffn_act, FfnAct::Silu, "an MoE container is gated");
    let phi = facts(
        "phi3",
        &[("embedding_length", 8), ("attention.head_count", 2), ("block_count", 2), ("feed_forward_length", 16)],
        &[("blk.0.ffn_up.weight", &[8, 32])],
    );
    let c = config(&phi);
    assert!(c.fused_gate_up);
    assert_eq!(c.ffn_act, FfnAct::Silu);
    let starcoder = facts(
        "starcoder2",
        &[("embedding_length", 8), ("attention.head_count", 2), ("block_count", 2), ("feed_forward_length", 16)],
        &[("blk.0.ffn_up.weight", &[8, 16])],
    );
    let c = config(&starcoder);
    assert!(!c.fused_gate_up);
    assert_eq!(c.ffn_act, FfnAct::UngatedGelu);
}

#[test]
fn a_prediction_head_is_not_a_layer() {
    let f = facts(
        "qwen35",
        &[("embedding_length", 8), ("attention.head_count", 2), ("block_count", 65)],
        &[("blk.64.nextn.eh_proj.weight", &[16, 8])],
    );
    assert_eq!(config(&f).n_layer, 64);
}

#[test]
fn a_hybrid_stack_is_asked_at_its_first_attention_layer() {
    let f = facts(
        "qwen35",
        &[
            ("embedding_length", 8),
            ("attention.head_count", 2),
            ("attention.key_length", 4),
            ("block_count", 8),
            ("ssm.conv_kernel", 4),
            ("ssm.inner_size", 16),
        ],
        &[
            ("blk.0.attn_qkv.weight", &[8, 48]),
            ("blk.3.attn_q.weight", &[8, 16]),
            ("blk.3.attn_q_norm.weight", &[4]),
        ],
    );
    let c = config(&f);
    let s = c.ssm.expect("hybrid");
    assert_eq!((s.conv_kernel, s.inner_size, s.state_size, s.group_count, s.time_step_rank), (4, 16, 0, 1, 1));
    assert_eq!(s.full_attention_interval, 4);
    assert!(c.qk_norm, "block 3 is the first attention layer");
    assert!(c.fused_q_gate, "16 is twice head_dim * n_head");
    assert!(!c.fused_qkv, "not on a hybrid model");
    assert_eq!(c.ffn_norm_name, "post_attention_norm");
}

#[test]
fn the_gemmas_scale_their_embeddings_and_window_their_layers() {
    let f = facts(
        "gemma2",
        &[("embedding_length", 4608), ("attention.head_count", 32), ("attention.key_length", 128), ("block_count", 46)],
        &[("blk.0.post_attention_norm.weight", &[4608]), ("blk.0.post_ffw_norm.weight", &[4608])],
    );
    let c = config(&f);
    assert!(c.scale_embeddings && c.prescale_q);
    assert_eq!(c.attn_scale_dim, 144);
    assert_eq!(c.swa_pattern, 2);
    assert!(c.post_norms);
    assert_eq!(c.ffn_act, FfnAct::UngatedGelu, "no gate tensor at all reads as ungated");
}

#[test]
fn mrope_sections_need_four_entries() {
    let mut f = qwen3_facts();
    f.sections = Some(vec![11, 11, 10, 0, 5]);
    assert_eq!(config(&f).rope_sections, Some([11, 11, 10, 0]));
    f.sections = Some(vec![11, 11, 10]);
    assert_eq!(config(&f).rope_sections, None);
}

#[test]
fn a_container_missing_a_tensor_is_refused_by_its_name() {
    let f = qwen3_facts();
    let m = Qwen3Model::new(Qwen3Config { n_layer: 1, ..config(&f) });
    match m.verify(&f) {
        Err(Refusal::MissingTensor(n)) => assert_eq!(n, "output_norm.weight"),
        other => panic!("expected a missing tensor, got {other:?}"),
    }
    let alibi = Qwen3Model::new(Qwen3Config { uses_alibi: true, ..config(&f) });
    assert!(matches!(alibi.verify(&f), Err(Refusal::Alibi)));
    assert_eq!(m.output_weight_name(&f), "token_embd.weight", "tied to the embeddings");
    let mut with_output = qwen3_facts();
    with_output.tensors.push(("output.weight".to_string(), vec![1024, 151936]));
    assert_eq!(m.output_weight_name(&with_output), "output.weight");
}

#[test]
fn a_complete_container_passes() {
    let f = qwen3_facts();
    let c = Qwen3Config { n_layer: 1, ..config(&f) };
    let names = Qwen3Model::new(c).required_tensors();
    let complete = ModelFacts {
        tensors: names.iter().map(|n| (n.clone(), vec![1u64])).collect(),
        ..qwen3_facts()
    };
    assert!(Qwen3Model::new(c).verify(&complete).is_ok());
}

#[test]
fn refusals_say_what_is_missing() {
    let f = qwen3_facts();
    let m = Qwen3Model::new(Qwen3Config { n_layer: 1, ..config(&f) });
    let e = m.verify(&f).unwrap_err();
    assert_eq!(e.message(), "container has no tensor \"output_norm.weight\"");
    let alibi = Qwen3Model::new(Qwen3Config { uses_alibi: true, ..config(&f) });
    assert!(alibi.verify(&f).unwrap_err().message().starts_with("not implemented: this model uses ALiBi"));
    let mut no_blocks = qwen3_facts();
    no_blocks.numbers.retain(|(k, _)| k != "qwen3.block_count");
    let missing = Qwen3Config::from_model(&no_blocks).unwrap_err();
    assert_eq!(missing.message(), "container has no metadata key \"qwen3.block_count\"");
}
