//! Per-architecture facts for the dense path: rotary convention, feed-forward
//! activation, which architectures have been checked against the reference,
//! the gated-delta-net shape, and the tensors a model needs.
use vstd::prelude::*;
use crate::text::{chars_of, decimal, push_decimal, push_str, str_eq};
use crate::container::ModelFacts;

verus! {

/// NeoX rotary convention: dimension `i` pairs with `i + head_dim/2`.
pub const ROPE_TYPE_NEOX: i32 = 2;

/// The other rotary convention, the one Llama uses: adjacent pairs rotate.
pub const ROPE_TYPE_NORM: i32 = 0;

/// The interleaved multimodal rotation Qwen3.5 uses.
pub const ROPE_TYPE_IMROPE: i32 = 40;

/// Architectures known to rotate adjacent pairs.
pub open spec fn norm_rope_archs() -> Seq<Seq<char>> {
    seq![
        "llama"@, "llama4"@, "baichuan"@, "deci"@, "mistral"@, "olmo"@, "internlm2"@, "minicpm"@,
    ]
}

/// Architectures known to rotate halves.
pub open spec fn neox_rope_archs() -> Seq<Seq<char>> {
    seq![
        "qwen2"@, "qwen2moe"@, "qwen3"@, "qwen3moe"@, "phi3"@, "gemma"@, "gemma2"@, "gemma3"@,
        "stablelm"@, "starcoder2"@, "falcon"@, "phi2"@, "gptneox"@,
    ]
}

/// Which rotary convention an architecture uses, and whether that is a
/// checked fact rather than the NeoX default given to a name nobody listed.
pub open spec fn rope_type_spec(arch: Seq<char>) -> (i32, bool) {
    if norm_rope_archs().contains(arch) {
        (ROPE_TYPE_NORM, true)
    } else if neox_rope_archs().contains(arch) {
        (ROPE_TYPE_NEOX, true)
    } else if arch == "qwen35"@ {
        (ROPE_TYPE_IMROPE, true)
    } else {
        (ROPE_TYPE_NEOX, false)
    }
}

/// Whether `arch` is one of `names`.
fn one_of(arch: &str, names: &Vec<&'static str>) -> (r: bool)
    ensures
        r == names@.map_values(|n: &str| n@).contains(arch@),
{
    let ghost v = names@.map_values(|n: &str| n@);
    let mut i: usize = 0;
    while i < names.len()
        invariant
            i <= names.len(),
            v == names@.map_values(|n: &str| n@),
            forall|j: int| 0 <= j < i ==> v[j] != arch@,
        decreases names.len() - i,
    {
        if str_eq(names[i], arch) {
            assert(v[i as int] == arch@);
            return true;
        }
        i = i + 1;
    }
    false
}

/// A Llama-family architecture.
pub open spec fn rotates_pairs(arch: Seq<char>) -> bool {
    arch == "llama"@ || arch == "llama4"@ || arch == "baichuan"@ || arch == "deci"@ || arch == "mistral"@ || arch == "olmo"@ || arch == "internlm2"@ || arch == "minicpm"@
}

/// An architecture that rotates halves: the whole Qwen family but Qwen3.5,
/// Phi, Gemma, StableLM, StarCoder2, Falcon and GPT-NeoX.
pub open spec fn rotates_halves(arch: Seq<char>) -> bool {
    arch == "qwen2"@ || arch == "qwen2moe"@ || arch == "qwen3"@ || arch == "qwen3moe"@ || arch == "phi3"@ || arch == "gemma"@ || arch == "gemma2"@ || arch == "gemma3"@ || arch == "stablelm"@ || arch == "starcoder2"@ || arch == "falcon"@ || arch == "phi2"@ || arch == "gptneox"@
}

/// The rotary convention of every architecture this build knows, each a
/// checked fact: the Llama family rotates adjacent pairs, the Qwen family
/// (`qwen2`, `qwen2moe`, `qwen3`, `qwen3moe`) and the other NeoX-style ones
/// rotate halves, Qwen3.5 uses interleaved multimodal rotation, and any
/// other name gets NeoX as a guess that says it is one.
pub proof fn lemma_rope_conventions(arch: Seq<char>)
    ensures
        rotates_pairs(arch) ==> rope_type_spec(arch) == (ROPE_TYPE_NORM, true),
        rotates_halves(arch) ==> rope_type_spec(arch) == (ROPE_TYPE_NEOX, true),
        arch == "qwen35"@ ==> rope_type_spec(arch) == (ROPE_TYPE_IMROPE, true),
        !rotates_pairs(arch) && !rotates_halves(arch) && arch != "qwen35"@ ==> rope_type_spec(arch) == (
            ROPE_TYPE_NEOX,
            false,
        ),
{
    reveal_strlit("llama");
    reveal_strlit("llama4");
    reveal_strlit("baichuan");
    reveal_strlit("deci");
    reveal_strlit("mistral");
    reveal_strlit("olmo");
    reveal_strlit("internlm2");
    reveal_strlit("minicpm");
    reveal_strlit("qwen2");
    reveal_strlit("qwen2moe");
    reveal_strlit("qwen3");
    reveal_strlit("qwen3moe");
    reveal_strlit("phi3");
    reveal_strlit("gemma");
    reveal_strlit("gemma2");
    reveal_strlit("gemma3");
    reveal_strlit("stablelm");
    reveal_strlit("starcoder2");
    reveal_strlit("falcon");
    reveal_strlit("phi2");
    reveal_strlit("gptneox");
    reveal_strlit("qwen35");
    assert(norm_rope_archs()[0] == "llama"@);
    assert(norm_rope_archs()[1] == "llama4"@);
    assert(norm_rope_archs()[2] == "baichuan"@);
    assert(norm_rope_archs()[3] == "deci"@);
    assert(norm_rope_archs()[4] == "mistral"@);
    assert(norm_rope_archs()[5] == "olmo"@);
    assert(norm_rope_archs()[6] == "internlm2"@);
    assert(norm_rope_archs()[7] == "minicpm"@);
    assert(neox_rope_archs()[0] == "qwen2"@);
    assert(neox_rope_archs()[1] == "qwen2moe"@);
    assert(neox_rope_archs()[2] == "qwen3"@);
    assert(neox_rope_archs()[3] == "qwen3moe"@);
    assert(neox_rope_archs()[4] == "phi3"@);
    assert(neox_rope_archs()[5] == "gemma"@);
    assert(neox_rope_archs()[6] == "gemma2"@);
    assert(neox_rope_archs()[7] == "gemma3"@);
    assert(neox_rope_archs()[8] == "stablelm"@);
    assert(neox_rope_archs()[9] == "starcoder2"@);
    assert(neox_rope_archs()[10] == "falcon"@);
    assert(neox_rope_archs()[11] == "phi2"@);
    assert(neox_rope_archs()[12] == "gptneox"@);
    assert forall|i: int| 0 <= i < norm_rope_archs().len() implies norm_rope_archs()[i] == "llama"@ || norm_rope_archs()[i] == "llama4"@ || norm_rope_archs()[i] == "baichuan"@ || norm_rope_archs()[i] == "deci"@ || norm_rope_archs()[i] == "mistral"@ || norm_rope_archs()[i] == "olmo"@ || norm_rope_archs()[i] == "internlm2"@ || norm_rope_archs()[i] == "minicpm"@ by {
        if i == 0 {
            assert(norm_rope_archs()[0] == "llama"@);
        } else if i == 1 {
            assert(norm_rope_archs()[1] == "llama4"@);
        } else if i == 2 {
            assert(norm_rope_archs()[2] == "baichuan"@);
        } else if i == 3 {
            assert(norm_rope_archs()[3] == "deci"@);
        } else if i == 4 {
            assert(norm_rope_archs()[4] == "mistral"@);
        } else if i == 5 {
            assert(norm_rope_archs()[5] == "olmo"@);
        } else if i == 6 {
            assert(norm_rope_archs()[6] == "internlm2"@);
        } else if i == 7 {
            assert(norm_rope_archs()[7] == "minicpm"@);
        }
    }
    assert forall|i: int| 0 <= i < neox_rope_archs().len() implies neox_rope_archs()[i] == "qwen2"@ || neox_rope_archs()[i] == "qwen2moe"@ || neox_rope_archs()[i] == "qwen3"@ || neox_rope_archs()[i] == "qwen3moe"@ || neox_rope_archs()[i] == "phi3"@ || neox_rope_archs()[i] == "gemma"@ || neox_rope_archs()[i] == "gemma2"@ || neox_rope_archs()[i] == "gemma3"@ || neox_rope_archs()[i] == "stablelm"@ || neox_rope_archs()[i] == "starcoder2"@ || neox_rope_archs()[i] == "falcon"@ || neox_rope_archs()[i] == "phi2"@ || neox_rope_archs()[i] == "gptneox"@ by {
        if i == 0 {
            assert(neox_rope_archs()[0] == "qwen2"@);
        } else if i == 1 {
            assert(neox_rope_archs()[1] == "qwen2moe"@);
        } else if i == 2 {
            assert(neox_rope_archs()[2] == "qwen3"@);
        } else if i == 3 {
            assert(neox_rope_archs()[3] == "qwen3moe"@);
        } else if i == 4 {
            assert(neox_rope_archs()[4] == "phi3"@);
        } else if i == 5 {
            assert(neox_rope_archs()[5] == "gemma"@);
        } else if i == 6 {
            assert(neox_rope_archs()[6] == "gemma2"@);
        } else if i == 7 {
            assert(neox_rope_archs()[7] == "gemma3"@);
        } else if i == 8 {
            assert(neox_rope_archs()[8] == "stablelm"@);
        } else if i == 9 {
            assert(neox_rope_archs()[9] == "starcoder2"@);
        } else if i == 10 {
            assert(neox_rope_archs()[10] == "falcon"@);
        } else if i == 11 {
            assert(neox_rope_archs()[11] == "phi2"@);
        } else if i == 12 {
            assert(neox_rope_archs()[12] == "gptneox"@);
        }
    }
    if rotates_halves(arch) || arch == "qwen35"@ {
        assert(arch[0] == 'q' || arch[0] == 'p' || arch[0] == 'g' || arch[0] == 's' || arch[0] == 'f');
        assert forall|i: int| 0 <= i < norm_rope_archs().len() implies norm_rope_archs()[i] != arch by {
            assert(norm_rope_archs()[i][0] != arch[0]);
        }
    }
    if arch == "qwen35"@ {
        assert forall|i: int| 0 <= i < neox_rope_archs().len() implies neox_rope_archs()[i] != arch by {
            assert(neox_rope_archs()[i].len() != arch.len() || neox_rope_archs()[i][4] != arch[4]);
        }
    }
}

/// Which convention an architecture uses, by name. NeoX is the default
/// because it is the majority, and a default is reported as a guess.
pub fn rope_type_for(arch: &str) -> (r: (i32, bool))
    ensures
        r == rope_type_spec(arch@),
{
    let norm = vec!["llama", "llama4", "baichuan", "deci", "mistral", "olmo", "internlm2", "minicpm"];
    assert(norm@.map_values(|n: &str| n@) =~= norm_rope_archs());
    let neox = vec![
        "qwen2", "qwen2moe", "qwen3", "qwen3moe", "phi3", "gemma", "gemma2", "gemma3", "stablelm",
        "starcoder2", "falcon", "phi2", "gptneox",
    ];
    assert(neox@.map_values(|n: &str| n@) =~= neox_rope_archs());
    if one_of(arch, &norm) {
        (ROPE_TYPE_NORM, true)
    } else if one_of(arch, &neox) {
        (ROPE_TYPE_NEOX, true)
    } else if str_eq(arch, "qwen35") {
        (ROPE_TYPE_IMROPE, true)
    } else {
        (ROPE_TYPE_NEOX, false)
    }
}

/// The non-linearity that gates a feed-forward.
#[derive(Debug, Clone, Copy, PartialEq, Eq, Structural)]
pub enum FfnAct {
    /// Llama, Mistral, Qwen, Phi, DeepSeek: the majority.
    Silu,
    /// The Gemma family.
    Gelu,
    /// Not gated at all: `down(gelu(up(x)))`, with no `ffn_gate` tensor.
    UngatedGelu,
}

pub open spec fn gelu_archs() -> Seq<Seq<char>> {
    seq!["gemma"@, "gemma2"@, "gemma3"@, "gemma3n"@, "gemma-embedding"@]
}

/// The FFN activation an architecture uses, by name: GELU for the Gemma
/// family and SiLU for everything else.
pub open spec fn ffn_act_spec(arch: Seq<char>) -> FfnAct {
    if gelu_archs().contains(arch) {
        FfnAct::Gelu
    } else {
        FfnAct::Silu
    }
}

/// Which non-linearity an architecture's FFN uses, by name. Nothing in a
/// container records it, so an unknown name gets SiLU.
pub fn ffn_act_for(arch: &str) -> (r: FfnAct)
    ensures
        r == ffn_act_spec(arch@),
{
    let gelu = vec!["gemma", "gemma2", "gemma3", "gemma3n", "gemma-embedding"];
    assert(gelu@.map_values(|n: &str| n@) =~= gelu_archs());
    if one_of(arch, &gelu) {
        FfnAct::Gelu
    } else {
        FfnAct::Silu
    }
}

pub const NO_DEVICE_DEEPSEEK4: &'static str = "the streaming expert path has no device implementation: its weights are bound zero-copy from the container and its experts are read per token into host memory. The run continues on the processor";

/// Why a device does nothing on the streaming expert path, or `None` when the
/// architecture can use one. A flag accepted and ignored is worse than one
/// refused, so the reason is said out loud.
pub fn why_no_device(arch: &str) -> (r: Option<&'static str>)
    ensures
        r == (if arch@ == "deepseek4"@ {
            Some(NO_DEVICE_DEEPSEEK4)
        } else {
            None::<&'static str>
        }),
{
    if str_eq(arch, "deepseek4") {
        Some(NO_DEVICE_DEEPSEEK4)
    } else {
        None
    }
}

/// Architectures whose output has been diffed against the reference engine,
/// token for token. Membership means someone ran the reference.
pub open spec fn verified_names() -> Seq<Seq<char>> {
    seq![
        "baichuan"@, "gemma"@, "deepseek4"@, "gemma2"@, "gemma3"@, "internlm2"@, "llama"@, "olmo"@,
        "phi3"@, "qwen2"@, "qwen3"@, "qwen35"@, "stablelm"@, "starcoder2"@,
    ]
}

/// The architectures that have been checked, in the order they are listed.
pub fn verified_architectures() -> (r: Vec<&'static str>)
    ensures
        r@.map_values(|n: &str| n@) == verified_names(),
{
    let r = vec![
        "baichuan", "gemma", "deepseek4", "gemma2", "gemma3", "internlm2", "llama", "olmo", "phi3",
        "qwen2", "qwen3", "qwen35", "stablelm", "starcoder2",
    ];
    assert(r@.map_values(|n: &str| n@) =~= verified_names());
    r
}

/// One of the fourteen architectures whose output has been diffed against
/// the reference engine.
pub open spec fn checked_against_reference(arch: Seq<char>) -> bool {
    arch == "baichuan"@ || arch == "gemma"@ || arch == "deepseek4"@ || arch == "gemma2"@ || arch == "gemma3"@ || arch == "internlm2"@ || arch == "llama"@ || arch == "olmo"@ || arch == "phi3"@ || arch == "qwen2"@ || arch == "qwen3"@ || arch == "qwen35"@ || arch == "stablelm"@ || arch == "starcoder2"@
}

/// The verified set is exactly the fourteen checked architectures, `qwen2`
/// among them: each is admitted without `--force`, and nothing else is.
pub proof fn lemma_verified_set(arch: Seq<char>)
    ensures
        verified_names().contains(arch) <==> checked_against_reference(arch),
{
    reveal_strlit("baichuan");
    reveal_strlit("gemma");
    reveal_strlit("deepseek4");
    reveal_strlit("gemma2");
    reveal_strlit("gemma3");
    reveal_strlit("internlm2");
    reveal_strlit("llama");
    reveal_strlit("olmo");
    reveal_strlit("phi3");
    reveal_strlit("qwen2");
    reveal_strlit("qwen3");
    reveal_strlit("qwen35");
    reveal_strlit("stablelm");
    reveal_strlit("starcoder2");
    assert(verified_names()[0] == "baichuan"@);
    assert(verified_names()[1] == "gemma"@);
    assert(verified_names()[2] == "deepseek4"@);
    assert(verified_names()[3] == "gemma2"@);
    assert(verified_names()[4] == "gemma3"@);
    assert(verified_names()[5] == "internlm2"@);
    assert(verified_names()[6] == "llama"@);
    assert(verified_names()[7] == "olmo"@);
    assert(verified_names()[8] == "phi3"@);
    assert(verified_names()[9] == "qwen2"@);
    assert(verified_names()[10] == "qwen3"@);
    assert(verified_names()[11] == "qwen35"@);
    assert(verified_names()[12] == "stablelm"@);
    assert(verified_names()[13] == "starcoder2"@);
    assert forall|i: int| 0 <= i < verified_names().len() implies verified_names()[i] == "baichuan"@ || verified_names()[i] == "gemma"@ || verified_names()[i] == "deepseek4"@ || verified_names()[i] == "gemma2"@ || verified_names()[i] == "gemma3"@ || verified_names()[i] == "internlm2"@ || verified_names()[i] == "llama"@ || verified_names()[i] == "olmo"@ || verified_names()[i] == "phi3"@ || verified_names()[i] == "qwen2"@ || verified_names()[i] == "qwen3"@ || verified_names()[i] == "qwen35"@ || verified_names()[i] == "stablelm"@ || verified_names()[i] == "starcoder2"@ by {
        if i == 0 {
            assert(verified_names()[0] == "baichuan"@);
        } else if i == 1 {
            assert(verified_names()[1] == "gemma"@);
        } else if i == 2 {
            assert(verified_names()[2] == "deepseek4"@);
        } else if i == 3 {
            assert(verified_names()[3] == "gemma2"@);
        } else if i == 4 {
            assert(verified_names()[4] == "gemma3"@);
        } else if i == 5 {
            assert(verified_names()[5] == "internlm2"@);
        } else if i == 6 {
            assert(verified_names()[6] == "llama"@);
        } else if i == 7 {
            assert(verified_names()[7] == "olmo"@);
        } else if i == 8 {
            assert(verified_names()[8] == "phi3"@);
        } else if i == 9 {
            assert(verified_names()[9] == "qwen2"@);
        } else if i == 10 {
            assert(verified_names()[10] == "qwen3"@);
        } else if i == 11 {
            assert(verified_names()[11] == "qwen35"@);
        } else if i == 12 {
            assert(verified_names()[12] == "stablelm"@);
        } else if i == 13 {
            assert(verified_names()[13] == "starcoder2"@);
        }
    }
}

/// Whether this build has been run against `arch` and had its output checked.
pub fn architecture_is_verified(arch: &str) -> (r: bool)
    ensures
        r == verified_names().contains(arch@),
        r == checked_against_reference(arch@),
{
    proof {
        lemma_verified_set(arch@);
    }
    let names = verified_architectures();
    one_of(arch, &names)
}

/// The gated delta net's shape, for the `qwen35` family. Three quarters of
/// its layer stack is a linear-attention recurrence rather than attention.
#[derive(Debug, Clone, Copy, PartialEq, Eq, Structural)]
pub struct SsmConfig {
    /// The convolution window; the rolling state keeps `conv_kernel - 1`
    /// past values per channel.
    pub conv_kernel: u32,
    /// The value path's total width.
    pub inner_size: u32,
    /// The head dimension shared by keys and values, and the side of the
    /// carried state matrix.
    pub state_size: u32,
    /// How many key heads.
    pub group_count: u32,
    /// How many value heads.
    pub time_step_rank: u32,
    /// Every `n`th layer is real attention.
    pub full_attention_interval: u32,
}

impl SsmConfig {
    pub open spec fn spec_key_dim(&self) -> int {
        self.group_count * self.state_size
    }

    pub open spec fn spec_head_v_dim(&self) -> int {
        self.inner_size as int / (if self.time_step_rank == 0 { 1 } else { self.time_step_rank as int })
    }

    pub open spec fn spec_conv_dim(&self) -> int {
        2 * self.spec_key_dim() + self.inner_size
    }

    /// `group_count * state_size`: the width of q, and of k, in `attn_qkv`.
    pub fn key_dim(&self) -> (r: u32)
        requires
            self.spec_key_dim() <= u32::MAX,
        ensures
            r == self.spec_key_dim(),
    {
        self.group_count * self.state_size
    }

    /// `inner_size`: the width of v, and of the output gate.
    pub fn value_dim(&self) -> (r: u32)
        ensures
            r == self.inner_size,
    {
        self.inner_size
    }

    /// `inner_size / time_step_rank`, with a rank of zero read as one.
    pub fn head_v_dim(&self) -> (r: u32)
        ensures
            r == self.spec_head_v_dim(),
    {
        let rank = if self.time_step_rank == 0 { 1 } else { self.time_step_rank };
        self.inner_size / rank
    }

    /// `2 * key_dim + value_dim`: the width of `attn_qkv` and the channel
    /// count of `ssm_conv1d`.
    pub fn conv_dim(&self) -> (r: u32)
        requires
            self.spec_conv_dim() <= u32::MAX,
        ensures
            r == self.spec_conv_dim(),
    {
        2 * self.key_dim() + self.value_dim()
    }

    /// Values of rolling convolution window per sequence, per layer.
    pub fn conv_state_len(&self) -> (r: usize)
        requires
            self.conv_kernel >= 1,
            self.spec_conv_dim() <= u32::MAX,
            (self.conv_kernel - 1) * self.spec_conv_dim() <= u32::MAX,
        ensures
            r == (self.conv_kernel - 1) * self.spec_conv_dim(),
    {
        ((self.conv_kernel - 1) * self.conv_dim()) as usize
    }

    /// Values of carried recurrent state per sequence, per layer:
    /// `head_v_dim * head_v_dim * time_step_rank`.
    pub fn recurrent_state_len(&self) -> (r: usize)
        requires
            self.spec_head_v_dim() * self.spec_head_v_dim() <= u32::MAX,
            self.spec_head_v_dim() * self.spec_head_v_dim() * self.time_step_rank <= u32::MAX,
        ensures
            r == self.spec_head_v_dim() * self.spec_head_v_dim() * self.time_step_rank,
    {
        let h = self.head_v_dim();
        (h * h * self.time_step_rank) as usize
    }
}

/// The shape of a dense-path model, read from the container rather than
/// assumed: every integer and flag the forward pass and the tensor list
/// depend on. The floating-point hyper-parameters (norm epsilon, RoPE bases
/// and scalings, soft caps, the Q/K/V clamp) are not held here: the tensor
/// engine that reads them keeps them in its own configuration.
#[derive(Debug, Clone, Copy)]
pub struct Qwen3Config {
    pub n_layer: u32,
    pub n_embd: u32,
    pub n_head: u32,
    pub n_head_kv: u32,
    pub head_dim: u32,
    pub n_ff: u32,
    pub vocab_size: u32,
    /// The context length the model was trained at; `0` means unsaid.
    pub rope_orig_ctx: u32,
    /// Expert count; zero for the dense variant.
    pub n_expert: u32,
    pub n_expert_used: u32,
    pub n_ff_expert: u32,
    /// Present only for the `qwen35` family; `None` means every layer is
    /// attention.
    pub ssm: Option<SsmConfig>,
    /// mRoPE section widths, from `rope.dimension_sections`.
    pub rope_sections: Option<[i32; 4]>,
    /// What the norm in front of the feed-forward is called in the container.
    pub ffn_norm_name: &'static str,
    /// `attn_q` holds the query and a gate.
    pub fused_q_gate: bool,
    /// Whether each block carries `attn_q_norm` / `attn_k_norm`.
    pub qk_norm: bool,
    pub rope_type: i32,
    /// False when the rotary convention is a default rather than a fact.
    pub rope_type_is_known: bool,
    /// Q, K and V projections carry a bias vector.
    pub attn_bias: bool,
    /// Every norm in the block is a LayerNorm rather than RMSNorm.
    pub layer_norm: bool,
    /// The norms have learned parameters at all.
    pub norm_affine: bool,
    /// The norms carry a shift as well as a scale.
    pub norm_bias: bool,
    /// Positions by linear attention bias, which is not implemented.
    pub uses_alibi: bool,
    /// The container ships `rope_freqs.weight`.
    pub rope_freqs: bool,
    /// Biases on `ffn_up` and `ffn_down`.
    pub ffn_bias: bool,
    /// A bias on `attn_output`.
    pub attn_out_bias: bool,
    /// Rotated dimensions per head.
    pub n_rot: u32,
    /// Q, K and V share one `attn_qkv` tensor.
    pub fused_qkv: bool,
    /// The FFN gate and up projections share one `ffn_up` tensor.
    pub fused_gate_up: bool,
    /// Attention and the FFN read the same normalisation.
    pub parallel_residual: bool,
    /// Normalise again after attention and after the FFN.
    pub post_norms: bool,
    /// Multiply the embeddings by `sqrt(n_embd)` on the way in.
    pub scale_embeddings: bool,
    /// The dimension the attention scale is `1 / sqrt(.)` of.
    pub attn_scale_dim: u32,
    /// Scale Q before the attention kernel instead of handing it the scale.
    pub prescale_q: bool,
    pub ffn_act: FfnAct,
    /// How often a full-attention layer appears among windowed ones.
    pub swa_pattern: u32,
    /// Sliding-window attention width, `0` for full attention.
    pub sliding_window: u32,
}

/// `blk.{il}.{suffix}`.
pub open spec fn blk(il: nat, suffix: Seq<char>) -> Seq<char> {
    "blk."@ + decimal(il) + "."@ + suffix
}

impl Qwen3Config {
    pub open spec fn spec_is_recurrent(&self, il: nat) -> bool {
        match self.ssm {
            Some(s) => (il + 1) % (if s.full_attention_interval == 0 {
                1nat
            } else {
                s.full_attention_interval as nat
            }) != 0,
            None => false,
        }
    }

    pub open spec fn spec_is_moe(&self) -> bool {
        self.n_expert > 0 && self.n_expert_used > 0
    }

    pub open spec fn spec_is_swa_layer(&self, il: nat) -> bool {
        self.sliding_window > 0 && self.swa_pattern > 1 && il % (self.swa_pattern as nat) < self.swa_pattern
            - 1
    }

    /// Whether layer `il` is a gated delta net rather than attention:
    /// `(il + 1) % full_attention_interval != 0`, with an interval of zero
    /// read as one.
    pub fn is_recurrent(&self, il: u32) -> (r: bool)
        requires
            il < u32::MAX,
        ensures
            r == self.spec_is_recurrent(il as nat),
    {
        match self.ssm {
            Some(s) => {
                let n = if s.full_attention_interval == 0 { 1 } else { s.full_attention_interval };
                (il + 1) % n != 0
            },
            None => false,
        }
    }

    /// The container's name for the norm in front of the feed-forward.
    pub fn ffn_norm(&self, il: u32) -> (r: String)
        ensures
            r@ == blk(il as nat, self.ffn_norm_name@),
    {
        let mut out = String::new();
        push_str(&mut out, "blk.");
        push_decimal(&mut out, il as u64);
        push_str(&mut out, ".");
        push_str(&mut out, self.ffn_norm_name);
        out
    }

    pub fn is_moe(&self) -> (r: bool)
        ensures
            r == self.spec_is_moe(),
    {
        self.n_expert > 0 && self.n_expert_used > 0
    }

    /// The longest sequence this build can run correctly for this model: no
    /// limit, now that the sliding window is implemented.
    pub fn correct_context_limit(&self) -> (r: usize)
        ensures
            r == usize::MAX,
    {
        usize::MAX
    }

    /// Whether layer `il` uses the sliding window: with pattern `n`, every
    /// layer but the last of each `n` is windowed.
    pub fn is_swa_layer(&self, il: u32) -> (r: bool)
        ensures
            r == self.spec_is_swa_layer(il as nat),
    {
        self.sliding_window > 0 && self.swa_pattern > 1 && il % self.swa_pattern < self.swa_pattern
            - 1
    }
}

/// Weight names an architecture needs, so a missing one is reported by name.
pub struct Qwen3Model {
    pub config: Qwen3Config,
}

pub open spec fn when(b: bool, names: Seq<Seq<char>>) -> Seq<Seq<char>> {
    if b {
        names
    } else {
        Seq::empty()
    }
}

#[verifier::opaque]
pub open spec fn lt_norms(c: Qwen3Config, il: nat) -> Seq<Seq<char>> {
    when(
        c.norm_affine,
        seq![blk(il, "attn_norm.weight"@)] + when(
            !c.parallel_residual,
            seq![blk(il, c.ffn_norm_name@) + ".weight"@],
        ),
    ) + when(
        c.norm_bias,
        seq![blk(il, "attn_norm.bias"@)] + when(!c.parallel_residual, seq![blk(il, "ffn_norm.bias"@)]),
    )
}

#[verifier::opaque]
pub open spec fn lt_biases(c: Qwen3Config, il: nat) -> Seq<Seq<char>> {
    when(c.attn_out_bias, seq![blk(il, "attn_output.bias"@)]) + when(
        c.ffn_bias,
        seq![blk(il, "ffn_up.bias"@), blk(il, "ffn_down.bias"@)],
    ) + when(
        c.post_norms,
        seq![blk(il, "post_attention_norm.weight"@), blk(il, "post_ffw_norm.weight"@)],
    )
}

#[verifier::opaque]
pub open spec fn lt_attention(c: Qwen3Config, il: nat) -> Seq<Seq<char>> {
    let rec = c.spec_is_recurrent(il);
    (if rec {
        seq![
            blk(il, "attn_qkv.weight"@),
            blk(il, "attn_gate.weight"@),
            blk(il, "ssm_conv1d.weight"@),
            blk(il, "ssm_dt.bias"@),
            blk(il, "ssm_a"@),
            blk(il, "ssm_alpha.weight"@),
            blk(il, "ssm_beta.weight"@),
            blk(il, "ssm_norm.weight"@),
            blk(il, "ssm_out.weight"@),
        ]
    } else if c.fused_qkv {
        seq![blk(il, "attn_qkv.weight"@)]
    } else {
        seq![blk(il, "attn_q.weight"@), blk(il, "attn_k.weight"@), blk(il, "attn_v.weight"@)]
            + when(
            c.attn_bias,
            seq![blk(il, "attn_q.bias"@), blk(il, "attn_k.bias"@), blk(il, "attn_v.bias"@)],
        )
    }) + when(
        c.qk_norm && !rec,
        seq![blk(il, "attn_q_norm.weight"@), blk(il, "attn_k_norm.weight"@)],
    )
}

#[verifier::opaque]
pub open spec fn lt_ffn(c: Qwen3Config, il: nat) -> Seq<Seq<char>> {
    if c.spec_is_moe() {
        seq![
            blk(il, "ffn_gate_inp.weight"@),
            blk(il, "ffn_gate_exps.weight"@),
            blk(il, "ffn_up_exps.weight"@),
            blk(il, "ffn_down_exps.weight"@),
        ]
    } else if c.fused_gate_up || c.ffn_act == FfnAct::UngatedGelu {
        seq![blk(il, "ffn_up.weight"@), blk(il, "ffn_down.weight"@)]
    } else {
        seq![blk(il, "ffn_gate.weight"@), blk(il, "ffn_up.weight"@), blk(il, "ffn_down.weight"@)]
    }
}

/// The tensors one layer needs, in load order: the output projection
/// (attention layers only), the norms, the biases and post-norms, the
/// attention or recurrence weights, and the feed-forward.
pub open spec fn layer_tensors(c: Qwen3Config, il: nat) -> Seq<Seq<char>> {
    when(!c.spec_is_recurrent(il), seq![blk(il, "attn_output.weight"@)]) + lt_norms(c, il)
        + lt_biases(c, il) + lt_attention(c, il) + lt_ffn(c, il)
}

/// The tensors before the first layer.
pub open spec fn global_tensors(c: Qwen3Config) -> Seq<Seq<char>> {
    seq!["token_embd.weight"@] + when(c.norm_affine, seq!["output_norm.weight"@]) + when(
        c.norm_bias,
        seq!["output_norm.bias"@],
    ) + when(c.rope_freqs, seq!["rope_freqs.weight"@])
}

/// The tensors of layers `0..n`, layer by layer.
pub open spec fn layers_tensors(c: Qwen3Config, n: nat) -> Seq<Seq<char>>
    decreases n,
{
    if n == 0 {
        Seq::empty()
    } else {
        layers_tensors(c, (n - 1) as nat) + layer_tensors(c, (n - 1) as nat)
    }
}

/// Every tensor the model reads, in load order.
pub open spec fn required_spec(c: Qwen3Config) -> Seq<Seq<char>> {
    global_tensors(c) + layers_tensors(c, c.n_layer as nat)
}

pub open spec fn string_views(v: Seq<String>) -> Seq<Seq<char>> {
    v.map_values(|s: String| s@)
}

fn push_name(names: &mut Vec<String>, name: &str)
    ensures
        string_views(final(names)@) == string_views(old(names)@).push(name@),
{
    let mut s = String::new();
    push_str(&mut s, name);
    names.push(s);
    assert(string_views(final(names)@) =~= string_views(old(names)@).push(name@));
}

fn push_blk(names: &mut Vec<String>, il: u32, suffix: &str)
    ensures
        string_views(final(names)@) == string_views(old(names)@).push(blk(il as nat, suffix@)),
{
    let mut s = String::new();
    push_str(&mut s, "blk.");
    push_decimal(&mut s, il as u64);
    push_str(&mut s, ".");
    push_str(&mut s, suffix);
    names.push(s);
    assert(string_views(final(names)@) =~= string_views(old(names)@).push(blk(il as nat, suffix@)));
}

fn push_blks(names: &mut Vec<String>, il: u32, suffixes: &Vec<&str>)
    ensures
        string_views(final(names)@) == string_views(old(names)@) + suffixes@.map_values(
            |x: &str| blk(il as nat, x@),
        ),
{
    let ghost start = string_views(names@);
    let mut i: usize = 0;
    while i < suffixes.len()
        invariant
            i <= suffixes.len(),
            string_views(names@) == start + suffixes@.take(i as int).map_values(
                |x: &str| blk(il as nat, x@),
            ),
        decreases suffixes.len() - i,
    {
        push_blk(names, il, suffixes[i]);
        i = i + 1;
        assert(suffixes@.take(i as int).map_values(|x: &str| blk(il as nat, x@)) =~= suffixes@.take(
            i - 1,
        ).map_values(|x: &str| blk(il as nat, x@)).push(blk(il as nat, suffixes@[i - 1]@)));
    }
    assert(suffixes@.take(suffixes.len() as int) == suffixes@);
}

impl Qwen3Model {
    pub fn new(config: Qwen3Config) -> (r: Self)
        ensures
            r.config == config,
    {
        Qwen3Model { config }
    }

    fn push_norms(&self, names: &mut Vec<String>, il: u32)
        ensures
            string_views(final(names)@) == string_views(old(names)@) + lt_norms(self.config, il as nat),
    {
        reveal(lt_norms);
        let c = &self.config;
        let ghost start = string_views(names@);
        if c.norm_affine {
            push_blk(names, il, "attn_norm.weight");
            if !c.parallel_residual {
                let mut full = c.ffn_norm(il);
                push_str(&mut full, ".weight");
                let ghost before = string_views(names@);
                names.push(full);
                assert(string_views(names@) =~= before.push(
                    blk(il as nat, c.ffn_norm_name@) + ".weight"@,
                ));
            }
        }
        let ghost mid = string_views(names@);
        if c.norm_bias {
            push_blk(names, il, "attn_norm.bias");
            if !c.parallel_residual {
                push_blk(names, il, "ffn_norm.bias");
            }
        }
        assert(string_views(names@) =~= start + lt_norms(self.config, il as nat));
    }

    fn push_biases(&self, names: &mut Vec<String>, il: u32)
        ensures
            string_views(final(names)@) == string_views(old(names)@) + lt_biases(self.config, il as nat),
    {
        reveal(lt_biases);
        let c = &self.config;
        let ghost start = string_views(names@);
        if c.attn_out_bias {
            push_blk(names, il, "attn_output.bias");
        }
        if c.ffn_bias {
            push_blks(names, il, &vec!["ffn_up.bias", "ffn_down.bias"]);
        }
        if c.post_norms {
            push_blks(names, il, &vec!["post_attention_norm.weight", "post_ffw_norm.weight"]);
        }
        assert(string_views(names@) =~= start + lt_biases(self.config, il as nat));
    }

    fn push_attention(&self, names: &mut Vec<String>, il: u32, rec: bool)
        requires
            rec == self.config.spec_is_recurrent(il as nat),
        ensures
            string_views(final(names)@) == string_views(old(names)@) + lt_attention(
                self.config,
                il as nat,
            ),
    {
        reveal(lt_attention);
        let c = &self.config;
        let ghost start = string_views(names@);
        if rec {
            push_blks(
                names,
                il,
                &vec![
                    "attn_qkv.weight",
                    "attn_gate.weight",
                    "ssm_conv1d.weight",
                    "ssm_dt.bias",
                    "ssm_a",
                    "ssm_alpha.weight",
                    "ssm_beta.weight",
                    "ssm_norm.weight",
                    "ssm_out.weight",
                ],
            );
        } else if c.fused_qkv {
            push_blk(names, il, "attn_qkv.weight");
        } else {
            push_blks(names, il, &vec!["attn_q.weight", "attn_k.weight", "attn_v.weight"]);
            if c.attn_bias {
                push_blks(names, il, &vec!["attn_q.bias", "attn_k.bias", "attn_v.bias"]);
            }
        }
        let ghost mid = string_views(names@);
        if c.qk_norm && !rec {
            push_blks(names, il, &vec!["attn_q_norm.weight", "attn_k_norm.weight"]);
        }
        assert(string_views(names@) =~= start + lt_attention(self.config, il as nat));
    }

    fn push_ffn(&self, names: &mut Vec<String>, il: u32)
        ensures
            string_views(final(names)@) == string_views(old(names)@) + lt_ffn(self.config, il as nat),
    {
        reveal(lt_ffn);
        let c = &self.config;
        let ghost start = string_views(names@);
        if c.is_moe() {
            push_blks(
                names,
                il,
                &vec![
                    "ffn_gate_inp.weight",
                    "ffn_gate_exps.weight",
                    "ffn_up_exps.weight",
                    "ffn_down_exps.weight",
                ],
            );
        } else if c.fused_gate_up || c.ffn_act == FfnAct::UngatedGelu {
            push_blks(names, il, &vec!["ffn_up.weight", "ffn_down.weight"]);
        } else {
            push_blks(names, il, &vec!["ffn_gate.weight", "ffn_up.weight", "ffn_down.weight"]);
        }
        assert(string_views(names@) =~= start + lt_ffn(self.config, il as nat));
    }

    fn push_layer(&self, names: &mut Vec<String>, il: u32)
        requires
            il < u32::MAX,
        ensures
            string_views(final(names)@) == string_views(old(names)@) + layer_tensors(
                self.config,
                il as nat,
            ),
    {
        let ghost start = string_views(names@);
        let rec = self.config.is_recurrent(il);
        if !rec {
            push_blk(names, il, "attn_output.weight");
        }
        let ghost s1 = string_views(names@);
        assert(s1 =~= start + when(!rec, seq![blk(il as nat, "attn_output.weight"@)]));
        self.push_norms(names, il);
        self.push_biases(names, il);
        self.push_attention(names, il, rec);
        self.push_ffn(names, il);
        assert(string_views(names@) =~= start + layer_tensors(self.config, il as nat));
    }

    /// Every tensor this architecture reads, in load order. Used both to bind
    /// weights and to check a container up front.
    pub fn required_tensors(&self) -> (r: Vec<String>)
        ensures
            string_views(r@) == required_spec(self.config),
    {
        let c = &self.config;
        let mut names: Vec<String> = Vec::new();
        push_name(&mut names, "token_embd.weight");
        if c.norm_affine {
            push_name(&mut names, "output_norm.weight");
        }
        if c.norm_bias {
            push_name(&mut names, "output_norm.bias");
        }
        if c.rope_freqs {
            push_name(&mut names, "rope_freqs.weight");
        }
        assert(string_views(names@) =~= global_tensors(self.config));
        let mut il: u32 = 0;
        while il < c.n_layer
            invariant
                il <= c.n_layer,
                c == &self.config,
                string_views(names@) == global_tensors(self.config) + layers_tensors(
                    self.config,
                    il as nat,
                ),
            decreases c.n_layer - il,
        {
            self.push_layer(&mut names, il);
            il = il + 1;
            assert(string_views(names@) =~= global_tensors(self.config) + layers_tensors(
                self.config,
                il as nat,
            ));
        }
        names
    }
}

/// Why a container is refused before a byte of it is read.
#[derive(Debug)]
pub enum Refusal {
    /// Positions by a linear attention bias rather than RoPE, which has no
    /// implementation: it would run and be wrong rather than fail.
    Alibi,
    /// A tensor the architecture requires is absent: the first, in load order.
    MissingTensor(String),
}

impl Refusal {
    /// The refusal as the runner says it.
    pub fn message(&self) -> (r: String)
        ensures
            r@ == match self {
                Refusal::Alibi => "not implemented: this model uses ALiBi rather than RoPE (baichuan at 40 layers is the 13B), and no ALiBi path exists \u{2014} it would run and be wrong rather than fail"@,
                Refusal::MissingTensor(t) => "container has no tensor "@ + crate::text::debug_str(t@),
            },
    {
        match self {
            Refusal::Alibi => String::from_str(
                "not implemented: this model uses ALiBi rather than RoPE (baichuan at 40 layers is the 13B), and no ALiBi path exists \u{2014} it would run and be wrong rather than fail",
            ),
            Refusal::MissingTensor(t) => {
                let mut out = String::from_str("container has no tensor ");
                let q = crate::text::debug_quoted(t.as_str());
                push_str(&mut out, q.as_str());
                out
            },
        }
    }
}

impl Qwen3Model {
    /// Check the container against what this model will read, up front.
    pub fn verify(&self, f: &ModelFacts) -> (r: Result<(), Refusal>)
        ensures
            r is Ok ==> !self.config.uses_alibi && forall|i: int|
                0 <= i < required_spec(self.config).len() ==> f.has(
                    #[trigger] required_spec(self.config)[i],
                ),
            r matches Err(Refusal::Alibi) ==> self.config.uses_alibi,
            r matches Err(Refusal::MissingTensor(n)) ==> !self.config.uses_alibi && exists|i: int|
                0 <= i < required_spec(self.config).len() && #[trigger] required_spec(self.config)[i]
                    == n@ && !f.has(n@) && forall|j: int|
                    0 <= j < i ==> f.has(#[trigger] required_spec(self.config)[j]),
    {
        if self.config.uses_alibi {
            return Err(Refusal::Alibi);
        }
        let names = self.required_tensors();
        let ghost req = required_spec(self.config);
        let mut i: usize = 0;
        while i < names.len()
            invariant
                i <= names@.len(),
                !self.config.uses_alibi,
                string_views(names@) == req,
                req == required_spec(self.config),
                forall|j: int| 0 <= j < i ==> f.has(#[trigger] req[j]),
            decreases names.len() - i,
        {
            assert(req[i as int] == names@[i as int]@);
            if !f.holds(names[i].as_str()) {
                let missing = names[i].clone();
                assert(required_spec(self.config)[i as int] == missing@);
                return Err(Refusal::MissingTensor(missing));
            }
            i = i + 1;
        }
        Ok(())
    }

    /// The output projection: its own tensor, or the embedding table it is
    /// tied to when the container ships none.
    pub fn output_weight_name(&self, f: &ModelFacts) -> (r: &'static str)
        ensures
            r@ == if f.has("output.weight"@) {
                "output.weight"@
            } else {
                "token_embd.weight"@
            },
    {
        if f.holds("output.weight") {
            "output.weight"
        } else {
            "token_embd.weight"
        }
    }
}

} // verus!
