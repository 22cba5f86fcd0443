//! What a container says about a dense-path model, read into a
//! [`Qwen3Config`].
//!
//! Every fact is asked of the container (its integer metadata and which
//! tensors it holds, with their shapes) rather than of the architecture's
//! name, except the few that nothing in the weights reveals.
use vstd::prelude::*;
use crate::qwen3::{
    blk, ffn_act_for, ffn_act_spec, rope_type_for, rope_type_spec, FfnAct, Qwen3Config, SsmConfig,
};
use crate::text::{chars_of, has_prefix, push_decimal, push_str, starts_with, str_eq};

verus! {

/// The plain facts of an opened container.
pub struct ModelFacts {
    /// `general.architecture`.
    pub arch: String,
    /// Every integer metadata entry, by its full key (`{arch}.{suffix}`).
    pub numbers: Vec<(String, u64)>,
    /// `{arch}.rope.dimension_sections`, when the container has it.
    pub sections: Option<Vec<i64>>,
    /// Every tensor, with its dimensions.
    pub tensors: Vec<(String, Vec<u64>)>,
}

/// A metadata key the configuration cannot do without was absent.
#[derive(Debug)]
pub struct MissingMetadata {
    pub key: String,
}

impl MissingMetadata {
    /// The refusal as the runner says it.
    pub fn message(&self) -> (r: String)
        ensures
            r@ == "container has no metadata key "@ + crate::text::debug_str(self.key@),
    {
        let mut out = String::from_str("container has no metadata key ");
        let q = crate::text::debug_quoted(self.key.as_str());
        push_str(&mut out, q.as_str());
        out
    }
}

/// The value of the first entry named `key`.
pub open spec fn first_num(ns: Seq<(String, u64)>, key: Seq<char>) -> Option<u64>
    decreases ns.len(),
{
    if ns.len() == 0 {
        None
    } else if ns[0].0@ == key {
        Some(ns[0].1)
    } else {
        first_num(ns.skip(1), key)
    }
}

/// The dimensions of the first tensor named `name`.
pub open spec fn first_loc(ts: Seq<(String, Vec<u64>)>, name: Seq<char>) -> Option<Seq<u64>>
    decreases ts.len(),
{
    if ts.len() == 0 {
        None
    } else if ts[0].0@ == name {
        Some(ts[0].1@)
    } else {
        first_loc(ts.skip(1), name)
    }
}

pub open spec fn or_default(o: Option<u64>, d: u64) -> u64 {
    match o {
        Some(v) => v,
        None => d,
    }
}

impl ModelFacts {
    /// `{arch}.{suffix}`.
    pub open spec fn key(&self, suffix: Seq<char>) -> Seq<char> {
        self.arch@ + "."@ + suffix
    }

    /// The integer metadata `{arch}.{suffix}`.
    pub open spec fn num(&self, suffix: Seq<char>) -> Option<u64> {
        first_num(self.numbers@, self.key(suffix))
    }

    /// The shape of the tensor `name`, if the container holds it.
    pub open spec fn loc(&self, name: Seq<char>) -> Option<Seq<u64>> {
        first_loc(self.tensors@, name)
    }

    pub open spec fn has(&self, name: Seq<char>) -> bool {
        self.loc(name) is Some
    }

    /// The first of the keys the configuration cannot do without that is
    /// absent, in the order they are asked for.
    pub open spec fn missing(&self) -> Option<Seq<char>> {
        if self.num("embedding_length"@) is None {
            Some(self.key("embedding_length"@))
        } else if self.num("attention.head_count"@) is None {
            Some(self.key("attention.head_count"@))
        } else if self.num("block_count"@) is None {
            Some(self.key("block_count"@))
        } else {
            None
        }
    }

    pub open spec fn spec_n_embd(&self) -> u32 {
        self.num("embedding_length"@)->0 as u32
    }

    pub open spec fn spec_n_head(&self) -> u32 {
        self.num("attention.head_count"@)->0 as u32
    }

    /// The gated delta net's shape, present when the container declares a
    /// convolution kernel; each other size defaults as llama.cpp does.
    pub open spec fn spec_ssm(&self) -> Option<SsmConfig> {
        match self.num("ssm.conv_kernel"@) {
            None => None,
            Some(ck) => Some(
                SsmConfig {
                    conv_kernel: ck as u32,
                    inner_size: or_default(self.num("ssm.inner_size"@), 0) as u32,
                    state_size: or_default(self.num("ssm.state_size"@), 0) as u32,
                    group_count: or_default(self.num("ssm.group_count"@), 1) as u32,
                    time_step_rank: or_default(self.num("ssm.time_step_rank"@), 1) as u32,
                    full_attention_interval: or_default(self.num("full_attention_interval"@), 4)
                        as u32,
                },
            ),
        }
    }

    /// Declared explicitly by some containers, implied by the others.
    pub open spec fn spec_head_dim(&self) -> u32 {
        let n_head = self.spec_n_head();
        or_default(
            self.num("attention.key_length"@),
            (self.spec_n_embd() / (if n_head == 0 { 1 } else { n_head })) as u64,
        ) as u32
    }

    /// No `ffn_gate` tensor, and not because the experts carry it as `ffn_gate_exps`.
    pub open spec fn spec_no_gate(&self) -> bool {
        !self.has("blk.0.ffn_gate_exps.weight"@) && !self.has("blk.0.ffn_gate.weight"@)
    }

    /// The second dimension of `blk.0.ffn_up.weight`, or zero.
    pub open spec fn spec_up_ne1(&self) -> u64 {
        match self.loc("blk.0.ffn_up.weight"@) {
            Some(d) => if d.len() > 1 {
                d[1]
            } else {
                0
            },
            None => 0,
        }
    }

    /// Gate and up share one tensor twice the declared width.
    pub open spec fn spec_fused_gate_up(&self) -> bool {
        let ff = or_default(self.num("feed_forward_length"@), 0);
        self.spec_no_gate() && ff > 0 && self.spec_up_ne1() == 2 * ff
    }

    pub open spec fn spec_declared(&self) -> u32 {
        self.num("block_count"@)->0 as u32
    }

    /// The last declared block is a multi-token-prediction head.
    pub open spec fn spec_mtp_head(&self) -> bool {
        self.spec_declared() > 0 && self.has(
            blk((self.spec_declared() - 1) as nat, "nextn.eh_proj.weight"@),
        )
    }

    pub open spec fn spec_n_layer(&self) -> u32 {
        if self.spec_mtp_head() {
            (self.spec_declared() - 1) as u32
        } else {
            self.spec_declared()
        }
    }

    /// The first attention layer: block 0, or on a hybrid stack the first
    /// block whose number plus one is a multiple of the interval.
    pub open spec fn spec_first_attention(&self) -> nat {
        match self.spec_ssm() {
            None => 0,
            Some(s) => (if s.full_attention_interval == 0 {
                1
            } else {
                s.full_attention_interval
            } - 1) as nat,
        }
    }

    pub open spec fn spec_qk_norm(&self) -> bool {
        let fa = self.spec_first_attention();
        fa < self.spec_n_layer() && self.has(blk(fa, "attn_q_norm.weight"@))
    }

    /// The first layer below `n` that has `attn_q.weight`.
    pub open spec fn first_q(&self, n: nat) -> Option<nat>
        decreases n,
    {
        if n == 0 {
            None
        } else {
            match self.first_q((n - 1) as nat) {
                Some(il) => Some(il),
                None => if self.has(blk((n - 1) as nat, "attn_q.weight"@)) {
                    Some((n - 1) as nat)
                } else {
                    None
                },
            }
        }
    }

    /// A query projection twice as wide as `head_dim * n_head` carries a
    /// gate beside it.
    pub open spec fn spec_fused_q_gate(&self) -> bool {
        match self.first_q(self.spec_n_layer() as nat) {
            None => false,
            Some(il) => {
                let d = self.loc(blk(il, "attn_q.weight"@))->0;
                d.len() > 0 && d.last() == self.spec_head_dim() * self.spec_n_head() * 2
            },
        }
    }

    pub open spec fn spec_vocab_size(&self) -> u32 {
        match self.num("vocab_size"@) {
            Some(v) => v as u32,
            None => match self.loc("token_embd.weight"@) {
                Some(d) => d[1] as u32,
                None => 0,
            },
        }
    }

    /// `rope.dimension_sections`, when it has the four entries mRoPE uses.
    pub open spec fn spec_sections(&self) -> Option<Seq<i32>> {
        match self.sections {
            Some(v) => if v@.len() >= 4 {
                Some(seq![v@[0] as i32, v@[1] as i32, v@[2] as i32, v@[3] as i32])
            } else {
                None
            },
            None => None,
        }
    }

    /// Every window-pattern default is by architecture, because a wrong one
    /// is silent.
    pub open spec fn spec_swa_pattern(&self) -> u32 {
        match self.num("attention.sliding_window_pattern"@) {
            Some(v) => v as u32,
            None => if self.arch@ == "gemma2"@ {
                2
            } else if self.arch@ == "gemma3"@ {
                6
            } else {
                0
            },
        }
    }

    /// What reading the container may not meet: shapes it could not hold.
    pub open spec fn readable(&self) -> bool {
        &&& self.num("vocab_size"@) is None ==> match self.loc("token_embd.weight"@) {
            Some(d) => d.len() > 1,
            None => true,
        }
        &&& 2 * or_default(self.num("feed_forward_length"@), 0) <= u64::MAX
        &&& (self.num("attention.head_count"@) is Some && self.num("embedding_length"@) is Some)
            ==> self.spec_head_dim() * self.spec_n_head() * 2 <= u64::MAX
    }

    /// Whether `from_model` can read this container without overflow.
    pub fn is_readable(&self) -> (r: bool)
        ensures
            r == self.readable(),
    {
        let vocab_ok = match self.number("vocab_size") {
            Some(_) => true,
            None => match self.find("token_embd.weight") {
                Some(i) => self.tensors[i].1.len() > 1,
                None => true,
            },
        };
        let ff = match self.number("feed_forward_length") {
            Some(v) => v,
            None => 0,
        };
        let ff_ok = ff <= 0x7fff_ffff_ffff_ffff;
        let shape_ok = match (self.number("attention.head_count"), self.number("embedding_length")) {
            (Some(h), Some(e)) => {
                let n_head = h as u32;
                let n_embd = e as u32;
                let head_dim = match self.number("attention.key_length") {
                    Some(v) => v,
                    None => (n_embd / (if n_head == 0 { 1 } else { n_head })) as u64,
                } as u32;
                let hd: u128 = head_dim as u128;
                let nh: u128 = n_head as u128;
                assert(hd * nh <= 0xffff_ffff * 0xffff_ffff) by (nonlinear_arith)
                    requires
                        hd <= 0xffff_ffff,
                        nh <= 0xffff_ffff,
                ;
                hd * nh * 2 <= 0xffff_ffff_ffff_ffff
            },
            _ => true,
        };
        vocab_ok && ff_ok && shape_ok
    }
}

/// The attention scale's dimension. llama.cpp picks it by model size, not by
/// a metadata key: the 27B Gemmas scale by `n_embd / n_head`, everything else
/// by `head_dim`, and sizes are told apart by layer count.
pub open spec fn attn_scale_dim_spec(arch: Seq<char>, n_layer: u32, n_embd: u32, n_head: u32, head_dim: u32) -> u32 {
    if (arch == "gemma2"@ && n_layer == 46) || (arch == "gemma3"@ && n_layer == 62) {
        n_embd / (if n_head == 0 { 1 } else { n_head })
    } else {
        head_dim
    }
}

pub fn attn_scale_dim(arch: &str, n_layer: u32, n_embd: u32, n_head: u32, head_dim: u32) -> (r: u32)
    ensures
        r == attn_scale_dim_spec(arch@, n_layer, n_embd, n_head, head_dim),
{
    if (str_eq(arch, "gemma2") && n_layer == 46) || (str_eq(arch, "gemma3") && n_layer == 62) {
        n_embd / (if n_head == 0 { 1 } else { n_head })
    } else {
        head_dim
    }
}

/// The configuration the container describes.
pub open spec fn config_ok(f: ModelFacts, c: Qwen3Config) -> bool {
    let n_head = f.spec_n_head();
    let head_dim = f.spec_head_dim();
    let n_layer = f.spec_n_layer();
    let ssm = f.spec_ssm();
    let ungated = f.spec_no_gate() && !f.spec_fused_gate_up();
    &&& c.n_layer == n_layer
    &&& c.n_embd == f.spec_n_embd()
    &&& c.n_head == n_head
    &&& c.n_head_kv == or_default(f.num("attention.head_count_kv"@), n_head as u64) as u32
    &&& c.head_dim == head_dim
    &&& c.n_ff == or_default(f.num("feed_forward_length"@), 0) as u32
    &&& c.vocab_size == f.spec_vocab_size()
    &&& c.rope_orig_ctx == or_default(f.num("rope.scaling.original_context_length"@), 0) as u32
    &&& c.n_expert == or_default(f.num("expert_count"@), 0) as u32
    &&& c.n_expert_used == or_default(f.num("expert_used_count"@), 0) as u32
    &&& c.n_ff_expert == or_default(f.num("expert_feed_forward_length"@), 0) as u32
    &&& c.ssm == ssm
    &&& match c.rope_sections {
        Some(a) => f.spec_sections() == Some(a@),
        None => f.spec_sections() is None,
    }
    &&& c.ffn_norm_name@ == if ssm is Some {
        "post_attention_norm"@
    } else {
        "ffn_norm"@
    }
    &&& c.fused_q_gate == f.spec_fused_q_gate()
    &&& c.qk_norm == f.spec_qk_norm()
    &&& (c.rope_type, c.rope_type_is_known) == rope_type_spec(f.arch@)
    &&& c.attn_bias == f.has("blk.0.attn_q.bias"@)
    &&& c.layer_norm == (f.has("blk.0.attn_norm.bias"@) || !f.has("blk.0.attn_norm.weight"@))
    &&& c.norm_affine == f.has("blk.0.attn_norm.weight"@)
    &&& c.norm_bias == f.has("blk.0.attn_norm.bias"@)
    &&& c.parallel_residual == (f.has("blk.0.attn_norm.weight"@) && !f.has("blk.0.ffn_norm.weight"@)
        && !f.has("blk.0.post_attention_norm.weight"@))
    &&& c.uses_alibi == (f.arch@ == "baichuan"@ && f.num("block_count"@)->0 == 40)
    &&& c.rope_freqs == f.has("rope_freqs.weight"@)
    &&& c.ffn_bias == f.has("blk.0.ffn_down.bias"@)
    &&& c.attn_out_bias == f.has("blk.0.attn_output.bias"@)
    &&& c.n_rot == match f.num("rope.dimension_count"@) {
        Some(v) => v as u32,
        None => head_dim,
    }
    &&& c.fused_qkv == (ssm is None && f.has("blk.0.attn_qkv.weight"@))
    &&& c.fused_gate_up == f.spec_fused_gate_up()
    &&& c.post_norms == (f.has("blk.0.post_attention_norm.weight"@) && f.has(
        "blk.0.post_ffw_norm.weight"@,
    ))
    &&& c.scale_embeddings == starts_with(f.arch@, "gemma"@)
    &&& c.attn_scale_dim == attn_scale_dim_spec(f.arch@, n_layer, f.spec_n_embd(), n_head, head_dim)
    &&& c.prescale_q == starts_with(f.arch@, "gemma"@)
    &&& c.ffn_act == if ungated {
        FfnAct::UngatedGelu
    } else {
        ffn_act_spec(f.arch@)
    }
    &&& c.sliding_window == or_default(f.num("attention.sliding_window"@), 0) as u32
    &&& c.swa_pattern == f.spec_swa_pattern()
}

/// `{arch}.{suffix}`.
fn key_of(arch: &str, suffix: &str) -> (r: String)
    ensures
        r@ == arch@ + "."@ + suffix@,
{
    let mut k = String::new();
    push_str(&mut k, arch);
    push_str(&mut k, ".");
    push_str(&mut k, suffix);
    k
}

/// `blk.{il}.{suffix}`.
fn blk_name(il: u32, suffix: &str) -> (r: String)
    ensures
        r@ == blk(il as nat, suffix@),
{
    let mut s = String::new();
    push_str(&mut s, "blk.");
    push_decimal(&mut s, il as u64);
    push_str(&mut s, ".");
    push_str(&mut s, suffix);
    s
}

impl ModelFacts {
    /// The integer metadata `{arch}.{suffix}`.
    fn number(&self, suffix: &str) -> (r: Option<u64>)
        ensures
            r == self.num(suffix@),
    {
        let key = key_of(self.arch.as_str(), suffix);
        let ghost k = key@;
        let mut i: usize = 0;
        assert(self.numbers@.skip(0) =~= self.numbers@);
        while i < self.numbers.len()
            invariant
                i <= self.numbers@.len(),
                k == self.key(suffix@),
                key@ == k,
                first_num(self.numbers@.skip(i as int), k) == self.num(suffix@),
            decreases self.numbers.len() - i,
        {
            let ghost rest = self.numbers@.skip(i as int);
            assert(rest[0] == self.numbers@[i as int]);
            assert(rest.skip(1) =~= self.numbers@.skip(i + 1));
            if str_eq(self.numbers[i].0.as_str(), key.as_str()) {
                return Some(self.numbers[i].1);
            }
            i = i + 1;
        }
        None
    }

    /// Where the tensor `name` is listed, if it is.
    fn find(&self, name: &str) -> (r: Option<usize>)
        ensures
            match r {
                Some(i) => i < self.tensors@.len() && self.loc(name@) == Some(
                    self.tensors@[i as int].1@,
                ),
                None => self.loc(name@) is None,
            },
    {
        let mut i: usize = 0;
        assert(self.tensors@.skip(0) =~= self.tensors@);
        while i < self.tensors.len()
            invariant
                i <= self.tensors@.len(),
                first_loc(self.tensors@.skip(i as int), name@) == self.loc(name@),
            decreases self.tensors.len() - i,
        {
            let ghost rest = self.tensors@.skip(i as int);
            assert(rest[0] == self.tensors@[i as int]);
            assert(rest.skip(1) =~= self.tensors@.skip(i + 1));
            if str_eq(self.tensors[i].0.as_str(), name) {
                return Some(i);
            }
            i = i + 1;
        }
        None
    }

    pub fn holds(&self, name: &str) -> (r: bool)
        ensures
            r == self.has(name@),
    {
        self.find(name).is_some()
    }

    /// The first layer below `n` that has `attn_q.weight`.
    fn first_query(&self, n: u32) -> (r: Option<u32>)
        ensures
            match self.first_q(n as nat) {
                Some(il) => r == Some(il as u32) && il < n && self.has(blk(il, "attn_q.weight"@)),
                None => r is None,
            },
    {
        let mut il: u32 = 0;
        while il < n
            invariant
                il <= n,
                self.first_q(il as nat) is None,
            decreases n - il,
        {
            let name = blk_name(il, "attn_q.weight");
            if self.holds(name.as_str()) {
                proof {
                    lemma_first_q_settles(self, il as nat, n as nat);
                }
                return Some(il);
            }
            il = il + 1;
        }
        None
    }
}

proof fn lemma_first_q_settles(f: &ModelFacts, il: nat, n: nat)
    requires
        il < n,
        f.first_q(il) is None,
        f.has(blk(il, "attn_q.weight"@)),
    ensures
        f.first_q(n) == Some(il),
    decreases n,
{
    if n > il + 1 {
        lemma_first_q_settles(f, il, (n - 1) as nat);
    }
}

impl Qwen3Config {
    /// Read the configuration from what the container says.
    ///
    /// Refused only when the embedding width, the head count or the block
    /// count is missing; everything else has a default, chosen so that a
    /// container which omits a key gets what it was trained with.
    #[verifier::rlimit(60)]
    pub fn from_model(f: &ModelFacts) -> (r: Result<Qwen3Config, MissingMetadata>)
        requires
            f.readable(),
        ensures
            match f.missing() {
                Some(k) => r matches Err(e) && e.key@ == k,
                None => r matches Ok(c) && config_ok(*f, c),
            },
    {
        let arch = f.arch.as_str();
        let n_embd = match f.number("embedding_length") {
            Some(v) => v as u32,
            None => return Err(MissingMetadata { key: key_of(arch, "embedding_length") }),
        };
        let ssm = match f.number("ssm.conv_kernel") {
            None => None,
            Some(ck) => Some(
                SsmConfig {
                    conv_kernel: ck as u32,
                    inner_size: match f.number("ssm.inner_size") {
                        Some(v) => v,
                        None => 0,
                    } as u32,
                    state_size: match f.number("ssm.state_size") {
                        Some(v) => v,
                        None => 0,
                    } as u32,
                    group_count: match f.number("ssm.group_count") {
                        Some(v) => v,
                        None => 1,
                    } as u32,
                    time_step_rank: match f.number("ssm.time_step_rank") {
                        Some(v) => v,
                        None => 1,
                    } as u32,
                    full_attention_interval: match f.number("full_attention_interval") {
                        Some(v) => v,
                        None => 4,
                    } as u32,
                },
            ),
        };
        let rope_sections: Option<[i32; 4]> = match &f.sections {
            Some(v) => if v.len() >= 4 {
                Some([v[0] as i32, v[1] as i32, v[2] as i32, v[3] as i32])
            } else {
                None
            },
            None => None,
        };
        let n_head = match f.number("attention.head_count") {
            Some(v) => v as u32,
            None => return Err(MissingMetadata { key: key_of(arch, "attention.head_count") }),
        };
        let head_dim = match f.number("attention.key_length") {
            Some(v) => v,
            None => (n_embd / (if n_head == 0 { 1 } else { n_head })) as u64,
        } as u32;
        let moe_gate = f.holds("blk.0.ffn_gate_exps.weight");
        let no_gate = !moe_gate && !f.holds("blk.0.ffn_gate.weight");
        let up_ne1 = match f.find("blk.0.ffn_up.weight") {
            Some(i) => if f.tensors[i].1.len() > 1 {
                f.tensors[i].1[1]
            } else {
                0
            },
            None => 0,
        };
        let declared_ff = match f.number("feed_forward_length") {
            Some(v) => v,
            None => 0,
        };
        let fused_gate_up = no_gate && declared_ff > 0 && up_ne1 == 2 * declared_ff;
        let ungated = no_gate && !fused_gate_up;
        let block_count = match f.number("block_count") {
            Some(v) => v,
            None => return Err(MissingMetadata { key: key_of(arch, "block_count") }),
        };
        let declared = block_count as u32;
        let mtp_head = declared > 0 && f.holds(
            blk_name(declared - 1, "nextn.eh_proj.weight").as_str(),
        );
        let n_layer = if mtp_head {
            declared - 1
        } else {
            declared
        };
        let vocab_size = match f.number("vocab_size") {
            Some(v) => v,
            None => match f.find("token_embd.weight") {
                Some(i) => f.tensors[i].1[1],
                None => 0,
            },
        } as u32;
        let first_attention: u32 = match ssm {
            None => 0,
            Some(s) => (if s.full_attention_interval == 0 {
                1
            } else {
                s.full_attention_interval
            }) - 1,
        };
        let qk_norm = first_attention < n_layer && f.holds(
            blk_name(first_attention, "attn_q_norm.weight").as_str(),
        );
        let fused_q_gate = match f.first_query(n_layer) {
            None => false,
            Some(il) => {
                let name = blk_name(il, "attn_q.weight");
                match f.find(name.as_str()) {
                    Some(i) => {
                        let dims = &f.tensors[i].1;
                        let r = dims.len() > 0 && dims[dims.len() - 1] == (head_dim as u64) * (
                        n_head as u64) * 2;
                        proof {
                            assert(f.first_q(n_layer as nat) == Some(il as nat));
                            assert(f.loc(blk(il as nat, "attn_q.weight"@)) == Some(dims@));
                            assert(head_dim == f.spec_head_dim());
                            assert(n_head == f.spec_n_head());
                            assert(n_layer == f.spec_n_layer());
                            assert(r == f.spec_fused_q_gate());
                        }
                        r
                    },
                    None => {
                        assert(f.has(blk(il as nat, "attn_q.weight"@)));
                        false
                    },
                }
            },
        };
        let (rope_type, rope_type_is_known) = rope_type_for(arch);
        let has_attn_norm = f.holds("blk.0.attn_norm.weight");
        let has_attn_norm_bias = f.holds("blk.0.attn_norm.bias");
        let has_post_attention_norm = f.holds("blk.0.post_attention_norm.weight");
        let gemma = has_prefix(chars_of(arch).as_slice(), "gemma");
        let c = Qwen3Config {
            n_layer,
            n_embd,
            n_head,
            n_head_kv: match f.number("attention.head_count_kv") {
                Some(v) => v,
                None => n_head as u64,
            } as u32,
            head_dim,
            n_ff: declared_ff as u32,
            vocab_size,
            rope_orig_ctx: match f.number("rope.scaling.original_context_length") {
                Some(v) => v,
                None => 0,
            } as u32,
            n_expert: match f.number("expert_count") {
                Some(v) => v,
                None => 0,
            } as u32,
            n_expert_used: match f.number("expert_used_count") {
                Some(v) => v,
                None => 0,
            } as u32,
            n_ff_expert: match f.number("expert_feed_forward_length") {
                Some(v) => v,
                None => 0,
            } as u32,
            ssm,
            rope_sections,
            ffn_norm_name: if ssm.is_some() {
                "post_attention_norm"
            } else {
                "ffn_norm"
            },
            fused_q_gate,
            qk_norm,
            rope_type,
            rope_type_is_known,
            attn_bias: f.holds("blk.0.attn_q.bias"),
            layer_norm: has_attn_norm_bias || !has_attn_norm,
            norm_affine: has_attn_norm,
            norm_bias: has_attn_norm_bias,
            uses_alibi: str_eq(arch, "baichuan") && block_count == 40,
            rope_freqs: f.holds("rope_freqs.weight"),
            ffn_bias: f.holds("blk.0.ffn_down.bias"),
            attn_out_bias: f.holds("blk.0.attn_output.bias"),
            n_rot: match f.number("rope.dimension_count") {
                Some(v) => v as u32,
                None => head_dim,
            },
            fused_qkv: ssm.is_none() && f.holds("blk.0.attn_qkv.weight"),
            fused_gate_up,
            parallel_residual: has_attn_norm && !f.holds("blk.0.ffn_norm.weight")
                && !has_post_attention_norm,
            post_norms: has_post_attention_norm && f.holds("blk.0.post_ffw_norm.weight"),
            scale_embeddings: gemma,
            attn_scale_dim: attn_scale_dim(arch, n_layer, n_embd, n_head, head_dim),
            prescale_q: gemma,
            ffn_act: if ungated {
                FfnAct::UngatedGelu
            } else {
                ffn_act_for(arch)
            },
            swa_pattern: match f.number("attention.sliding_window_pattern") {
                Some(v) => v as u32,
                None => if str_eq(arch, "gemma2") {
                    2
                } else if str_eq(arch, "gemma3") {
                    6
                } else {
                    0
                },
            },
            sliding_window: match f.number("attention.sliding_window") {
                Some(v) => v,
                None => 0,
            } as u32,
        };
        proof {
            match c.rope_sections {
                Some(a) => {
                    assert(a@ =~= f.spec_sections()->0);
                },
                None => {},
            }
        }
        Ok(c)
    }
}

} // verus!
