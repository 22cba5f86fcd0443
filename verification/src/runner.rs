//! The runner's decisions around the engine: what it refuses before loading
//! a model, how it sizes the expert cache, what `--auto` may fill in, and
//! what one generated token does to a turn.
use vstd::prelude::*;
use crate::plan::{AutoPlan, DEFAULT_PREFILL_BLOCK};
use crate::qwen3::{verified_architectures, verified_names};
use crate::run::{
    accept_spec, context_shift, holds_any, mentions_any, shift_spec, ThinkState, ThinkTracker,
};
use crate::text::{
    debug_quoted, debug_str, decimal, join, push_decimal, push_joined, push_str, str_eq,
};

verus! {

/// Bytes in a GiB.
pub const GIB: u64 = 1073741824;

/// The refusal for an architecture nobody has checked against the
/// reference: it may load and answer, fluently and wrongly.
pub open spec fn unverified_message(arch: Seq<char>) -> Seq<char> {
    debug_str(arch) + " is not an architecture this build has been verified against.\n"@
        + "           verified: "@ + join(verified_names(), ", "@) + "\n"@
        + "\n           It may load and generate, and be WRONG with no error.\n           Gemma-2 does exactly that: it answers \"The capital of\n           France is\" with \"himselff\", because it needs post-norms,\n           logit soft-capping and embedding scaling this path does not\n           implement -- none of which appear as a missing tensor.\n\n           Pass --force to run it anyway."@
}

/// Run `arch` only if it has been verified, or `--force` was given.
pub fn admit_architecture(arch: &str, force: bool) -> (r: Result<(), String>)
    ensures
        r is Err <==> (!verified_names().contains(arch@) && !force),
        r matches Err(m) ==> m@ == unverified_message(arch@),
{
    if crate::qwen3::architecture_is_verified(arch) || force {
        return Ok(());
    }
    let mut msg = debug_quoted(arch);
    push_str(&mut msg, " is not an architecture this build has been verified against.\n");
    push_str(&mut msg, "           verified: ");
    let names = verified_architectures();
    push_joined(&mut msg, &names, ", ");
    push_str(&mut msg, "\n");
    push_str(
        &mut msg,
        "\n           It may load and generate, and be WRONG with no error.\n           Gemma-2 does exactly that: it answers \"The capital of\n           France is\" with \"himselff\", because it needs post-norms,\n           logit soft-capping and embedding scaling this path does not\n           implement -- none of which appear as a missing tensor.\n\n           Pass --force to run it anyway.",
    );
    Err(msg)
}

/// Whether a container goes down the DeepSeek-V4-Flash path, which shares
/// the residency machinery but almost none of the graph.
pub fn takes_deepseek4_path(arch: &str) -> (r: bool)
    ensures
        r == (arch@ == "deepseek4"@),
{
    crate::text::str_eq(arch, "deepseek4")
}

/// The constraint to build before the model opens: a GBNF grammar
/// (`false`) or a JSON schema (`true`), never both.
pub fn grammar_source(grammar: Option<&str>, schema: Option<&str>) -> (r: Result<Option<(bool, String)>, String>)
    ensures
        match (grammar, schema) {
            (Some(_), Some(_)) => r matches Err(m) && m@ == "--grammar and --json-schema are alternatives; pass one"@,
            (Some(g), None) => r matches Ok(Some((false, t))) && t@ == g@,
            (None, Some(j)) => r matches Ok(Some((true, t))) && t@ == j@,
            (None, None) => r matches Ok(None),
        },
{
    match (grammar, schema) {
        (Some(_), Some(_)) => Err(String::from_str("--grammar and --json-schema are alternatives; pass one")),
        (Some(g), None) => Ok(Some((false, String::from_str(g)))),
        (None, Some(j)) => Ok(Some((true, String::from_str(j)))),
        (None, None) => Ok(None),
    }
}

/// A prompt the tokenizer turned into nothing cannot be run. The message
/// differs between the dense path and the DeepSeek-V4-Flash one.
pub fn no_tokens_refusal(n_tokens: usize, deepseek4: bool) -> (r: Option<&'static str>)
    ensures
        n_tokens > 0 ==> r is None,
        n_tokens == 0 ==> (r matches Some(m) && m@ == (if deepseek4 {
            "empty prompt"@
        } else {
            "prompt encoded to zero tokens"@
        })),
{
    if n_tokens > 0 {
        None
    } else if deepseek4 {
        Some("empty prompt")
    } else {
        Some("prompt encoded to zero tokens")
    }
}

/// DRY's sequence breakers as asked for, or llama.cpp's defaults: a newline,
/// a colon, a quote and an asterisk.
pub fn dry_breakers_or_default(given: &Vec<String>) -> (r: Vec<String>)
    ensures
        given@.len() > 0 ==> r@.map_values(|s: String| s@) == given@.map_values(|s: String| s@),
        given@.len() == 0 ==> r@.map_values(|s: String| s@) == seq!["\n"@, ":"@, "\""@, "*"@],
{
    if given.len() > 0 {
        let mut out: Vec<String> = Vec::new();
        let mut i: usize = 0;
        while i < given.len()
            invariant
                i <= given@.len(),
                out@.map_values(|s: String| s@) == given@.map_values(|s: String| s@).take(i as int),
            decreases given.len() - i,
        {
            out.push(String::from_str(given[i].as_str()));
            proof {
                assert(given@.map_values(|s: String| s@).take(i + 1) =~= given@.map_values(|s: String| s@).take(i as int).push(given@[i as int]@));
            }
            i = i + 1;
            assert(out@.map_values(|s: String| s@) =~= given@.map_values(|s: String| s@).take(i as int));
        }
        assert(given@.map_values(|s: String| s@).take(given@.len() as int) =~= given@.map_values(|s: String| s@));
        out
    } else {
        let out = vec![
            String::from_str("\n"),
            String::from_str(":"),
            String::from_str("\""),
            String::from_str("*"),
        ];
        assert(out@.map_values(|s: String| s@) =~= seq!["\n"@, ":"@, "\""@, "*"@]);
        out
    }
}

/// `ids` without the beginning-of-sequence token.
pub open spec fn without_bos(ids: Seq<u32>, bos: Option<u32>) -> Seq<u32> {
    ids.filter(|id: u32| Some(id) != bos)
}

/// The breakers that are one token once BOS is set aside, in order. A
/// breaker that is still several tokens cannot act as a barrier, and is
/// skipped rather than matching something else.
pub open spec fn breaker_ids(encoded: Seq<Seq<u32>>, bos: Option<u32>) -> Seq<u32>
    decreases encoded.len(),
{
    if encoded.len() == 0 {
        Seq::empty()
    } else {
        let rest = breaker_ids(encoded.drop_last(), bos);
        let kept = without_bos(encoded.last(), bos);
        if kept.len() == 1 {
            rest.push(kept[0])
        } else {
            rest
        }
    }
}

fn drop_bos(ids: &Vec<u32>, bos: Option<u32>) -> (r: Vec<u32>)
    ensures
        r@ == without_bos(ids@, bos),
{
    let mut out: Vec<u32> = Vec::new();
    let mut i: usize = 0;
    while i < ids.len()
        invariant
            i <= ids@.len(),
            out@ == without_bos(ids@.take(i as int), bos),
        decreases ids.len() - i,
    {
        proof {
            let t = ids@.take(i + 1);
            assert(t.drop_last() =~= ids@.take(i as int));
            broadcast use vstd::seq_lib::group_filter_ensures;
            reveal_with_fuel(Seq::filter, 1);
        }
        if Some(ids[i]) != bos {
            out.push(ids[i]);
        }
        i = i + 1;
    }
    assert(ids@.take(ids@.len() as int) =~= ids@);
    out
}

pub fn single_token_breakers(encoded: &Vec<Vec<u32>>, bos: Option<u32>) -> (r: Vec<u32>)
    ensures
        r@ == breaker_ids(encoded@.map_values(|v: Vec<u32>| v@), bos),
{
    let ghost ev = encoded@.map_values(|v: Vec<u32>| v@);
    let mut out: Vec<u32> = Vec::new();
    let mut i: usize = 0;
    while i < encoded.len()
        invariant
            i <= encoded@.len(),
            ev == encoded@.map_values(|v: Vec<u32>| v@),
            out@ == breaker_ids(ev.take(i as int), bos),
        decreases encoded.len() - i,
    {
        proof {
            assert(ev.take(i + 1).drop_last() =~= ev.take(i as int));
            assert(ev.take(i + 1).last() == encoded@[i as int]@);
        }
        let kept = drop_bos(&encoded[i], bos);
        if kept.len() == 1 {
            out.push(kept[0]);
        }
        i = i + 1;
    }
    assert(ev.take(encoded@.len() as int) =~= ev);
    out
}

/// Past the context this build runs correctly, the answer is wrong rather
/// than slow, and the run is refused.
pub open spec fn past_correct_message(prompt_len: nat, n_predict: nat, correct: nat) -> Seq<char> {
    "prompt is "@ + decimal(prompt_len) + " tokens and -n is "@ + decimal(n_predict) + ", past the "@
        + decimal(correct)
        + " this build can run              correctly for this model (its sliding-window attention is not implemented, so              beyond the window the local layers would attend too far -- silently)"@
}

/// Past `-c` with no context shift to make room, the run is refused.
pub open spec fn past_ctx_message(prompt_len: nat, n_predict: nat, limit: nat) -> Seq<char> {
    "prompt is "@ + decimal(prompt_len) + " tokens and -n is "@ + decimal(n_predict)
        + ", which exceeds the -c limit of "@ + decimal(limit)
        + ". Drop --no-context-shift to let it make room instead."@
}

/// Whether a run of `prompt_len + n_predict` tokens may start. `-c` is
/// enforced only when context shift is off: with it on, exceeding `-c` is
/// what the shift is for.
pub fn context_refusal(prompt_len: usize, n_predict: usize, correct: usize, ctx_size: Option<usize>, shift_on: bool) -> (r: Option<String>)
    requires
        prompt_len + n_predict <= usize::MAX,
    ensures
        r is Some <==> (prompt_len + n_predict > correct || (!shift_on && (ctx_size matches Some(l) && prompt_len + n_predict > l))),
        prompt_len + n_predict > correct ==> (r matches Some(m) && m@ == past_correct_message(prompt_len as nat, n_predict as nat, correct as nat)),
        prompt_len + n_predict <= correct ==> match ctx_size {
            Some(l) => (!shift_on && prompt_len + n_predict > l) ==> (r matches Some(m) && m@ == past_ctx_message(prompt_len as nat, n_predict as nat, l as nat)),
            None => true,
        },
{
    let need = prompt_len + n_predict;
    if need > correct {
        let mut m = String::from_str("prompt is ");
        push_decimal(&mut m, prompt_len as u64);
        push_str(&mut m, " tokens and -n is ");
        push_decimal(&mut m, n_predict as u64);
        push_str(&mut m, ", past the ");
        push_decimal(&mut m, correct as u64);
        push_str(
            &mut m,
            " this build can run              correctly for this model (its sliding-window attention is not implemented, so              beyond the window the local layers would attend too far -- silently)",
        );
        return Some(m);
    }
    if !shift_on {
        if let Some(l) = ctx_size {
            if need > l {
                let mut m = String::from_str("prompt is ");
                push_decimal(&mut m, prompt_len as u64);
                push_str(&mut m, " tokens and -n is ");
                push_decimal(&mut m, n_predict as u64);
                push_str(&mut m, ", which exceeds the -c limit of ");
                push_decimal(&mut m, l as u64);
                push_str(&mut m, ". Drop --no-context-shift to let it make room instead.");
                return Some(m);
            }
        }
    }
    None
}

pub open spec fn sat_sub(a: int, b: int) -> int {
    if a >= b {
        a - b
    } else {
        0
    }
}

/// What the KV cache, the arenas and the fit target leave aside: the
/// target in MiB, the cache for `positions` positions, and the arenas,
/// a dozen `n_embd`-by-block matrices doubled.
pub open spec fn headroom_spec(fit_target_mib: u64, kv_per_position: u64, positions: u64, n_embd: u64, prefill_block: u64) -> int {
    fit_target_mib * 1048576 + kv_per_position * positions + n_embd * prefill_block * 96
}

/// The expert cache: an explicit `--cache` always wins; `--fit` fills what
/// is free beyond the headroom, never below 1 GiB, and 1 GiB when the
/// machine could not say; `--fit off` is a fixed 1 GiB.
pub open spec fn budget_spec(explicit: Option<u64>, fit_on: bool, avail: Option<u64>, headroom: int) -> int {
    match explicit {
        Some(b) => b as int,
        None => if fit_on {
            match avail {
                Some(a) => if sat_sub(a as int, headroom) >= GIB { sat_sub(a as int, headroom) } else { GIB as int },
                None => GIB as int,
            }
        } else {
            GIB as int
        },
    }
}

/// The expert cache budget and the headroom it was sized against.
pub fn cache_budget(
    explicit: Option<u64>,
    fit_on: bool,
    avail: Option<u64>,
    fit_target_mib: u64,
    kv_per_position: u64,
    positions: u64,
    n_embd: u64,
    prefill_block: u64,
) -> (r: (u64, u64))
    requires
        headroom_spec(fit_target_mib, kv_per_position, positions, n_embd, prefill_block) <= u64::MAX,
        kv_per_position * positions <= u64::MAX,
        n_embd * prefill_block * 96 <= u64::MAX,
    ensures
        r.1 == headroom_spec(fit_target_mib, kv_per_position, positions, n_embd, prefill_block),
        r.0 == budget_spec(explicit, fit_on, avail, r.1 as int),
{
    proof {
        assert(0 <= kv_per_position * positions) by (nonlinear_arith);
        assert(0 <= n_embd * prefill_block * 96) by (nonlinear_arith);
        assert(0 <= fit_target_mib * 1048576) by (nonlinear_arith);
    }
    let base: u64 = fit_target_mib * 1048576;
    let kv: u64 = kv_per_position * positions;
    let arena: u64 = n_embd * prefill_block * 96;
    let headroom: u64 = base + kv + arena;
    let budget: u64 = match explicit {
        Some(b) => b,
        None => if fit_on {
            match avail {
                Some(a) => {
                    let left = if a >= headroom { a - headroom } else { 0 };
                    if left >= GIB { left } else { GIB }
                },
                None => GIB,
            }
        } else {
            GIB
        },
    };
    (budget, headroom)
}

/// Positions of context the free memory holds once the expert cache has
/// shrunk to its 1 GiB floor: the cache is elastic, the KV cache is not.
pub fn fit_room(avail: u64, base_headroom: u64, arena: u64, kv_per_position: u64) -> (r: usize)
    requires
        kv_per_position > 0,
    ensures
        r == (sat_sub(sat_sub(sat_sub(avail as int, base_headroom as int), arena as int), GIB as int) / kv_per_position as int) as usize,
{
    let a = avail.saturating_sub(base_headroom);
    let b = a.saturating_sub(arena);
    let c = b.saturating_sub(GIB);
    (c / kv_per_position) as usize
}

/// What `--auto` leaves of the device, the layers on it and the cache: each
/// value the user gave wins; the plan fills the rest, and a plan with no
/// layers on the card does not name the card.
pub fn apply_auto(device: Option<usize>, layers: Option<usize>, cache: Option<u64>, plan: &AutoPlan) -> (r: (Option<usize>, Option<usize>, Option<u64>))
    ensures
        r.0 == (match device {
            Some(d) => Some(d),
            None => if plan.gpu_layers == Some(0usize) { None } else { plan.device },
        }),
        r.1 == (match layers {
            Some(l) => Some(l),
            None => plan.gpu_layers,
        }),
        r.2 == (match cache {
            Some(c) => Some(c),
            None => plan.cache_bytes,
        }),
{
    let d = match device {
        Some(d) => Some(d),
        None => match plan.gpu_layers {
            Some(0) => None,
            _ => plan.device,
        },
    };
    let l = match layers {
        Some(l) => Some(l),
        None => plan.gpu_layers,
    };
    let c = match cache {
        Some(c) => Some(c),
        None => plan.cache_bytes,
    };
    (d, l, c)
}

/// `--auto` moves the prefill block only while it still sits on the
/// default: `-b 2048` and no `-b` cannot be told apart, and a typed value
/// must not be overruled.
pub fn auto_prefill_block(current: usize, plan: &AutoPlan) -> (r: usize)
    ensures
        r == (match plan.prefill_block {
            Some(b) => if current == DEFAULT_PREFILL_BLOCK { b } else { current },
            None => current,
        }),
{
    match plan.prefill_block {
        Some(b) => if current == DEFAULT_PREFILL_BLOCK { b } else { current },
        None => current,
    }
}

/// The DeepSeek-V4-Flash expert cache: off unless asked for, and refused
/// while any of the always-read set still streams, because a resident byte
/// is read every token and a cached expert byte is not.
pub fn deepseek4_expert_budget(asked: Option<u64>, shortfall: u64) -> (r: u64)
    ensures
        r == match asked {
            Some(b) => if b > 0 && shortfall > 0 { 0 } else { b },
            None => 0,
        },
{
    match asked {
        Some(b) => if b > 0 && shortfall > 0 { 0 } else { b },
        None => 0,
    }
}

/// What DeepSeek-V4-Flash keeps back from its resident weights: the
/// compute arena, 512 MiB of expert slices in flight, and 768 MiB for the OS.
pub fn deepseek4_reserve(arena_mib: u64) -> (r: u64)
    requires
        arena_mib * 1048576 + 1342177280 <= u64::MAX,
    ensures
        r == arena_mib * 1048576 + 1342177280,
{
    arena_mib * 1048576 + 536870912 + 805306368
}

/// The layer count an offload means: `-ngl` as given, or, where it was not
/// given but `-ot` rules or `--op-offload` were, every layer (`usize::MAX`),
/// which the rules then carve into.
pub open spec fn offload_layers(gpu_layers: Option<usize>, has_overrides: bool, op_offload: bool) -> Option<usize> {
    match gpu_layers {
        Some(n) => Some(n),
        None => if !has_overrides && !op_offload {
            None
        } else {
            Some(usize::MAX)
        },
    }
}

/// Which device a run asks for, before any device is opened.
#[derive(Clone, Copy, PartialEq, Eq, Structural, Debug)]
pub enum DeviceWant {
    /// `--device` named this one.
    Index(usize),
    /// No device: nothing was asked to go on one, or `-ngl 0` was.
    NoDevice,
    /// `-ngl N` without `--device`: the best offload device, found by probing.
    BestOffload,
}

/// The device a run asks for. `--device` wins; `-ngl 0` opens nothing; any
/// other offload without `--device` asks for the best offload device.
pub fn wanted_device(gpu_device: Option<usize>, gpu_layers: Option<usize>, has_overrides: bool, op_offload: bool) -> (r: DeviceWant)
    ensures
        r == (match (gpu_device, offload_layers(gpu_layers, has_overrides, op_offload)) {
            (Some(i), _) => DeviceWant::Index(i),
            (None, Some(n)) => if n == 0 {
                DeviceWant::NoDevice
            } else {
                DeviceWant::BestOffload
            },
            (None, None) => DeviceWant::NoDevice,
        }),
{
    let layers = match gpu_layers {
        Some(n) => Some(n),
        None => if !has_overrides && !op_offload {
            None
        } else {
            Some(usize::MAX)
        },
    };
    match (gpu_device, layers) {
        (Some(i), _) => DeviceWant::Index(i),
        (None, Some(0)) => DeviceWant::NoDevice,
        (None, Some(_)) => DeviceWant::BestOffload,
        (None, None) => DeviceWant::NoDevice,
    }
}

/// The refusal for `-ngl` with no GPU to put the layers on.
pub open spec fn no_gpu_message() -> Seq<char> {
    "-ngl was given but no GPU was found; --list-devices                             shows what this build can see"@
}

/// Where `name` first stands among `names`, if it does.
pub open spec fn first_named(names: Seq<Seq<char>>, name: Seq<char>, at: Option<usize>) -> bool {
    match at {
        Some(k) => k < names.len() && names[k as int] == name && forall|j: int|
            0 <= j < k ==> names[j] != name,
        None => forall|j: int| 0 <= j < names.len() ==> names[j] != name,
    }
}

/// The device index a run uses, given what it asked for and, for
/// `BestOffload`, what the probe saw: the best offload device's name, if it
/// found one, and the names of all devices, if the list could be read. No
/// GPU for `-ngl` is an error; a device that cannot be placed in the list
/// leaves the run on the host.
pub fn device_index(want: DeviceWant, best: Option<&str>, all: Option<&Vec<String>>) -> (r: Result<Option<usize>, &'static str>)
    ensures
        match want {
            DeviceWant::Index(i) => r == Ok::<Option<usize>, &'static str>(Some(i)),
            DeviceWant::NoDevice => r == Ok::<Option<usize>, &'static str>(None),
            DeviceWant::BestOffload => match best {
                None => r matches Err(m) && m@ == no_gpu_message(),
                Some(b) => r matches Ok(at) && match all {
                    None => at is None,
                    Some(v) => first_named(v@.map_values(|x: String| x@), b@, at),
                },
            },
        },
{
    match want {
        DeviceWant::Index(i) => Ok(Some(i)),
        DeviceWant::NoDevice => Ok(None),
        DeviceWant::BestOffload => match best {
            None => {
                proof {
                    reveal_strlit("-ngl was given but no GPU was found; --list-devices                             shows what this build can see");
                }
                Err("-ngl was given but no GPU was found; --list-devices                             shows what this build can see")
            },
            Some(b) => match all {
                None => Ok(None),
                Some(v) => {
                    let ghost names = v@.map_values(|x: String| x@);
                    let mut k: usize = 0;
                    while k < v.len()
                        invariant
                            k <= v.len(),
                            want == DeviceWant::BestOffload,
                            best == Some(b),
                            all == Some(v),
                            names == v@.map_values(|x: String| x@),
                            forall|j: int| 0 <= j < k ==> names[j] != b@,
                        decreases v.len() - k,
                    {
                        assert(names[k as int] == v@[k as int]@);
                        if str_eq(v[k].as_str(), b) {
                            return Ok(Some(k));
                        }
                        k = k + 1;
                    }
                    Ok(None)
                },
            },
        },
    }
}

/// How a turn of generation is run: the tokens asked for, the stop
/// strings, the reasoning block's handling and budget, and the context
/// shift with its limit.
pub struct GenConfig {
    pub n_predict: usize,
    pub stops: Vec<String>,
    pub strip: bool,
    pub budget: i64,
    pub shift_on: bool,
    pub keep: usize,
    pub limit: usize,
}

/// Where a turn stands: the step, the position the next token takes, the
/// reasoning tracker, the text generated (kept only when there are stop
/// strings), and whether the context has shifted yet.
pub struct GenState {
    pub step: usize,
    pub pos: usize,
    pub think: ThinkTracker,
    pub text: String,
    pub shifted: bool,
}

/// The token just sampled: whether it ends the sequence, and its text.
pub struct GenEvent {
    pub eos: bool,
    pub piece: String,
}

/// What the runner does with the token. It joins the sequence in every case.
pub enum GenAction {
    /// End of sequence: the turn ends, nothing is written.
    Eos,
    /// Still inside `<think>` at the budget: the turn ends unwritten.
    OverBudget,
    /// A stop string appeared: the token is written if `show`, then the turn ends.
    Stop { show: bool },
    /// The tokens asked for are all generated.
    Done { show: bool },
    /// Write the token if `show`; drop `shift`'s `(keep, drop)` from the cache
    /// if present (saying so when `announce`), then compute the next token at
    /// position `at`.
    Next { show: bool, shift: Option<(usize, usize)>, announce: bool, at: usize },
}

/// Whether a tracker in `state` having counted `inside` is past `budget`.
pub open spec fn over_spec(budget: i64, state: ThinkState, inside: int) -> bool {
    budget >= 0 && state == ThinkState::Inside && inside > budget
}

/// Where the next token is computed after a shift of `shift`.
pub open spec fn next_at(pos: usize, shift: Option<(usize, usize)>) -> int {
    match shift {
        Some((_, d)) => pos - d,
        None => pos as int,
    }
}

/// One sampled token taken into a turn.
pub fn generation_step(cfg: &GenConfig, s: GenState, e: GenEvent) -> (r: (GenState, GenAction))
    requires
        s.step < cfg.n_predict,
        s.pos < usize::MAX,
        s.think.state == ThinkState::Inside ==> s.think.inside_tokens < i64::MAX,
        cfg.shift_on && s.pos + 1 >= cfg.limit ==> s.pos >= 1,
    ensures
        e.eos ==> r.1 is Eos && r.0 == s,
        !e.eos ==> ({
            let (st, sn, it, shown) = accept_spec(s.think.state, s.think.seen@, s.think.inside_tokens as int, e.piece@, cfg.strip);
            let text = if cfg.stops@.len() > 0 { s.text@ + e.piece@ } else { s.text@ };
            let stopped = cfg.stops@.len() > 0 && mentions_any(text, cfg.stops@.map_values(|x: String| x@));
            let shift = shift_spec(cfg.shift_on, cfg.keep, s.pos, cfg.limit);
            &&& r.0.think.state == st
            &&& r.0.think.seen@ == sn
            &&& r.0.think.inside_tokens == it
            &&& (over_spec(cfg.budget, st, it) ==> r.1 is OverBudget)
            &&& (!over_spec(cfg.budget, st, it) ==> r.0.text@ == text)
            &&& (!over_spec(cfg.budget, st, it) && stopped ==> (r.1 matches GenAction::Stop { show } && show == shown))
            &&& (!over_spec(cfg.budget, st, it) && !stopped && s.step + 1 >= cfg.n_predict ==> (r.1 matches GenAction::Done { show } && show == shown))
            &&& (!over_spec(cfg.budget, st, it) && !stopped && s.step + 1 < cfg.n_predict ==>
                (r.1 matches GenAction::Next { show, shift: sh, announce, at } && show == shown && sh == shift
                    && announce == (shift is Some && !s.shifted) && at == next_at(s.pos, shift)
                    && r.0.pos == at + 1 && r.0.step == s.step + 1 && r.0.shifted == (s.shifted || shift is Some)))
        }),
{
    if e.eos {
        return (s, GenAction::Eos);
    }
    let mut s = s;
    let shown = s.think.accept(e.piece.as_str(), cfg.strip);
    if s.think.over_budget(cfg.budget) {
        return (s, GenAction::OverBudget);
    }
    if cfg.stops.len() > 0 {
        push_str(&mut s.text, e.piece.as_str());
        if holds_any(s.text.as_str(), &cfg.stops) {
            return (s, GenAction::Stop { show: shown });
        }
    }
    if s.step + 1 >= cfg.n_predict {
        return (s, GenAction::Done { show: shown });
    }
    let shift = context_shift(cfg.shift_on, cfg.keep, s.pos, cfg.limit);
    let announce = shift.is_some() && !s.shifted;
    let at = match shift {
        Some((_, d)) => s.pos - d,
        None => s.pos,
    };
    if shift.is_some() {
        s.shifted = true;
    }
    s.pos = at + 1;
    s.step = s.step + 1;
    (s, GenAction::Next { show: shown, shift, announce, at })
}

} // verus!
