//! The integer bookkeeping of the streaming DeepSeek-V4 forward pass: the raw
//! latent ring and the span one pass must read from it, which resident
//! tensors may be rearranged for the CPU kernels, and the routing histograms.
use vstd::prelude::*;
use crate::text::{
    all_digits, chars_of, ends_with, find_char, lemma_find_char_at, has_prefix, has_suffix, same_chars, starts_with, sub_chars,
};

verus! {

/// Positions the raw latent ring holds, and so the longest span one pass may
/// read. Sound because raw attention is sliding: a position older than the
/// window is never read again.
pub const RAW_RING: i64 = 1024;

/// The inclusive span of absolute positions `(lo, hi)` a pass over `nt`
/// tokens from `pos0` reads: `hi` is the last query, and `lo` is how far the
/// earliest query still reaches, `window - 1` behind `pos0` (never below 0).
/// With no window every position stays visible, so `lo` is 0.
pub open spec fn raw_span_spec(pos0: int, nt: int, window: int) -> (int, int) {
    let hi = pos0 + nt - 1;
    let lo = if window > 0 {
        if pos0 - window + 1 > 0 {
            pos0 - window + 1
        } else {
            0
        }
    } else {
        0
    };
    (lo, hi)
}

/// The span of absolute positions one pass must be able to read.
pub fn raw_span(pos0: i64, nt: i64, window: i64) -> (r: (i64, i64))
    requires
        i64::MIN <= pos0 + nt <= i64::MAX,
        i64::MIN <= pos0 + nt - 1,
        window > 0 ==> i64::MIN <= pos0 - window,
    ensures
        (r.0 as int, r.1 as int) == raw_span_spec(pos0 as int, nt as int, window as int),
{
    let hi = pos0 + nt - 1;
    let lo = if window > 0 {
        let a = pos0 - window + 1;
        if a > 0 {
            a
        } else {
            0
        }
    } else {
        0
    };
    (lo, hi)
}

/// More tokens in one pass than the ring can serve. `limit` is the largest
/// batch that fits, so a longer prompt is chunked rather than refused.
#[derive(Debug, Clone, Copy, PartialEq, Eq, Structural)]
pub struct ContextTooLong {
    pub tokens: usize,
    pub limit: usize,
}

impl ContextTooLong {
    /// The refusal as the runner says it: a limit on one pass, not on the
    /// conversation.
    pub fn message(&self) -> (r: String)
        ensures
            r@ == crate::text::decimal(self.tokens as nat) + " tokens in one pass; this path takes "@
                + crate::text::decimal(self.limit as nat)
                + " at a time. This is a limit on the batch, not on the sequence -- DeepSeek-V4-Flash holds its raw latents in a ring, so the conversation may be far longer than "@
                + crate::text::decimal(self.limit as nat) + ". Prefill in blocks of "@
                + crate::text::decimal(self.limit as nat) + " or fewer (-b)."@,
    {
        let mut out = String::new();
        crate::text::push_decimal(&mut out, self.tokens as u64);
        crate::text::push_str(&mut out, " tokens in one pass; this path takes ");
        crate::text::push_decimal(&mut out, self.limit as u64);
        crate::text::push_str(
            &mut out,
            " at a time. This is a limit on the batch, not on the sequence -- DeepSeek-V4-Flash holds its raw latents in a ring, so the conversation may be far longer than ",
        );
        crate::text::push_decimal(&mut out, self.limit as u64);
        crate::text::push_str(&mut out, ". Prefill in blocks of ");
        crate::text::push_decimal(&mut out, self.limit as u64);
        crate::text::push_str(&mut out, " or fewer (-b).");
        out
    }
}

/// The positions a pass must hold live at once, and the batch limit to
/// report when they do not fit.
pub open spec fn pass_need(pos0: int, n_tokens: int, window: int) -> (int, int) {
    if window > 0 {
        (window + n_tokens - 1, if RAW_RING - window + 1 > 1 {
            RAW_RING - window + 1
        } else {
            1
        })
    } else {
        (pos0 + n_tokens, RAW_RING as int)
    }
}

/// Whether a pass of `n_tokens` tokens starting at `pos0` fits the ring:
/// the check at the top of a forward pass.
pub fn check_pass(pos0: i64, n_tokens: usize, window: i64) -> (r: Result<(), ContextTooLong>)
    requires
        0 <= pos0,
        n_tokens <= i64::MAX,
        pos0 + n_tokens <= i64::MAX,
        0 <= window,
        window + n_tokens <= i64::MAX,
    ensures
        ({
            let (span, limit) = pass_need(pos0 as int, n_tokens as int, window as int);
            match r {
                Ok(()) => span <= RAW_RING,
                Err(e) => span > RAW_RING && e.tokens == n_tokens && e.limit == limit,
            }
        }),
{
    let nt = n_tokens as i64;
    let (span, limit) = if window > 0 {
        let l = RAW_RING - window + 1;
        (window + nt - 1, if l > 1 { l } else { 1 })
    } else {
        (pos0 + nt, RAW_RING)
    };
    if span > RAW_RING {
        Err(ContextTooLong { tokens: n_tokens, limit: limit as usize })
    } else {
        Ok(())
    }
}

/// A pass the ring accepts reads a span no longer than the ring, and no two
/// positions in that span share a ring slot: wraparound never makes one
/// position read another's latents.
pub proof fn lemma_accepted_span_fits_the_ring(pos0: int, n_tokens: int, window: int, p: int, q: int)
    requires
        0 <= pos0,
        1 <= n_tokens,
        window > 0,
        pass_need(pos0, n_tokens, window).0 <= RAW_RING,
        raw_span_spec(pos0, n_tokens, window).0 <= p <= raw_span_spec(pos0, n_tokens, window).1,
        raw_span_spec(pos0, n_tokens, window).0 <= q <= raw_span_spec(pos0, n_tokens, window).1,
        p != q,
    ensures
        raw_span_spec(pos0, n_tokens, window).1 - raw_span_spec(pos0, n_tokens, window).0 < RAW_RING,
        p % (RAW_RING as int) != q % (RAW_RING as int),
{
    let (lo, hi) = raw_span_spec(pos0, n_tokens, window);
    assert(hi - lo < RAW_RING);
    assert(0 <= lo);
    let r = RAW_RING as int;
    if p % r == q % r {
        assert(p == (p / r) * r + p % r) by (nonlinear_arith)
            requires r > 0;
        assert(q == (q / r) * r + q % r) by (nonlinear_arith)
            requires r > 0;
        assert(p - q == (p / r - q / r) * r) by (nonlinear_arith)
            requires p == (p / r) * r + p % r, q == (q / r) * r + q % r, p % r == q % r;
        assert(-r < p - q < r);
        assert(p / r - q / r == 0) by (nonlinear_arith)
            requires p - q == (p / r - q / r) * r, -r < p - q < r, r > 0;
    }
}

/// The tensor suffixes that are safe to rearrange: each is only ever the
/// first operand of a two-dimensional matrix product. Anything read by
/// position (row gathers, byte-offset views, reshapes), and the routed
/// experts that stream from disk, is absent.
pub open spec fn repackable_names() -> Seq<Seq<char>> {
    seq![
        "hc_attn_fn"@, "hc_ffn_fn"@, "attn_q_a"@, "attn_q_b"@, "attn_kv"@, "attn_output_b"@,
        "ffn_gate_inp"@, "ffn_gate_shexp"@, "ffn_up_shexp"@, "ffn_down_shexp"@,
        "attn_compressor_kv"@, "attn_compressor_gate"@, "output_hc_fn"@, "output"@,
    ]
}

/// The suffix a tensor name is matched on: `blk.<digits>.<suffix>.weight`
/// gives `<suffix>`, an un-prefixed `<stem>.weight` gives `<stem>`, and
/// anything else (a bias, a non-numeric block) gives nothing.
pub open spec fn repack_suffix(name: Seq<char>) -> Option<Seq<char>> {
    let w = ".weight"@;
    if !ends_with(name, w) {
        None
    } else {
        let stem = name.take(name.len() - w.len());
        let b = "blk."@;
        if starts_with(stem, b) {
            let rest = stem.skip(b.len() as int);
            match find_char(rest, '.') {
                Some(k) => if k > 0 && all_digits(rest.take(k)) {
                    Some(rest.skip(k + 1))
                } else {
                    None
                },
                None => None,
            }
        } else {
            Some(stem)
        }
    }
}

pub open spec fn repackable_spec(name: Seq<char>) -> bool {
    match repack_suffix(name) {
        Some(s) => repackable_names().contains(s),
        None => false,
    }
}

/// Whether a tensor may be rearranged into the CPU kernels' layout. The
/// suffix is matched whole, so `attn_kv` is allowed and `attn_kv_a_norm` is
/// not.
#[verifier::loop_isolation(false)]
pub fn is_repackable_dense(name: &str) -> (r: bool)
    ensures
        r == repackable_spec(name@),
{
    let cs = chars_of(name);
    if !has_suffix(cs.as_slice(), ".weight") {
        return false;
    }
    let wlen = chars_of(".weight").len();
    let stem = sub_chars(cs.as_slice(), 0, cs.len() - wlen);
    assert(stem@ == name@.take(name@.len() - ".weight"@.len()));
    let suffix: Vec<char>;
    if has_prefix(stem.as_slice(), "blk.") {
        let blen = chars_of("blk.").len();
        let rest = sub_chars(stem.as_slice(), blen, stem.len());
        assert(rest@ == stem@.skip("blk."@.len() as int));
        let mut k: usize = 0;
        while k < rest.len() && rest[k] != '.'
            invariant
                k <= rest.len(),
                forall|j: int| 0 <= j < k ==> rest@[j] != '.',
            decreases rest.len() - k,
        {
            k = k + 1;
        }
        proof {
            lemma_find_char_at(rest@, '.', k as int);
        }
        if k == rest.len() || k == 0 {
            assert(repack_suffix(name@) is None);
            return false;
        }
        let mut d: usize = 0;
        while d < k
            invariant
                k < rest.len(),
                d <= k,
                forall|j: int| 0 <= j < d ==> crate::text::is_digit(rest@[j]),
            decreases k - d,
        {
            if !('0' <= rest[d] && rest[d] <= '9') {
                assert(!crate::text::is_digit(rest@.take(k as int)[d as int]));
                assert(!all_digits(rest@.take(k as int)));
                assert(find_char(rest@, '.') == Some(k as int));
                assert(repack_suffix(name@) is None);
                return false;
            }
            d = d + 1;
        }
        assert(all_digits(rest@.take(k as int)));
        suffix = sub_chars(rest.as_slice(), k + 1, rest.len());
        assert(suffix@ == rest@.skip(k + 1));
        assert(repack_suffix(name@) == Some(suffix@));
    } else {
        suffix = stem;
        assert(repack_suffix(name@) == Some(suffix@));
    }
    let allowed = vec![
        "hc_attn_fn", "hc_ffn_fn", "attn_q_a", "attn_q_b", "attn_kv", "attn_output_b",
        "ffn_gate_inp", "ffn_gate_shexp", "ffn_up_shexp", "ffn_down_shexp", "attn_compressor_kv",
        "attn_compressor_gate", "output_hc_fn", "output",
    ];
    let ghost names = allowed@.map_values(|n: &str| n@);
    assert(names =~= repackable_names());
    let mut i: usize = 0;
    while i < allowed.len()
        invariant
            i <= allowed.len(),
            names == allowed@.map_values(|n: &str| n@),
            names == repackable_names(),
            repack_suffix(name@) == Some(suffix@),
            forall|j: int| 0 <= j < i ==> names[j] != suffix@,
        decreases allowed.len() - i,
    {
        let a = chars_of(allowed[i]);
        if same_chars(a.as_slice(), suffix.as_slice()) {
            assert(names[i as int] == suffix@);
            assert(repackable_names().contains(suffix@));
            return true;
        }
        i = i + 1;
    }
    false
}

/// How many of the selections in `ids` name expert `e`.
pub open spec fn selections(ids: Seq<i32>, e: int) -> nat
    decreases ids.len(),
{
    if ids.len() == 0 {
        0
    } else {
        selections(ids.drop_last(), e) + (if ids.last() as int == e { 1nat } else { 0nat })
    }
}

/// A layer row of zero counts.
pub open spec fn zeros(n: nat) -> Seq<u32> {
    Seq::new(n, |i: int| 0u32)
}

/// The newest pass after recording layer `il`'s selections into it: rows up
/// to `il` exist (a new row is `n_expert` zeros), and each in-range expert of
/// row `il` gains its selections. Ids outside the row are ignored.
pub open spec fn recorded(pass: Seq<Seq<u32>>, il: nat, n_expert: nat, ids: Seq<i32>) -> Seq<
    Seq<u32>,
> {
    let grown = Seq::new(
        if pass.len() > il { pass.len() } else { il + 1 },
        |l: int| if l < pass.len() { pass[l] } else { zeros(n_expert) },
    );
    grown.update(
        il as int,
        Seq::new(grown[il as int].len(), |e: int| (grown[il as int][e] + selections(ids, e)) as u32),
    )
}

/// The row `il` of the newest pass before counting: existing, or new zeros.
pub open spec fn base_row(pass: Seq<Seq<u32>>, il: nat, n_expert: nat) -> Seq<u32> {
    if il < pass.len() {
        pass[il as int]
    } else {
        zeros(n_expert)
    }
}

pub open spec fn counts_fit(row: Seq<u32>, ids: Seq<i32>) -> bool {
    forall|e: int| 0 <= e < row.len() ==> row[e] + selections(ids, e) <= u32::MAX
}

pub open spec fn log_view(log: Seq<Vec<Vec<u32>>>) -> Seq<Seq<Seq<u32>>> {
    log.map_values(|p: Vec<Vec<u32>>| p@.map_values(|r: Vec<u32>| r@))
}

/// Count one layer's expert selections into the newest pass.
///
/// Passes are kept apart because generation re-runs the sequence: the
/// difference between two passes is then exactly the token generated in
/// between.
pub fn record_into(log: &mut Vec<Vec<Vec<u32>>>, il: u32, n_expert: usize, ids: &[i32])
    requires
        old(log)@.len() > 0,
        counts_fit(
            base_row(log_view(old(log)@).last(), il as nat, n_expert as nat),
            ids@,
        ),
    ensures
        log_view(final(log)@) == log_view(old(log)@).update(
            old(log)@.len() - 1,
            recorded(log_view(old(log)@).last(), il as nat, n_expert as nat, ids@),
        ),
{
    let ghost lv = log_view(log@);
    let mut pass = log.pop().unwrap();
    let ghost p0 = pass@.map_values(|r: Vec<u32>| r@);
    assert(p0 == lv.last());
    let ilu = il as usize;
    while pass.len() <= ilu
        invariant
            p0.len() <= pass@.len() <= if p0.len() > il { p0.len() as int } else { il + 1 },
            forall|l: int| 0 <= l < pass@.len() ==> #[trigger] pass@[l]@ == (if l < p0.len() {
                p0[l]
            } else {
                zeros(n_expert as nat)
            }),
            ilu == il,
        decreases ilu + 1 - pass.len(),
    {
        let z: Vec<u32> = vec![0u32; n_expert];
        assert(z@ =~= zeros(n_expert as nat));
        pass.push(z);
    }
    let mut row: Vec<u32> = Vec::new();
    std::mem::swap(&mut row, &mut pass[ilu]);
    let ghost r0 = row@;
    assert(r0 == base_row(lv.last(), il as nat, n_expert as nat));
    let ghost pv = pass@;
    let mut k: usize = 0;
    while k < ids.len()
        invariant
            pass@ == pv,
            k <= ids.len(),
            row@.len() == r0.len(),
            counts_fit(r0, ids@),
            forall|e: int| 0 <= e < r0.len() ==> #[trigger] row@[e] == r0[e] + selections(
                ids@.take(k as int),
                e,
            ),
        decreases ids.len() - k,
    {
        let id = ids[k];
        proof {
            assert(ids@.take(k + 1).drop_last() == ids@.take(k as int));
            assert forall|e: int| 0 <= e < r0.len() implies selections(ids@.take(k + 1), e)
                <= selections(ids@, e) by {
                lemma_selections_prefix(ids@, k + 1, e);
            }
        }
        if id >= 0 && (id as usize) < row.len() {
            let e = id as usize;
            row[e] = row[e] + 1;
        }
        k = k + 1;
    }
    assert(ids@.take(ids.len() as int) == ids@);
    let ghost counted = row@;
    std::mem::swap(&mut row, &mut pass[ilu]);
    log.push(pass);
    proof {
        let want = recorded(lv.last(), il as nat, n_expert as nat, ids@);
        let got = log_view(log@).last();
        assert(got.len() == want.len());
        assert forall|l: int| 0 <= l < want.len() implies got[l] =~= want[l] by {
            if l == il {
                assert(got[l] == counted);
            } else {
                assert(got[l] == pv[l]@);
            }
        }
        assert(got =~= want);
        assert(log_view(log@) =~= lv.update(lv.len() - 1, want));
    }
}

/// Selections counted in two calls add up to the selections of both at once.
proof fn lemma_selections_concat(a: Seq<i32>, b: Seq<i32>, e: int)
    ensures
        selections(a + b, e) == selections(a, e) + selections(b, e),
    decreases b.len(),
{
    if b.len() == 0 {
        assert(a + b =~= a);
    } else {
        lemma_selections_concat(a, b.drop_last(), e);
        assert((a + b).drop_last() =~= a + b.drop_last());
    }
}

/// Recording a prompt and then a generated token into one pass counts the
/// same as recording both at once; so when every pass re-counts the prompt,
/// the difference between two passes is exactly what was generated between
/// them.
pub proof fn lemma_recording_adds_up(
    pass: Seq<Seq<u32>>,
    il: nat,
    n_expert: nat,
    a: Seq<i32>,
    b: Seq<i32>,
)
    requires
        counts_fit(base_row(pass, il, n_expert), a + b),
    ensures
        recorded(recorded(pass, il, n_expert, a), il, n_expert, b) == recorded(
            pass,
            il,
            n_expert,
            a + b,
        ),
{
    let once = recorded(pass, il, n_expert, a);
    let twice = recorded(once, il, n_expert, b);
    let both = recorded(pass, il, n_expert, a + b);
    let row = base_row(pass, il, n_expert);
    assert forall|e: int| 0 <= e < row.len() implies row[e] + selections(a, e) <= u32::MAX by {
        lemma_selections_concat(a, b, e);
    }
    assert(twice.len() == both.len());
    assert forall|l: int| 0 <= l < both.len() implies twice[l] =~= both[l] by {
        if l == il {
            assert forall|e: int| 0 <= e < both[l].len() implies twice[l][e] == both[l][e] by {
                lemma_selections_concat(a, b, e);
            }
        }
    }
    assert(twice =~= both);
}

proof fn lemma_selections_prefix(ids: Seq<i32>, k: int, e: int)
    requires
        0 <= k <= ids.len(),
    ensures
        selections(ids.take(k), e) <= selections(ids, e),
    decreases ids.len() - k,
{
    if k < ids.len() {
        lemma_selections_prefix(ids, k + 1, e);
        assert(ids.take(k + 1).drop_last() == ids.take(k));
    } else {
        assert(ids.take(k) == ids);
    }
}

pub type PassView = Seq<Seq<u32>>;

/// The first pass, in order, that has a row for layer `il`.
pub open spec fn first_with(log: Seq<PassView>, il: nat) -> Option<int>
    decreases log.len(),
{
    if log.len() == 0 {
        None
    } else {
        match first_with(log.drop_last(), il) {
            Some(p) => Some(p),
            None => if il < log.last().len() {
                Some(log.len() - 1)
            } else {
                None
            },
        }
    }
}

/// How many layers any pass has a row for.
pub open spec fn layer_count(log: Seq<PassView>) -> nat
    decreases log.len(),
{
    if log.len() == 0 {
        0
    } else {
        let prev = layer_count(log.drop_last());
        if log.last().len() > prev {
            log.last().len()
        } else {
            prev
        }
    }
}

/// Expert `e` of layer `il`, summed over every pass that counted it.
pub open spec fn pooled(log: Seq<PassView>, il: nat, e: int) -> nat
    decreases log.len(),
{
    if log.len() == 0 {
        0
    } else {
        pooled(log.drop_last(), il, e) + (if il < log.last().len() && 0 <= e < log.last()[il as int].len() {
            log.last()[il as int][e] as nat
        } else {
            0
        })
    }
}

/// The pooled row for a layer is as long as the first row seen for it.
pub open spec fn pooled_row_len(log: Seq<PassView>, il: nat) -> nat {
    match first_with(log, il) {
        Some(p) => log[p][il as int].len(),
        None => 0,
    }
}

/// No pass holds a row longer than the first row seen for its layer (the
/// pooled row is sized from that one), and no pooled count exceeds `u32`.
pub open spec fn poolable(log: Seq<PassView>) -> bool {
    &&& forall|p: int, il: int|
        0 <= p < log.len() && 0 <= il < log[p].len() ==> #[trigger] log[p][il].len()
            <= pooled_row_len(log.take(p + 1), il as nat)
    &&& forall|il: nat, e: int| #[trigger] pooled(log, il, e) <= u32::MAX
}

proof fn lemma_first_with_some(log: Seq<PassView>, il: nat)
    ensures
        (first_with(log, il) is Some) == (il < layer_count(log)),
        first_with(log, il) matches Some(p) ==> 0 <= p < log.len() && il < log[p].len(),
    decreases log.len(),
{
    if log.len() > 0 {
        lemma_first_with_some(log.drop_last(), il);
    }
}

proof fn lemma_first_with_push(log: Seq<PassView>, x: PassView, il: nat)
    ensures
        first_with(log, il) is Some ==> first_with(log.push(x), il) == first_with(log, il)
            && pooled_row_len(log.push(x), il) == pooled_row_len(log, il),
        first_with(log, il) is None && il < x.len() ==> first_with(log.push(x), il) == Some(
            log.len() as int,
        ) && pooled_row_len(log.push(x), il) == x[il as int].len(),
        first_with(log, il) is None && il >= x.len() ==> first_with(log.push(x), il) is None,
{
    assert(log.push(x).drop_last() == log);
    lemma_first_with_some(log, il);
}

proof fn lemma_pooled_absent(log: Seq<PassView>, il: nat, e: int)
    requires
        first_with(log, il) is None,
    ensures
        pooled(log, il, e) == 0,
    decreases log.len(),
{
    if log.len() > 0 {
        lemma_pooled_absent(log.drop_last(), il, e);
    }
}

proof fn lemma_pooled_prefix(log: Seq<PassView>, k: int, il: nat, e: int)
    requires
        0 <= k <= log.len(),
    ensures
        pooled(log.take(k), il, e) <= pooled(log, il, e),
    decreases log.len() - k,
{
    if k < log.len() {
        lemma_pooled_prefix(log, k + 1, il, e);
        assert(log.take(k + 1).drop_last() == log.take(k));
    } else {
        assert(log.take(k) == log);
    }
}

/// Every pass summed into one `[layer][expert]` histogram.
pub fn pool_passes(log: &Vec<Vec<Vec<u32>>>) -> (out: Vec<Vec<u32>>)
    requires
        poolable(log_view(log@)),
    ensures
        out@.len() == layer_count(log_view(log@)),
        forall|il: int|
            0 <= il < out@.len() ==> #[trigger] out@[il]@.len() == pooled_row_len(
                log_view(log@),
                il as nat,
            ),
        forall|il: int, e: int|
            0 <= il < out@.len() && 0 <= e < out@[il]@.len() ==> #[trigger] out@[il]@[e]
                == pooled(log_view(log@), il as nat, e),
{
    let ghost lv = log_view(log@);
    let mut out: Vec<Vec<u32>> = Vec::new();
    let mut p: usize = 0;
    while p < log.len()
        invariant
            p <= log.len(),
            lv == log_view(log@),
            poolable(lv),
            out@.len() == layer_count(lv.take(p as int)),
            forall|il: int|
                0 <= il < out@.len() ==> #[trigger] out@[il]@.len() == pooled_row_len(
                    lv.take(p as int),
                    il as nat,
                ),
            forall|il: int, e: int|
                0 <= il < out@.len() && 0 <= e < out@[il]@.len() ==> #[trigger] out@[il]@[e]
                    == pooled(lv.take(p as int), il as nat, e),
        decreases log.len() - p,
    {
        proof {
            assert(lv.take(p + 1).drop_last() == lv.take(p as int));
        }
        let pass = &log[p];
        proof {
            assert(lv.take(p as int).push(lv[p as int]) == lv.take(p + 1));
            assert forall|l: int| 0 <= l < out@.len() implies #[trigger] pooled_row_len(
                lv.take(p + 1),
                l as nat,
            ) == pooled_row_len(lv.take(p as int), l as nat) by {
                lemma_first_with_some(lv.take(p as int), l as nat);
                lemma_first_with_push(lv.take(p as int), lv[p as int], l as nat);
            }
        }
        let mut il: usize = 0;
        while il < pass.len()
            invariant
                p < log.len(),
                pass == &log@[p as int],
                il <= pass.len(),
                lv == log_view(log@),
                poolable(lv),
                out@.len() == if layer_count(lv.take(p as int)) > il {
                    layer_count(lv.take(p as int))
                } else {
                    il as nat
                },
                forall|l: int|
                    0 <= l < out@.len() ==> #[trigger] out@[l]@.len() == pooled_row_len(
                        lv.take(p + 1),
                        l as nat,
                    ),
                forall|l: int, e: int|
                    0 <= l < out@.len() && 0 <= e < out@[l]@.len() ==> #[trigger] out@[l]@[e]
                        == if l < il {
                        pooled(lv.take(p + 1), l as nat, e)
                    } else {
                        pooled(lv.take(p as int), l as nat, e)
                    },
            decreases pass.len() - il,
        {
            let row = &pass[il];
            proof {
                assert(lv[p as int] == pass@.map_values(|r: Vec<u32>| r@));
                assert(lv.take(p + 1)[p as int] == lv[p as int]);
                lemma_first_with_some(lv.take(p as int), il as nat);
                lemma_first_with_push(lv.take(p as int), lv[p as int], il as nat);
                assert(lv.take(p as int).push(lv[p as int]) == lv.take(p + 1));
                assert(row@ == lv[p as int][il as int]);
                assert(row@.len() <= pooled_row_len(lv.take(p + 1), il as nat));
            }
            if out.len() <= il {
                let z: Vec<u32> = vec![0u32; row.len()];
                out.push(z);
                proof {
                    assert(first_with(lv.take(p + 1), il as nat) == Some(p as int));
                    assert forall|e: int| 0 <= e < row@.len() implies pooled(
                        lv.take(p as int),
                        il as nat,
                        e,
                    ) == 0 by {
                        lemma_pooled_absent(lv.take(p as int), il as nat, e);
                    }
                }
            }
            let ghost before = out@;
            let mut cur: Vec<u32> = Vec::new();
            std::mem::swap(&mut cur, &mut out[il]);
            let ghost c0 = cur@;
            proof {
                assert(c0 == before[il as int]@);
                assert forall|k: int| 0 <= k < row@.len() implies c0[k] + row@[k] <= u32::MAX by {
                    assert(lv.take(p + 1).last() == lv[p as int]);
                    assert(lv.take(p + 1).drop_last() == lv.take(p as int));
                    assert(c0[k] == pooled(lv.take(p as int), il as nat, k));
                    assert(pooled(lv.take(p + 1), il as nat, k) == c0[k] + row@[k]);
                    lemma_pooled_prefix(lv, p + 1, il as nat, k);
                }
            }
            let mut e: usize = 0;
            while e < row.len()
                invariant
                    e <= row.len(),
                    row.len() <= cur.len(),
                    cur@.len() == c0.len(),
                    forall|k: int|
                        0 <= k < cur@.len() ==> #[trigger] cur@[k] == if k < e {
                            c0[k] + row@[k]
                        } else {
                            c0[k] as int
                        },
                    forall|k: int| 0 <= k < row@.len() ==> c0[k] + row@[k] <= u32::MAX,
                decreases row.len() - e,
            {
                cur[e] = cur[e] + row[e];
                e = e + 1;
            }
            let ghost filled = cur@;
            std::mem::swap(&mut cur, &mut out[il]);
            proof {
                assert(out@.len() == before.len());
                assert(out@[il as int]@ == filled);
                assert(forall|l: int| 0 <= l < out@.len() && l != il ==> out@[l] == before[l]);
                assert forall|l: int, k: int|
                    0 <= l < out@.len() && 0 <= k < out@[l]@.len() implies #[trigger] out@[l]@[k]
                        == if l < il + 1 {
                        pooled(lv.take(p + 1), l as nat, k)
                    } else {
                        pooled(lv.take(p as int), l as nat, k)
                    } by {
                    if l == il {
                        assert(lv.take(p + 1).last() == lv[p as int]);
                        assert(lv.take(p + 1).drop_last() == lv.take(p as int));
                        assert(out@[l]@[k] == filled[k]);
                        assert(c0[k] == pooled(lv.take(p as int), il as nat, k));
                    } else {
                        assert(out@[l] == before[l]);
                    }
                }
            }
            il = il + 1;
        }
        p = p + 1;
    }
    assert(lv.take(log.len() as int) == lv);
    out
}

/// The selections of the last token of a batch, per layer.
pub open spec fn rows_view(rows: Seq<Vec<i32>>) -> Seq<Seq<i32>> {
    rows.map_values(|r: Vec<i32>| r@)
}

/// The per-layer record after the last token's selections for layer `il`
/// were kept. `ids` holds `n_used` selections per token, token-major, so the
/// last token's are its final `n_used` entries; with fewer than that nothing
/// changes. Missing layers before `il` are held as empty rows.
pub open spec fn last_recorded(rows: Seq<Seq<i32>>, il: nat, n_used: nat, ids: Seq<i32>) -> Seq<
    Seq<i32>,
> {
    if ids.len() < n_used {
        rows
    } else {
        let grown = Seq::new(
            if rows.len() > il { rows.len() } else { il + 1 },
            |l: int| if l < rows.len() { rows[l] } else { Seq::<i32>::empty() },
        );
        grown.update(il as int, ids.subrange(ids.len() - n_used, ids.len() as int))
    }
}

/// Keep the experts that the last token of a batch selected for layer `il`.
///
/// Only the final token is kept: it is the one token that a cached step and
/// a full prefill both end on, so it is the fair thing to compare.
pub fn record_last_token(rows: &mut Vec<Vec<i32>>, il: u32, n_used: usize, ids: &[i32])
    requires
        il < usize::MAX,
    ensures
        rows_view(final(rows)@) == last_recorded(
            rows_view(old(rows)@),
            il as nat,
            n_used as nat,
            ids@,
        ),
{
    if ids.len() < n_used {
        return;
    }
    let tail = ids.len() - n_used;
    let ghost r0 = rows_view(rows@);
    let ilu = il as usize;
    while rows.len() <= ilu
        invariant
            r0.len() <= rows@.len() <= if r0.len() > il { r0.len() as int } else { il + 1 },
            forall|l: int| 0 <= l < rows@.len() ==> #[trigger] rows@[l]@ == (if l < r0.len() {
                r0[l]
            } else {
                Seq::<i32>::empty()
            }),
            ilu == il,
            ilu < usize::MAX,
        decreases ilu + 1 - rows.len(),
    {
        rows.push(Vec::new());
    }
    let mut kept: Vec<i32> = Vec::new();
    let mut k: usize = tail;
    while k < ids.len()
        invariant
            tail <= k <= ids.len(),
            kept@ == ids@.subrange(tail as int, k as int),
        decreases ids.len() - k,
    {
        kept.push(ids[k]);
        k = k + 1;
    }
    let ghost before = rows@;
    rows.set(ilu, kept);
    proof {
        let want = last_recorded(r0, il as nat, n_used as nat, ids@);
        assert(rows_view(rows@).len() == want.len());
        assert forall|l: int| 0 <= l < want.len() implies rows_view(rows@)[l] == want[l] by {
            if l != il {
                assert(rows@[l] == before[l]);
            }
        }
        assert(rows_view(rows@) =~= want);
    }
}

/// The record after each call `(il, n_used, ids)` of `calls` in turn,
/// starting from a reset.
pub open spec fn recorded_all(calls: Seq<(nat, nat, Seq<i32>)>) -> Seq<Seq<i32>>
    decreases calls.len(),
{
    if calls.len() == 0 {
        Seq::empty()
    } else {
        let (il, n, ids) = calls.last();
        last_recorded(recorded_all(calls.drop_last()), il, n, ids)
    }
}

/// How many layers the record spans: one past the highest layer of a call
/// that had a whole token to keep.
pub open spec fn record_span(calls: Seq<(nat, nat, Seq<i32>)>) -> nat
    decreases calls.len(),
{
    if calls.len() == 0 {
        0
    } else {
        let (il, n, ids) = calls.last();
        let before = record_span(calls.drop_last());
        if ids.len() >= n && il + 1 > before {
            il + 1
        } else {
            before
        }
    }
}

/// What the record holds for layer `l`: the last token's selections from
/// the latest call for `l` that had a whole token, or nothing.
pub open spec fn latest_for(calls: Seq<(nat, nat, Seq<i32>)>, l: nat) -> Seq<i32>
    decreases calls.len(),
{
    if calls.len() == 0 {
        Seq::empty()
    } else {
        let (il, n, ids) = calls.last();
        if ids.len() >= n && il == l {
            ids.subrange(ids.len() - n, ids.len() as int)
        } else {
            latest_for(calls.drop_last(), l)
        }
    }
}

proof fn lemma_latest_beyond_span(calls: Seq<(nat, nat, Seq<i32>)>, l: nat)
    requires
        l >= record_span(calls),
    ensures
        latest_for(calls, l) == Seq::<i32>::empty(),
    decreases calls.len(),
{
    if calls.len() > 0 {
        lemma_latest_beyond_span(calls.drop_last(), l);
    }
}

/// After a reset and any run of `record_last_token` calls, the record spans
/// one past the highest layer that had a whole token to keep, and holds for
/// each layer the last token's selections from its latest such call (an
/// empty row for a layer no call reached).
pub proof fn lemma_last_token_record(calls: Seq<(nat, nat, Seq<i32>)>)
    ensures
        recorded_all(calls).len() == record_span(calls),
        forall|l: int| 0 <= l < record_span(calls) ==> #[trigger] recorded_all(calls)[l] == latest_for(calls, l as nat),
    decreases calls.len(),
{
    if calls.len() > 0 {
        let prev = calls.drop_last();
        lemma_last_token_record(prev);
        let (il, n, ids) = calls.last();
        assert forall|l: int| 0 <= l < record_span(calls) implies #[trigger] recorded_all(calls)[l] == latest_for(calls, l as nat) by {
            if ids.len() >= n && l != il && l >= record_span(prev) {
                lemma_latest_beyond_span(prev, l as nat);
            }
        }
    }
}

/// Per-layer expert ids chosen by the last token of the most recent pass.
pub fn routing_last_token(rows: &Vec<Vec<i32>>) -> (r: Vec<Vec<i32>>)
    ensures
        rows_view(r@) == rows_view(rows@),
{
    let mut out: Vec<Vec<i32>> = Vec::new();
    let mut l: usize = 0;
    while l < rows.len()
        invariant
            l <= rows.len(),
            rows_view(out@) == rows_view(rows@).take(l as int),
        decreases rows.len() - l,
    {
        let row = &rows[l];
        let mut copy: Vec<i32> = Vec::new();
        let mut k: usize = 0;
        while k < row.len()
            invariant
                k <= row.len(),
                copy@ == row@.take(k as int),
            decreases row.len() - k,
        {
            copy.push(row[k]);
            k = k + 1;
        }
        proof {
            assert(copy@ == row@);
            assert(rows_view(out@.push(copy)) =~= rows_view(out@).push(copy@));
            assert(rows_view(rows@).take(l + 1) =~= rows_view(rows@).take(l as int).push(row@));
        }
        out.push(copy);
        l = l + 1;
    }
    assert(rows_view(rows@).take(rows.len() as int) =~= rows_view(rows@));
    out
}

/// Forget the recorded selections, so two passes can be compared cleanly.
pub fn routing_last_token_reset(rows: &mut Vec<Vec<i32>>)
    ensures
        final(rows)@.len() == 0,
{
    rows.clear();
}

/// A stacked expert tensor: its whole size in bytes, and how many experts
/// its last dimension stacks.
#[derive(Clone, Copy, PartialEq, Eq, Debug, Structural)]
pub struct Stacked {
    pub size: u64,
    pub n_expert: u64,
}

/// One expert's slice of one stacked tensor: where it lies in the file
/// (relative to the tensor), where it goes in that tensor's packed buffer,
/// and which reader fetches it.
#[derive(Clone, Copy, PartialEq, Eq, Debug, Structural)]
pub struct ReadJob {
    pub len: u64,
    pub offset: u64,
    pub dst: u64,
    pub reader: usize,
}

/// The bytes of one expert's slice of `t`.
pub open spec fn slice_of(t: Stacked) -> int {
    t.size as int / t.n_expert as int
}

/// The job that fetches the slice of expert `unique[p]` from tensor `n`,
/// the `n * unique.len() + p`-th job handed out, round-robin over `readers`.
pub open spec fn job_spec(ts: Seq<Stacked>, unique: Seq<i32>, readers: int, n: int, p: int) -> ReadJob {
    let slice = slice_of(ts[n]);
    ReadJob {
        len: slice as u64,
        offset: (unique[p] * slice) as u64,
        dst: (p * slice) as u64,
        reader: ((n * unique.len() + p) % readers) as usize,
    }
}

/// What the plan may compute without overflow: every count is positive, and
/// every offset and buffer fits.
pub open spec fn plannable(ts: Seq<Stacked>, unique: Seq<i32>, readers: int) -> bool {
    &&& readers > 0
    &&& ts.len() * unique.len() <= usize::MAX
    &&& forall|n: int| 0 <= n < ts.len() ==> (#[trigger] ts[n]).n_expert > 0
    &&& forall|n: int| 0 <= n < ts.len() ==> unique.len() * slice_of(#[trigger] ts[n]) <= u64::MAX
    &&& forall|p: int| 0 <= p < unique.len() ==> #[trigger] unique[p] >= 0
    &&& forall|n: int, p: int|
        0 <= n < ts.len() && 0 <= p < unique.len() ==> #[trigger] unique[p] * slice_of(#[trigger] ts[n])
            <= u64::MAX
}

/// How the selected experts of one layer are read: one job per slice per
/// tensor, so every reader gets an equal share of the bytes rather than of
/// the tensors; each tensor's slices packed into its own buffer in the order
/// of `unique`.
pub fn expert_read_plan(ts: &Vec<Stacked>, unique: &[i32], readers: usize) -> (r: (Vec<u64>, Vec<Vec<ReadJob>>))
    requires
        plannable(ts@, unique@, readers as int),
    ensures
        r.0@.len() == ts@.len(),
        forall|n: int| 0 <= n < ts@.len() ==> #[trigger] r.0@[n] == unique@.len() * slice_of(ts@[n]),
        r.1@.len() == ts@.len(),
        forall|n: int| 0 <= n < ts@.len() ==> (#[trigger] r.1@[n])@.len() == unique@.len(),
        forall|n: int, p: int|
            0 <= n < ts@.len() && 0 <= p < unique@.len() ==> #[trigger] r.1@[n]@[p] == job_spec(
                ts@,
                unique@,
                readers as int,
                n,
                p,
            ),
{
    let u = unique.len();
    let mut buffers: Vec<u64> = Vec::new();
    let mut jobs: Vec<Vec<ReadJob>> = Vec::new();
    let mut j: usize = 0;
    let mut n: usize = 0;
    while n < ts.len()
        invariant
            plannable(ts@, unique@, readers as int),
            u == unique@.len(),
            n <= ts@.len(),
            j == n * u,
            buffers@.len() == n,
            jobs@.len() == n,
            forall|m: int| 0 <= m < n ==> #[trigger] buffers@[m] == u * slice_of(ts@[m]),
            forall|m: int| 0 <= m < n ==> (#[trigger] jobs@[m])@.len() == u,
            forall|m: int, p: int|
                0 <= m < n && 0 <= p < u ==> #[trigger] jobs@[m]@[p] == job_spec(
                    ts@,
                    unique@,
                    readers as int,
                    m,
                    p,
                ),
        decreases ts.len() - n,
    {
        let t = ts[n];
        assert(t.n_expert > 0);
        let slice = t.size / t.n_expert;
        assert(u * slice_of(ts@[n as int]) <= u64::MAX);
        let bytes = (u as u64) * slice;
        let mut row: Vec<ReadJob> = Vec::new();
        let mut p: usize = 0;
        proof {
            assert(n * u + u <= ts@.len() * u) by (nonlinear_arith)
                requires
                    n < ts@.len(),
            ;
            assert(ts@.len() * u == ts@.len() * unique@.len());
        }
        while p < u
            invariant
                plannable(ts@, unique@, readers as int),
                u == unique@.len(),
                n < ts@.len(),
                t == ts@[n as int],
                slice == slice_of(t),
                p <= u,
                j == n * u + p,
                n * u + u <= usize::MAX,
                row@.len() == p,
                forall|q: int| 0 <= q < p ==> #[trigger] row@[q] == job_spec(
                    ts@,
                    unique@,
                    readers as int,
                    n as int,
                    q,
                ),
            decreases u - p,
        {
            let e = unique[p];
            assert(e >= 0);
            assert(unique@[p as int] * slice_of(ts@[n as int]) <= u64::MAX);
            proof {
                assert(p * slice <= u * slice) by (nonlinear_arith)
                    requires
                        p <= u,
                ;
            }
            let job = ReadJob {
                len: slice,
                offset: (e as u64) * slice,
                dst: (p as u64) * slice,
                reader: j % readers,
            };
            row.push(job);
            p = p + 1;
            j = j + 1;
        }
        buffers.push(bytes);
        jobs.push(row);
        n = n + 1;
        proof {
            assert(j == n * u) by (nonlinear_arith)
                requires
                    j == (n - 1) * u + u,
            ;
        }
    }
    (buffers, jobs)
}

/// The tensors every block of this architecture carries, by suffix.
pub open spec fn block_suffixes() -> Seq<Seq<char>> {
    seq![
        "hc_attn_fn"@,
        "hc_attn_scale"@,
        "hc_attn_base"@,
        "hc_ffn_fn"@,
        "hc_ffn_scale"@,
        "hc_ffn_base"@,
        "attn_norm"@,
        "attn_q_a"@,
        "attn_q_a_norm"@,
        "attn_q_b"@,
        "attn_kv"@,
        "attn_kv_a_norm"@,
        "attn_sinks"@,
        "attn_output_a"@,
        "attn_output_b"@,
        "ffn_norm"@,
        "ffn_gate_inp"@,
        "ffn_gate_shexp"@,
        "ffn_up_shexp"@,
        "ffn_down_shexp"@,
    ]
}

/// The tensors only some blocks carry: the two routing schemes exclude each
/// other, and the two raw layers have no compressor.
pub open spec fn optional_suffixes() -> Seq<Seq<char>> {
    seq![
        "ffn_gate_tid2eid.weight"@,
        "exp_probs_b.bias"@,
        "attn_compressor_kv.weight"@,
        "attn_compressor_gate.weight"@,
        "attn_compressor_ape.weight"@,
        "attn_compressor_norm.weight"@,
    ]
}

/// `xs` with the ones `keep` rejects left out.
pub open spec fn kept(xs: Seq<Seq<char>>, keep: spec_fn(Seq<char>) -> bool) -> Seq<Seq<char>>
    decreases xs.len(),
{
    if xs.len() == 0 {
        Seq::empty()
    } else if keep(xs.last()) {
        kept(xs.drop_last(), keep).push(xs.last())
    } else {
        kept(xs.drop_last(), keep)
    }
}

/// The tensor names block `il` needs: every block tensor, then each optional
/// one the container holds.
pub open spec fn block_names_spec(il: nat, container: Seq<Seq<char>>) -> Seq<Seq<char>> {
    block_suffixes().map_values(|s: Seq<char>| crate::qwen3::blk(il, s + ".weight"@)) + kept(
        optional_suffixes().map_values(|s: Seq<char>| crate::qwen3::blk(il, s)),
        |n: Seq<char>| container.contains(n),
    )
}

fn block_name(il: u32, suffix: &str, tail: &str) -> (r: String)
    ensures
        r@ == crate::qwen3::blk(il as nat, suffix@ + tail@),
{
    let mut s = String::new();
    crate::text::push_str(&mut s, "blk.");
    crate::text::push_decimal(&mut s, il as u64);
    crate::text::push_str(&mut s, ".");
    crate::text::push_str(&mut s, suffix);
    crate::text::push_str(&mut s, tail);
    assert(s@ =~= crate::qwen3::blk(il as nat, suffix@ + tail@));
    s
}

fn listed(container: &Vec<String>, name: &str) -> (r: bool)
    ensures
        r == container@.map_values(|n: String| n@).contains(name@),
{
    let ghost v = container@.map_values(|n: String| n@);
    let mut i: usize = 0;
    while i < container.len()
        invariant
            i <= container.len(),
            v == container@.map_values(|n: String| n@),
            forall|j: int| 0 <= j < i ==> v[j] != name@,
        decreases container.len() - i,
    {
        if crate::text::str_eq(container[i].as_str(), name) {
            assert(v[i as int] == name@);
            return true;
        }
        i = i + 1;
    }
    false
}

/// Tensor names one block needs, given the names the container holds.
pub fn block_tensor_names(il: u32, container: &Vec<String>) -> (r: Vec<String>)
    ensures
        r@.map_values(|n: String| n@) == block_names_spec(
            il as nat,
            container@.map_values(|n: String| n@),
        ),
{
    let required = vec![
        "hc_attn_fn",
        "hc_attn_scale",
        "hc_attn_base",
        "hc_ffn_fn",
        "hc_ffn_scale",
        "hc_ffn_base",
        "attn_norm",
        "attn_q_a",
        "attn_q_a_norm",
        "attn_q_b",
        "attn_kv",
        "attn_kv_a_norm",
        "attn_sinks",
        "attn_output_a",
        "attn_output_b",
        "ffn_norm",
        "ffn_gate_inp",
        "ffn_gate_shexp",
        "ffn_up_shexp",
        "ffn_down_shexp",
    ];
    assert(required@.map_values(|s: &str| s@) =~= block_suffixes());
    let optional = vec![
        "ffn_gate_tid2eid.weight",
        "exp_probs_b.bias",
        "attn_compressor_kv.weight",
        "attn_compressor_gate.weight",
        "attn_compressor_ape.weight",
        "attn_compressor_norm.weight",
    ];
    assert(optional@.map_values(|s: &str| s@) =~= optional_suffixes());
    let ghost cv = container@.map_values(|n: String| n@);
    let ghost req = block_suffixes().map_values(|s: Seq<char>| crate::qwen3::blk(il as nat, s + ".weight"@));
    let ghost opt = optional_suffixes().map_values(|s: Seq<char>| crate::qwen3::blk(il as nat, s));
    let ghost keep = |n: Seq<char>| cv.contains(n);
    let mut names: Vec<String> = Vec::new();
    let mut i: usize = 0;
    while i < required.len()
        invariant
            i <= required.len(),
            required@.map_values(|s: &str| s@) == block_suffixes(),
            req == block_suffixes().map_values(|s: Seq<char>| crate::qwen3::blk(il as nat, s + ".weight"@)),
            names@.map_values(|n: String| n@) == req.take(i as int),
        decreases required.len() - i,
    {
        let n = block_name(il, required[i], ".weight");
        proof {
            reveal_strlit(".weight");
            assert(required@[i as int]@ == block_suffixes()[i as int]);
        }
        let ghost prev = names@.map_values(|n: String| n@);
        names.push(n);
        i = i + 1;
        assert(names@.map_values(|n: String| n@) =~= prev.push(req[i - 1]));
        assert(req.take(i as int) =~= req.take(i - 1).push(req[i - 1]));
    }
    assert(req.take(required.len() as int) =~= req);
    let mut k: usize = 0;
    while k < optional.len()
        invariant
            k <= optional.len(),
            optional@.map_values(|s: &str| s@) == optional_suffixes(),
            opt == optional_suffixes().map_values(|s: Seq<char>| crate::qwen3::blk(il as nat, s)),
            cv == container@.map_values(|n: String| n@),
            keep == (|n: Seq<char>| cv.contains(n)),
            names@.map_values(|n: String| n@) == req + kept(opt.take(k as int), keep),
        decreases optional.len() - k,
    {
        let n = block_name(il, optional[k], "");
        proof {
            reveal_strlit("");
            assert(optional@[k as int]@ + ""@ =~= optional_suffixes()[k as int]);
            assert(opt.take(k + 1).drop_last() =~= opt.take(k as int));
            assert(opt.take(k + 1).last() == opt[k as int]);
        }
        if listed(container, n.as_str()) {
            let ghost prev = names@.map_values(|n: String| n@);
            names.push(n);
            assert(names@.map_values(|n: String| n@) =~= prev.push(opt[k as int]));
        }
        k = k + 1;
    }
    assert(opt.take(optional.len() as int) =~= opt);
    names
}

/// One `pass,layer,expert,count` row.
pub open spec fn csv_row(p: nat, il: nat, e: nat, c: u32) -> Seq<char> {
    crate::text::decimal(p) + ","@ + crate::text::decimal(il) + ","@ + crate::text::decimal(e) + ","@
        + crate::text::decimal(c as nat) + "\n"@
}

/// The rows of layer `il` of pass `p`, one per expert, zeros included.
pub open spec fn layer_rows(p: nat, il: nat, row: Seq<u32>) -> Seq<char>
    decreases row.len(),
{
    if row.len() == 0 {
        Seq::empty()
    } else {
        layer_rows(p, il, row.drop_last()) + csv_row(p, il, (row.len() - 1) as nat, row.last())
    }
}

pub open spec fn pass_rows(p: nat, pass: Seq<Seq<u32>>) -> Seq<char>
    decreases pass.len(),
{
    if pass.len() == 0 {
        Seq::empty()
    } else {
        pass_rows(p, pass.drop_last()) + layer_rows(p, (pass.len() - 1) as nat, pass.last())
    }
}

pub open spec fn log_rows(log: Seq<Seq<Seq<u32>>>) -> Seq<char>
    decreases log.len(),
{
    if log.len() == 0 {
        Seq::empty()
    } else {
        log_rows(log.drop_last()) + pass_rows((log.len() - 1) as nat, log.last())
    }
}

/// The raw histogram as `pass,layer,expert,count` rows under a header, so
/// two runs can be compared offline. Zero counts are written too: the
/// analysis wants a dense matrix.
pub fn routing_csv(log: &Vec<Vec<Vec<u32>>>) -> (r: String)
    ensures
        r@ == "pass,layer,expert,count\n"@ + log_rows(log_view(log@)),
{
    let ghost lv = log_view(log@);
    let mut out = String::new();
    crate::text::push_str(&mut out, "pass,layer,expert,count\n");
    let ghost head = out@;
    let mut p: usize = 0;
    while p < log.len()
        invariant
            p <= log.len(),
            lv == log_view(log@),
            out@ == head + log_rows(lv.take(p as int)),
        decreases log.len() - p,
    {
        let pass = &log[p];
        let ghost pv = lv[p as int];
        assert(pv == pass@.map_values(|r: Vec<u32>| r@));
        let ghost before_pass = out@;
        let mut il: usize = 0;
        while il < pass.len()
            invariant
                il <= pass.len(),
                pv == pass@.map_values(|r: Vec<u32>| r@),
                out@ == before_pass + pass_rows(p as nat, pv.take(il as int)),
            decreases pass.len() - il,
        {
            let row = &pass[il];
            assert(pv[il as int] == row@);
            let ghost before_row = out@;
            let mut e: usize = 0;
            while e < row.len()
                invariant
                    e <= row.len(),
                    out@ == before_row + layer_rows(p as nat, il as nat, row@.take(e as int)),
                decreases row.len() - e,
            {
                let ghost before = out@;
                crate::text::push_decimal(&mut out, p as u64);
                crate::text::push_str(&mut out, ",");
                crate::text::push_decimal(&mut out, il as u64);
                crate::text::push_str(&mut out, ",");
                crate::text::push_decimal(&mut out, e as u64);
                crate::text::push_str(&mut out, ",");
                crate::text::push_decimal(&mut out, row[e] as u64);
                crate::text::push_str(&mut out, "\n");
                assert(out@ =~= before + csv_row(p as nat, il as nat, e as nat, row@[e as int]));
                assert(row@.take(e + 1).drop_last() =~= row@.take(e as int));
                e = e + 1;
                assert(out@ =~= before_row + layer_rows(p as nat, il as nat, row@.take(e as int)));
            }
            assert(row@.take(row.len() as int) =~= row@);
            assert(pv.take(il + 1).drop_last() =~= pv.take(il as int));
            il = il + 1;
            assert(out@ =~= before_pass + pass_rows(p as nat, pv.take(il as int)));
        }
        assert(pv.take(pass.len() as int) =~= pv);
        assert(lv.take(p + 1).drop_last() =~= lv.take(p as int));
        p = p + 1;
        assert(out@ =~= head + log_rows(lv.take(p as int)));
    }
    assert(lv.take(log.len() as int) =~= lv);
    out
}

/// Reader slots in the pool.
pub const READERS: usize = 8;

/// Reader slots the background prefetch may take, from the setting that
/// overrides it: a count strictly between zero and the pool's `READERS`, or
/// two.
pub open spec fn prefetch_readers_spec(setting: Option<Seq<char>>) -> usize {
    match setting {
        Some(v) => match crate::text::parse_u32(v) {
            Some(n) => if 0 < n < READERS {
                n as usize
            } else {
                2
            },
            None => 2,
        },
        None => 2,
    }
}

pub fn prefetch_readers(setting: Option<&str>) -> (r: usize)
    ensures
        r == prefetch_readers_spec(
            match setting {
                Some(v) => Some(v@),
                None => None,
            },
        ),
{
    match setting {
        Some(v) => {
            let cs = chars_of(v);
            match crate::text::parse_u32_chars(cs.as_slice()) {
                Some(n) => if 0 < n && (n as usize) < READERS {
                    n as usize
                } else {
                    2
                },
                None => 2,
            }
        },
        None => 2,
    }
}



/// Slots the foreground may use: the whole pool, less the prefetch's share
/// while a background prefetch is actually running.
pub fn foreground_readers(prefetching: bool, setting: Option<&str>) -> (r: usize)
    ensures
        r == (if prefetching {
            READERS - prefetch_readers_spec(crate::text::opt_str_view(setting))
        } else {
            READERS as int
        }),
{
    if prefetching {
        READERS - prefetch_readers(setting)
    } else {
        READERS
    }
}

/// Whether the next block's always-read weights are read while this one
/// computes: on, unless the setting is exactly `0`.
pub fn prefetch_overlap(setting: Option<&str>) -> (r: bool)
    ensures
        r == match setting {
            Some(v) => v@ != "0"@,
            None => true,
        },
{
    match setting {
        Some(v) => !crate::text::str_eq(v, "0"),
        None => true,
    }
}

/// A thread count from its setting: a positive whole number, else nothing.
pub open spec fn env_threads_spec(setting: Option<Seq<char>>) -> Option<usize> {
    match setting {
        Some(v) => match crate::text::parse_usize(v) {
            Some(t) => if t > 0 {
                Some(t)
            } else {
                None
            },
            None => None,
        },
        None => None,
    }
}

pub fn env_threads(setting: Option<&str>) -> (r: Option<usize>)
    ensures
        r == env_threads_spec(crate::text::opt_str_view(setting)),
{
    match setting {
        Some(v) => {
            let cs = chars_of(v);
            match crate::text::parse_usize_chars(cs.as_slice()) {
                Some(t) => if t > 0 {
                    Some(t)
                } else {
                    None
                },
                None => None,
            }
        },
        None => None,
    }
}

/// Threads for one compute: a batch takes its own setting or every core;
/// generation takes its setting or at most four cores, the shape of the
/// measured curve.
pub fn threads(batch: usize, batch_setting: Option<&str>, gen_setting: Option<&str>, cores: usize) -> (r: usize)
    ensures
        r == (if batch > 1 {
            match env_threads_spec(crate::text::opt_str_view(batch_setting)) {
                Some(t) => t,
                None => cores,
            }
        } else {
            match env_threads_spec(crate::text::opt_str_view(gen_setting)) {
                Some(t) => t,
                None => if cores < 4 { cores } else { 4 },
            }
        }),
{
    if batch > 1 {
        match env_threads(batch_setting) {
            Some(t) => t,
            None => cores,
        }
    } else {
        match env_threads(gen_setting) {
            Some(t) => t,
            None => if cores < 4 { cores } else { 4 },
        }
    }
}

/// The names a list of strings holds.
pub open spec fn name_views(v: Seq<String>) -> Seq<Seq<char>> {
    v.map_values(|n: String| n@)
}

/// Some tensor block 1 needs is not among `held`; a model of one block has
/// none to probe.
pub open spec fn shortfall_spec(n_layer: u32, container: Seq<Seq<char>>, held: Seq<Seq<char>>) -> bool {
    let want = block_names_spec(1, container);
    n_layer >= 2 && exists|k: int| 0 <= k < want.len() && !held.contains(#[trigger] want[k])
}

/// Whether a block would read dense weights from disk: some tensor block 1
/// needs is held neither repacked nor resident. Block 1, because block 0
/// also carries the token embeddings.
pub fn dense_shortfall(n_layer: u32, container: &Vec<String>, held: &Vec<String>) -> (r: bool)
    ensures
        r == shortfall_spec(n_layer, name_views(container@), name_views(held@)),
{
    if n_layer < 2 {
        return false;
    }
    let names = block_tensor_names(1, container);
    let ghost want = block_names_spec(1, name_views(container@));
    assert(names@.map_values(|n: String| n@) == want);
    let mut i: usize = 0;
    while i < names.len()
        invariant
            i <= names.len(),
            names@.map_values(|n: String| n@) == want,
            want == block_names_spec(1, name_views(container@)),
            n_layer >= 2,
            forall|k: int| 0 <= k < i ==> name_views(held@).contains(#[trigger] want[k]),
        decreases names.len() - i,
    {
        assert(want[i as int] == names[i as int]@);
        if !listed(held, names[i].as_str()) {
            assert(!name_views(held@).contains(want[i as int]));
            return true;
        }
        i = i + 1;
    }
    false
}

/// Whether skipping the lightning indexer is exact at this prompt length:
/// until the compressed cache holds more blocks than the indexer keeps, it
/// selects everything and changes nothing. `csa_ratio` tokens make one
/// compressed block.
pub fn indexer_is_exact(n_tokens: usize, csa_ratio: i64, indexer_top_k: u32) -> (r: bool)
    requires
        csa_ratio > 0,
    ensures
        n_tokens <= i64::MAX ==> r == (n_tokens as int / csa_ratio as int <= indexer_top_k as int),
        n_tokens > i64::MAX ==> r,
{
    if n_tokens as u64 > 0x7fff_ffff_ffff_ffff {
        // Read as a signed count this is negative, and so within any budget.
        return true;
    }
    let blocks: i64 = (n_tokens as i64) / csa_ratio;
    blocks <= indexer_top_k as i64
}

/// How many of the first `k` flags are set.
pub open spec fn count_set(flags: Seq<bool>, k: int) -> int
    decreases k,
{
    if k <= 0 {
        0
    } else {
        count_set(flags, k - 1) + if flags[k - 1] { 1int } else { 0int }
    }
}

/// The bytes of every tensor's buffer, the first `n` tensors.
pub open spec fn buffers_total(ts: Seq<Stacked>, u: int, n: int) -> int
    decreases n,
{
    if n <= 0 {
        0
    } else {
        buffers_total(ts, u, n - 1) + u * slice_of(ts[n - 1])
    }
}

/// The bytes served from the cache over the first `n` tensors: each slice
/// flagged as held costs nothing to read.
pub open spec fn hit_bytes_spec(ts: Seq<Stacked>, u: int, hit: Seq<Seq<bool>>, n: int) -> int
    decreases n,
{
    if n <= 0 {
        0
    } else {
        hit_bytes_spec(ts, u, hit, n - 1) + count_set(hit[n - 1], u) * slice_of(ts[n - 1])
    }
}

/// The slices of tensor `n` among the first `k` of `unique` that are not
/// held, as `(tensor, position)`.
pub open spec fn row_misses(n: int, flags: Seq<bool>, k: int) -> Seq<(usize, usize)>
    decreases k,
{
    if k <= 0 {
        Seq::empty()
    } else if flags[k - 1] {
        row_misses(n, flags, k - 1)
    } else {
        row_misses(n, flags, k - 1).push((n as usize, (k - 1) as usize))
    }
}

/// Every slice that must be read from disk, tensor by tensor, in the order
/// the jobs are handed out.
pub open spec fn misses_spec(u: int, hit: Seq<Seq<bool>>, n: int) -> Seq<(usize, usize)>
    decreases n,
{
    if n <= 0 {
        Seq::empty()
    } else {
        misses_spec(u, hit, n - 1) + row_misses(n - 1, hit[n - 1], u)
    }
}

proof fn lemma_count_set_bound(flags: Seq<bool>, k: int)
    requires
        0 <= k,
    ensures
        0 <= count_set(flags, k) <= k,
    decreases k,
{
    if k > 0 {
        lemma_count_set_bound(flags, k - 1);
    }
}

/// The expert reads of one layer when an expert cache holds some slices:
/// `hit[n][p]` says whether the slice of expert `unique[p]` from tensor `n`
/// is held. Every slice keeps its job and its place in the packed buffer (a
/// held one is copied rather than read), so the plan is `expert_read_plan`'s;
/// what changes is the bytes served from memory and the slices still to
/// fetch from disk, whose copies the cache may then admit.
pub fn expert_read_plan_cached(ts: &Vec<Stacked>, unique: &[i32], readers: usize, hit: &Vec<Vec<bool>>) -> (r: (
    Vec<u64>,
    Vec<Vec<ReadJob>>,
    u64,
    Vec<(usize, usize)>,
))
    requires
        plannable(ts@, unique@, readers as int),
        hit@.len() == ts@.len(),
        forall|n: int| 0 <= n < ts@.len() ==> (#[trigger] hit@[n])@.len() == unique@.len(),
        buffers_total(ts@, unique@.len() as int, ts@.len() as int) <= u64::MAX,
    ensures
        r.0@.len() == ts@.len(),
        forall|n: int| 0 <= n < ts@.len() ==> #[trigger] r.0@[n] == unique@.len() * slice_of(ts@[n]),
        r.1@.len() == ts@.len(),
        forall|n: int| 0 <= n < ts@.len() ==> (#[trigger] r.1@[n])@.len() == unique@.len(),
        forall|n: int, p: int|
            0 <= n < ts@.len() && 0 <= p < unique@.len() ==> #[trigger] r.1@[n]@[p] == job_spec(
                ts@,
                unique@,
                readers as int,
                n,
                p,
            ),
        r.2 == hit_bytes_spec(ts@, unique@.len() as int, hit@.map_values(|h: Vec<bool>| h@), ts@.len() as int),
        r.3@ == misses_spec(unique@.len() as int, hit@.map_values(|h: Vec<bool>| h@), ts@.len() as int),
{
    let (buffers, jobs) = expert_read_plan(ts, unique, readers);
    let ghost hv = hit@.map_values(|h: Vec<bool>| h@);
    let ghost ui = unique@.len() as int;
    let u = unique.len();
    let mut hit_bytes: u64 = 0;
    let mut misses: Vec<(usize, usize)> = Vec::new();
    let mut n: usize = 0;
    proof {
        lemma_buffers_grow(ts@, ui, 0, ts@.len() as int);
    }
    while n < ts.len()
        invariant
            n <= ts@.len(),
            u == unique@.len(),
            ui == u,
            hv == hit@.map_values(|h: Vec<bool>| h@),
            hit@.len() == ts@.len(),
            forall|m: int| 0 <= m < ts@.len() ==> (#[trigger] hit@[m])@.len() == unique@.len(),
            forall|m: int| 0 <= m < ts@.len() ==> (#[trigger] ts@[m]).n_expert > 0,
            buffers_total(ts@, ui, ts@.len() as int) <= u64::MAX,
            hit_bytes == hit_bytes_spec(ts@, ui, hv, n as int),
            hit_bytes_spec(ts@, ui, hv, n as int) <= buffers_total(ts@, ui, n as int),
            buffers_total(ts@, ui, n as int) <= buffers_total(ts@, ui, ts@.len() as int),
            misses@ == misses_spec(ui, hv, n as int),
        decreases ts.len() - n,
    {
        let t = ts[n];
        let slice = t.size / t.n_expert;
        let row = &hit[n];
        let ghost flags = hv[n as int];
        assert(flags == row@);
        let mut held: u64 = 0;
        let mut p: usize = 0;
        proof {
            lemma_buffers_grow(ts@, ui, n as int + 1, ts@.len() as int);
            assert(slice_of(ts@[n as int]) >= 0) by (nonlinear_arith)
                requires
                    t.size >= 0,
                    t.n_expert > 0,
                    slice_of(ts@[n as int]) == t.size as int / t.n_expert as int,
            ;
        }
        while p < u
            invariant
                p <= u,
                u == unique@.len(),
                ui == u,
                n < ts@.len(),
                row@.len() == u,
                flags == row@,
                slice == slice_of(ts@[n as int]),
                slice >= 0,
                held == count_set(flags, p as int),
                held <= p,
                misses@ == misses_spec(ui, hv, n as int) + row_misses(n as int, flags, p as int),
            decreases u - p,
        {
            if row[p] {
                held = held + 1;
            } else {
                misses.push((n, p));
            }
            p = p + 1;
        }
        proof {
            lemma_count_set_bound(flags, ui);
            assert(held * slice <= u * slice) by (nonlinear_arith)
                requires
                    held <= u,
                    slice >= 0,
            ;
            assert(hit_bytes_spec(ts@, ui, hv, n + 1) == hit_bytes_spec(ts@, ui, hv, n as int) + held * slice);
            assert(buffers_total(ts@, ui, n + 1) == buffers_total(ts@, ui, n as int) + u * slice);
            assert(0 <= held * slice) by (nonlinear_arith)
                requires
                    held >= 0,
                    slice >= 0,
            ;
        }
        hit_bytes = hit_bytes + held * slice;
        n = n + 1;
    }
    (buffers, jobs, hit_bytes, misses)
}

proof fn lemma_buffers_grow(ts: Seq<Stacked>, u: int, a: int, b: int)
    requires
        0 <= a <= b <= ts.len(),
        u >= 0,
        forall|m: int| 0 <= m < ts.len() ==> (#[trigger] ts[m]).n_expert > 0,
    ensures
        buffers_total(ts, u, a) <= buffers_total(ts, u, b),
    decreases b - a,
{
    if a < b {
        lemma_buffers_grow(ts, u, a, b - 1);
        let t = ts[b - 1];
        assert(slice_of(t) >= 0) by (nonlinear_arith)
            requires
                t.size >= 0,
                t.n_expert > 0,
                slice_of(t) == t.size as int / t.n_expert as int,
        ;
        assert(u * slice_of(t) >= 0) by (nonlinear_arith)
            requires
                u >= 0,
                slice_of(t) >= 0,
        ;
    }
}

/// Whether key position `key` is hidden from the query at absolute position
/// `q`: it lies in the query's future, or a window is set and the key is a
/// full window or more behind.
pub open spec fn raw_hidden(q: int, key: int, window: int) -> bool {
    key > q || (window > 0 && q - key >= window)
}

/// The attention mask of one pass, as hidden flags: query row `r` (at
/// absolute position `pos0 + r`) over `n_raw` raw keys at positions
/// `lo..`, then `n_comp` compressed blocks of `ratio` positions, of which a
/// block not yet complete at the query is hidden.
pub open spec fn mask_spec(pos0: int, lo: int, n_raw: int, window: int, ratio: int, has_comp: bool, r: int, j: int) -> bool {
    if j < n_raw {
        raw_hidden(pos0 + r, lo + j, window)
    } else {
        has_comp && j - n_raw >= (pos0 + r + 1) / ratio
    }
}

pub fn attention_mask(pos0: i64, nt: usize, lo: i64, n_raw: usize, window: i64, n_comp: usize, ratio: i64, has_comp: bool) -> (r: Vec<Vec<bool>>)
    requires
        pos0 >= 0,
        lo >= 0,
        pos0 + nt <= i64::MAX,
        lo + n_raw <= i64::MAX,
        n_raw + n_comp <= i64::MAX,
        n_raw + n_comp <= usize::MAX,
        ratio > 0,
    ensures
        r@.len() == nt,
        forall|q: int| 0 <= q < nt ==> (#[trigger] r@[q])@.len() == n_raw + n_comp,
        forall|q: int, j: int|
            0 <= q < nt && 0 <= j < n_raw + n_comp ==> #[trigger] r@[q]@[j] == mask_spec(
                pos0 as int,
                lo as int,
                n_raw as int,
                window as int,
                ratio as int,
                has_comp,
                q,
                j,
            ),
{
    let mut rows: Vec<Vec<bool>> = Vec::new();
    let mut q: usize = 0;
    while q < nt
        invariant
            q <= nt,
            pos0 >= 0,
            lo >= 0,
            pos0 + nt <= i64::MAX,
            lo + n_raw <= i64::MAX,
            n_raw + n_comp <= i64::MAX,
        n_raw + n_comp <= usize::MAX,
            ratio > 0,
            rows@.len() == q,
            forall|a: int| 0 <= a < q ==> (#[trigger] rows@[a])@.len() == n_raw + n_comp,
            forall|a: int, j: int|
                0 <= a < q && 0 <= j < n_raw + n_comp ==> #[trigger] rows@[a]@[j] == mask_spec(
                    pos0 as int,
                    lo as int,
                    n_raw as int,
                    window as int,
                    ratio as int,
                    has_comp,
                    a,
                    j,
                ),
        decreases nt - q,
    {
        let q_abs: i64 = pos0 + q as i64;
        let first_open: i64 = (q_abs + 1) / ratio;
        let mut row: Vec<bool> = Vec::new();
        let mut j: usize = 0;
        while j < n_raw + n_comp
            invariant
                j <= n_raw + n_comp,
                q < nt,
                q_abs == pos0 + q,
                q_abs >= 0,
                first_open == (q_abs + 1) / ratio as int,
                lo >= 0,
                lo + n_raw <= i64::MAX,
                n_raw + n_comp <= i64::MAX,
        n_raw + n_comp <= usize::MAX,
                ratio > 0,
                row@.len() == j,
                forall|b: int| 0 <= b < j ==> #[trigger] row@[b] == mask_spec(
                    pos0 as int,
                    lo as int,
                    n_raw as int,
                    window as int,
                    ratio as int,
                    has_comp,
                    q as int,
                    b,
                ),
            decreases n_raw + n_comp - j,
        {
            let hidden = if j < n_raw {
                let key: i64 = lo + j as i64;
                key > q_abs || (window > 0 && q_abs - key >= window)
            } else {
                has_comp && ((j - n_raw) as i64) >= first_open
            };
            row.push(hidden);
            j = j + 1;
        }
        rows.push(row);
        q = q + 1;
    }
    rows
}

/// The distinct experts of a block's selections, in ascending order.
pub open spec fn is_ascending_set(u: Seq<i32>) -> bool {
    forall|a: int, b: int| 0 <= a < b < u.len() ==> u[a] < u[b]
}

/// How many of `ids` are `e`.
pub open spec fn times_chosen(ids: Seq<i32>, e: i32) -> nat
    decreases ids.len(),
{
    if ids.len() == 0 {
        0
    } else {
        times_chosen(ids.drop_last(), e) + if ids.last() == e { 1nat } else { 0nat }
    }
}

/// Where `x` goes in the ascending `u`: the first place not below it.
fn place_of(u: &Vec<i32>, x: i32) -> (i: usize)
    requires
        is_ascending_set(u@),
    ensures
        i <= u@.len(),
        forall|a: int| 0 <= a < i ==> u@[a] < x,
        forall|a: int| i <= a < u@.len() ==> u@[a] >= x,
{
    let mut i: usize = 0;
    while i < u.len() && u[i] < x
        invariant
            i <= u@.len(),
            is_ascending_set(u@),
            forall|a: int| 0 <= a < i ==> u@[a] < x,
        decreases u.len() - i,
    {
        i = i + 1;
    }
    if i < u.len() {
        assert forall|a: int| i <= a < u@.len() implies u@[a] >= x by {
            if a > i {
                assert(u@[i as int] < u@[a]);
            }
        }
    }
    i
}

/// The experts a block's tokens chose, read once each: the distinct ids in
/// ascending order, each selection's position in that list, and how many
/// selections each distinct expert drew (so a cache can tell hot from cold).
pub fn expert_dedup(ids: &Vec<i32>) -> (r: (Vec<i32>, Vec<i32>, Vec<u32>))
    requires
        ids@.len() <= i32::MAX,
    ensures
        is_ascending_set(r.0@),
        forall|x: i32| r.0@.contains(x) <==> ids@.contains(x),
        r.1@.len() == ids@.len(),
        forall|k: int| 0 <= k < ids@.len() ==> 0 <= #[trigger] r.1@[k] < r.0@.len() && r.0@[r.1@[k] as int] == ids@[k],
        r.2@.len() == r.0@.len(),
        forall|p: int| 0 <= p < r.0@.len() ==> #[trigger] r.2@[p] == times_chosen(ids@, r.0@[p]),
{
    let mut u: Vec<i32> = Vec::new();
    let mut k: usize = 0;
    while k < ids.len()
        invariant
            k <= ids@.len(),
            is_ascending_set(u@),
            u@.len() <= k,
            forall|x: i32| u@.contains(x) <==> ids@.take(k as int).contains(x),
        decreases ids.len() - k,
    {
        let x = ids[k];
        let i = place_of(&u, x);
        let ghost before = u@;
        if i < u.len() && u[i] == x {
        } else {
            u.insert(i, x);
            proof {
                assert forall|a: int, b: int| 0 <= a < b < u@.len() implies u@[a] < u@[b] by {
                    if b < i {
                    } else if a > i {
                        assert(u@[a] == before[a - 1] && u@[b] == before[b - 1]);
                    } else if a == i {
                        assert(u@[b] == before[b - 1]);
                    } else {
                        if b == i {
                        } else {
                            assert(u@[b] == before[b - 1]);
                            assert(before[i as int] >= x);
                        }
                    }
                }
            }
        }
        proof {
            let t = ids@.take(k + 1);
            assert(t =~= ids@.take(k as int).push(x));
            assert forall|y: i32| u@.contains(y) <==> t.contains(y) by {
                if t.contains(y) {
                    if y == x {
                        assert(u@[i as int] == x);
                    } else {
                        let c = choose|c: int| 0 <= c < t.len() && t[c] == y;
                        assert(ids@.take(k as int)[c] == y);
                        assert(before.contains(y));
                        let d = choose|d: int| 0 <= d < before.len() && before[d] == y;
                        if u@.len() == before.len() {
                            assert(u@ == before);
                        } else if d < i {
                            assert(u@[d] == y);
                        } else {
                            assert(u@[d + 1] == y);
                        }
                    }
                }
                if u@.contains(y) {
                    let c = choose|c: int| 0 <= c < u@.len() && u@[c] == y;
                    if u@.len() == before.len() {
                        assert(u@ == before);
                        assert(before.contains(y));
                    } else if c < i {
                        assert(before[c] == y);
                        assert(before.contains(y));
                    } else if c == i {
                        assert(t[k as int] == y);
                    } else {
                        assert(before[c - 1] == y);
                        assert(before.contains(y));
                    }
                    if y != x {
                        let d = choose|d: int| 0 <= d < ids@.take(k as int).len() && ids@.take(k as int)[d] == y;
                        assert(t[d] == y);
                    } else {
                        assert(t[k as int] == y);
                    }
                }
            }
        }
        k = k + 1;
    }
    assert(ids@.take(ids@.len() as int) =~= ids@);
    let mut compact: Vec<i32> = Vec::new();
    let mut m: usize = 0;
    while m < ids.len()
        invariant
            m <= ids@.len(),
            ids@.len() <= i32::MAX,
            is_ascending_set(u@),
            u@.len() <= ids@.len(),
            forall|x: i32| u@.contains(x) <==> ids@.contains(x),
            compact@.len() == m,
            forall|a: int| 0 <= a < m ==> 0 <= #[trigger] compact@[a] < u@.len() && u@[compact@[a] as int] == ids@[a],
        decreases ids.len() - m,
    {
        let x = ids[m];
        assert(ids@.contains(x));
        let i = place_of(&u, x);
        proof {
            let c = choose|c: int| 0 <= c < u@.len() && u@[c] == x;
            if c < i {
            } else if c > i {
                assert(u@[i as int] < u@[c]);
            }
        }
        compact.push(i as i32);
        m = m + 1;
    }
    let mut sel: Vec<u32> = Vec::new();
    let mut p: usize = 0;
    while p < u.len()
        invariant
            p <= u@.len(),
            ids@.len() <= i32::MAX,
            sel@.len() == p,
            forall|a: int| 0 <= a < p ==> #[trigger] sel@[a] == times_chosen(ids@, u@[a]),
        decreases u.len() - p,
    {
        let e = u[p];
        let mut c: u32 = 0;
        let mut k2: usize = 0;
        while k2 < ids.len()
            invariant
                k2 <= ids@.len(),
                ids@.len() <= i32::MAX,
                c == times_chosen(ids@.take(k2 as int), e),
                c <= k2,
            decreases ids.len() - k2,
        {
            assert(ids@.take(k2 + 1).drop_last() =~= ids@.take(k2 as int));
            if ids[k2] == e {
                c = c + 1;
            }
            k2 = k2 + 1;
        }
        assert(ids@.take(ids@.len() as int) =~= ids@);
        sel.push(c);
        p = p + 1;
    }
    (u, compact, sel)
}

/// Whether `record_into` may count these selections: there is a pass to
/// count into, and no count of layer `il` would pass `u32::MAX`.
pub fn record_fits(log: &Vec<Vec<Vec<u32>>>, il: u32, n_expert: usize, ids: &[i32]) -> (r: bool)
    ensures
        r == (log@.len() > 0 && counts_fit(base_row(log_view(log@).last(), il as nat, n_expert as nat), ids@)),
{
    if log.len() == 0 {
        return false;
    }
    let ghost row = base_row(log_view(log@).last(), il as nat, n_expert as nat);
    let pass = &log[log.len() - 1];
    assert(log_view(log@).last() == pass@.map_values(|r: Vec<u32>| r@));
    let ilu = il as usize;
    let len = if ilu < pass.len() { pass[ilu].len() } else { n_expert };
    assert(row.len() == len);
    let mut e: usize = 0;
    while e < len
        invariant
            e <= len,
            log@.len() > 0,
            len == row.len(),
            row == base_row(log_view(log@).last(), il as nat, n_expert as nat),
            pass@.map_values(|r: Vec<u32>| r@) == log_view(log@).last(),
            ilu == il,
            ilu < pass@.len() ==> len == pass@[ilu as int]@.len(),
            forall|f: int| 0 <= f < e ==> row[f] + selections(ids@, f) <= u32::MAX,
        decreases len - e,
    {
        let b: u64 = if ilu < pass.len() { pass[ilu][e] as u64 } else { 0 };
        assert(b == row[e as int]);
        let mut c: u64 = 0;
        let mut k: usize = 0;
        while k < ids.len()
            invariant
                k <= ids@.len(),
                c == selections(ids@.take(k as int), e as int),
                c <= k,
            decreases ids.len() - k,
        {
            assert(ids@.take(k + 1).drop_last() =~= ids@.take(k as int));
            if ids[k] >= 0 && ids[k] as usize == e {
                c = c + 1;
            }
            k = k + 1;
        }
        assert(ids@.take(ids@.len() as int) =~= ids@);
        if (b as u128) + (c as u128) > 0xffff_ffff {
            return false;
        }
        e = e + 1;
    }
    true
}

} // verus!
