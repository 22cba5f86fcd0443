//! A saved KV cache, so a repeated prompt does not pay prefill twice.
//!
//! # Format
//!
//! ```text
//! "BTPC" u32 version  u64 fingerprint  u32 kv_type  u32 layers
//! u32 positions       u32 n_tokens     [u32; n_tokens] tokens
//! per layer: u64 len, k bytes, u64 len, v bytes
//! ```
//!
//! Every integer is little-endian. The fingerprint is the shape the cache was
//! built with: keys computed by another model, or with another KV type, are
//! not an error anywhere downstream, only numbers that mean nothing, so a
//! mismatch discards the file rather than using part of it.
use vstd::prelude::*;
use vstd::bytes::{
    spec_u32_from_le_bytes, spec_u32_to_le_bytes, spec_u64_from_le_bytes, spec_u64_to_le_bytes,
    u32_from_le_bytes, u32_to_le_bytes, u64_from_le_bytes, u64_to_le_bytes,
    lemma_auto_spec_u32_to_from_le_bytes, lemma_auto_spec_u64_to_from_le_bytes,
};
use crate::qwen3::Qwen3Config;

verus! {

/// `"BTPC"`.
pub open spec fn magic() -> Seq<u8> {
    seq![66u8, 84u8, 80u8, 67u8]
}

pub const VERSION: u32 = 1;

/// The FNV-1a offset basis and prime.
pub const FNV_OFFSET: u64 = 0xcbf2_9ce4_8422_2325;

pub const FNV_PRIME: u64 = 0x0000_0100_0000_01b3;

/// FNV-1a over whole 64-bit parts: each is XORed in, then the hash is
/// multiplied by the prime, modulo 2^64.
pub open spec fn fnv(parts: Seq<u64>) -> u64
    decreases parts.len(),
{
    if parts.len() == 0 {
        FNV_OFFSET
    } else {
        (((fnv(parts.drop_last()) ^ parts.last()) as nat * FNV_PRIME as nat) % 0x1_0000_0000_0000_0000) as u64
    }
}

/// The shape a cache depends on, in the order it is hashed.
pub open spec fn shape_parts(c: Qwen3Config, kv_type: u32) -> Seq<u64> {
    seq![
        c.n_layer as u64,
        c.n_embd as u64,
        c.n_head as u64,
        c.n_head_kv as u64,
        c.head_dim as u64,
        c.vocab_size as u64,
        kv_type as u64,
    ]
}

/// A cache's layers, as bytes.
pub open spec fn layer_views(layers: Seq<(Vec<u8>, Vec<u8>)>) -> Seq<(Seq<u8>, Seq<u8>)> {
    layers.map_values(|p: (Vec<u8>, Vec<u8>)| (p.0@, p.1@))
}

/// The tokens, four bytes each.
pub open spec fn token_bytes(ts: Seq<u32>) -> Seq<u8>
    decreases ts.len(),
{
    if ts.len() == 0 {
        Seq::empty()
    } else {
        spec_u32_to_le_bytes(ts[0]) + token_bytes(ts.skip(1))
    }
}

/// The layers, each as its keys and then its values, each length-prefixed.
pub open spec fn layer_bytes(ls: Seq<(Seq<u8>, Seq<u8>)>) -> Seq<u8>
    decreases ls.len(),
{
    if ls.len() == 0 {
        Seq::empty()
    } else {
        spec_u64_to_le_bytes(ls[0].0.len() as u64) + ls[0].0 + spec_u64_to_le_bytes(
            ls[0].1.len() as u64,
        ) + ls[0].1 + layer_bytes(ls.skip(1))
    }
}

/// The header: magic, version, fingerprint, KV type, and the three counts,
/// each count as its low 32 bits.
pub open spec fn header(fp: u64, kv_type: u32, n_layers: nat, positions: nat, n_tokens: nat) -> Seq<u8> {
    magic() + spec_u32_to_le_bytes(VERSION) + spec_u64_to_le_bytes(fp) + spec_u32_to_le_bytes(kv_type)
        + spec_u32_to_le_bytes(n_layers as u32) + spec_u32_to_le_bytes(positions as u32)
        + spec_u32_to_le_bytes(n_tokens as u32)
}

/// A whole cache file.
pub open spec fn cache_file(
    fp: u64,
    kv_type: u32,
    positions: nat,
    tokens: Seq<u32>,
    layers: Seq<(Seq<u8>, Seq<u8>)>,
) -> Seq<u8> {
    header(fp, kv_type, layers.len(), positions, tokens.len()) + token_bytes(tokens) + layer_bytes(
        layers,
    )
}

/// A little-endian `u32` at the front of `d`, and what follows it.
pub open spec fn u32_at(d: Seq<u8>) -> Option<(u32, Seq<u8>)> {
    if d.len() < 4 {
        None
    } else {
        Some((spec_u32_from_le_bytes(d.take(4)), d.skip(4)))
    }
}

/// A little-endian `u64` at the front of `d`, and what follows it.
pub open spec fn u64_at(d: Seq<u8>) -> Option<(u64, Seq<u8>)> {
    if d.len() < 8 {
        None
    } else {
        Some((spec_u64_from_le_bytes(d.take(8)), d.skip(8)))
    }
}

/// `n` tokens at the front of `d`, and what follows them.
pub open spec fn parse_tokens(d: Seq<u8>, n: nat) -> Option<(Seq<u32>, Seq<u8>)>
    decreases n,
{
    if n == 0 {
        Some((Seq::empty(), d))
    } else {
        match u32_at(d) {
            None => None,
            Some((t, r)) => match parse_tokens(r, (n - 1) as nat) {
                None => None,
                Some((ts, r2)) => Some((seq![t] + ts, r2)),
            },
        }
    }
}

/// A length-prefixed run of bytes at the front of `d`, and what follows it.
/// The length is read as a `usize`.
pub open spec fn blob_at(d: Seq<u8>) -> Option<(Seq<u8>, Seq<u8>)> {
    match u64_at(d) {
        None => None,
        Some((n, r)) => if r.len() < (n as usize) as nat {
            None
        } else {
            Some((r.take((n as usize) as int), r.skip((n as usize) as int)))
        },
    }
}

/// `n` layers at the front of `d`, and what follows them.
pub open spec fn parse_layers(d: Seq<u8>, n: nat) -> Option<(Seq<(Seq<u8>, Seq<u8>)>, Seq<u8>)>
    decreases n,
{
    if n == 0 {
        Some((Seq::empty(), d))
    } else {
        match blob_at(d) {
            None => None,
            Some((k, r1)) => match blob_at(r1) {
                None => None,
                Some((v, r2)) => match parse_layers(r2, (n - 1) as nat) {
                    None => None,
                    Some((ls, r3)) => Some((seq![(k, v)] + ls, r3)),
                },
            },
        }
    }
}

/// The tokens and then the layers, read after the header.
pub open spec fn parse_body(d: Seq<u8>, n_tokens: nat, n_layers: nat) -> Option<(Seq<u32>, Seq<(Seq<u8>, Seq<u8>)>)> {
    match parse_tokens(d, n_tokens) {
        None => None,
        Some((ts, rest)) => match parse_layers(rest, n_layers) {
            None => None,
            Some((ls, _rest)) => Some((ts, ls)),
        },
    }
}

/// What a cache file holds, when it is one for the shape `want`: its tokens
/// and each layer's key and value bytes. A wrong magic, version or
/// fingerprint, or a file cut short anywhere, holds nothing; bytes after
/// the last layer are not looked at.
pub open spec fn parse_cache(d: Seq<u8>, want: u64) -> Option<(Seq<u32>, Seq<(Seq<u8>, Seq<u8>)>)> {
    if d.len() < 4 || d.take(4) != magic() {
        None
    } else {
        match u32_at(d.skip(4)) {
            None => None,
            Some((version, d1)) => if version != VERSION {
                None
            } else {
                match u64_at(d1) {
                    None => None,
                    Some((fp, d2)) => if fp != want {
                        None
                    } else {
                        match u32_at(d2) {
                            None => None,
                            Some((_kv, d3)) => match u32_at(d3) {
                                None => None,
                                Some((n_layers, d4)) => match u32_at(d4) {
                                    None => None,
                                    Some((_positions, d5)) => match u32_at(d5) {
                                        None => None,
                                        Some((n_tokens, d6)) => match parse_tokens(
                                            d6,
                                            n_tokens as nat,
                                        ) {
                                            None => None,
                                            Some((ts, d7)) => match parse_layers(
                                                d7,
                                                n_layers as nat,
                                            ) {
                                                None => None,
                                                Some((ls, _rest)) => Some((ts, ls)),
                                            },
                                        },
                                    },
                                },
                            },
                        }
                    },
                }
            },
        }
    }
}

/// Append `b` to `out`.
fn push_bytes(out: &mut Vec<u8>, b: &[u8])
    ensures
        final(out)@ == old(out)@ + b@,
{
    let mut i: usize = 0;
    let ghost start = out@;
    while i < b.len()
        invariant
            i <= b.len(),
            out@ == start + b@.take(i as int),
        decreases b.len() - i,
    {
        out.push(b[i]);
        i = i + 1;
        assert(out@ =~= start + b@.take(i as int));
    }
    assert(b@.take(b.len() as int) =~= b@);
}

/// `d[lo..hi]`, copied.
fn copy_range(d: &[u8], lo: usize, hi: usize) -> (r: Vec<u8>)
    requires
        lo <= hi <= d@.len(),
    ensures
        r@ == d@.subrange(lo as int, hi as int),
{
    let mut r: Vec<u8> = Vec::new();
    let mut i: usize = lo;
    while i < hi
        invariant
            lo <= i <= hi <= d@.len(),
            r@ == d@.subrange(lo as int, i as int),
        decreases hi - i,
    {
        r.push(d[i]);
        i = i + 1;
    }
    r
}

/// Where a field of `n` bytes starting at `at` ends, if `d` holds it.
fn field_end(d: &[u8], at: usize, n: usize) -> (r: Option<usize>)
    requires
        at <= d@.len(),
    ensures
        match r {
            Some(end) => end == at + n && end <= d@.len(),
            None => at + n > d@.len(),
        },
{
    if n <= d.len() - at {
        Some(at + n)
    } else {
        None
    }
}

/// The little-endian `u32` at `at`, and where it ends, if `d` holds one.
fn read_u32(d: &[u8], at: usize) -> (r: Option<(u32, usize)>)
    requires
        at <= d@.len(),
    ensures
        (u32_at(d@.skip(at as int)) is None) == (r is None),
        r matches Some((v, end)) ==> end == at + 4 && u32_at(d@.skip(at as int)) == Some(
            (v, d@.skip(end as int)),
        ),
{
    match field_end(d, at, 4) {
        None => None,
        Some(end) => {
            let b = copy_range(d, at, end);
            assert(b@ =~= d@.skip(at as int).take(4));
            assert(d@.skip(at as int).skip(4) =~= d@.skip(end as int));
            Some((u32_from_le_bytes(b.as_slice()), end))
        },
    }
}

/// The little-endian `u64` at `at`, and where it ends, if `d` holds one.
fn read_u64(d: &[u8], at: usize) -> (r: Option<(u64, usize)>)
    requires
        at <= d@.len(),
    ensures
        (u64_at(d@.skip(at as int)) is None) == (r is None),
        r matches Some((v, end)) ==> end == at + 8 && u64_at(d@.skip(at as int)) == Some(
            (v, d@.skip(end as int)),
        ),
{
    match field_end(d, at, 8) {
        None => None,
        Some(end) => {
            let b = copy_range(d, at, end);
            assert(b@ =~= d@.skip(at as int).take(8));
            assert(d@.skip(at as int).skip(8) =~= d@.skip(end as int));
            Some((u64_from_le_bytes(b.as_slice()), end))
        },
    }
}

/// The length-prefixed bytes at `at`, and where they end, if `d` holds them.
fn read_blob(d: &[u8], at: usize) -> (r: Option<(Vec<u8>, usize)>)
    requires
        at <= d@.len(),
    ensures
        (blob_at(d@.skip(at as int)) is None) == (r is None),
        r matches Some((v, end)) ==> at <= end <= d@.len() && blob_at(d@.skip(at as int)) == Some(
            (v@, d@.skip(end as int)),
        ),
{
    match read_u64(d, at) {
        None => None,
        Some((n, start)) => {
            let n = n as usize;
            match field_end(d, start, n) {
                None => None,
                Some(end) => {
                    let b = copy_range(d, start, end);
                    assert(b@ =~= d@.skip(start as int).take(n as int));
                    assert(d@.skip(start as int).skip(n as int) =~= d@.skip(end as int));
                    Some((b, end))
                },
            }
        },
    }
}

/// The prompt cache's file format.
pub struct PromptCache;

impl PromptCache {
    /// The shape the cache depends on. Any change invalidates every saved
    /// file.
    pub fn fingerprint(config: &Qwen3Config, kv_type: u32) -> (r: u64)
        ensures
            r == fnv(shape_parts(*config, kv_type)),
    {
        let parts: [u64; 7] = [
            config.n_layer as u64,
            config.n_embd as u64,
            config.n_head as u64,
            config.n_head_kv as u64,
            config.head_dim as u64,
            config.vocab_size as u64,
            kv_type as u64,
        ];
        let ghost ps = shape_parts(*config, kv_type);
        assert(parts@ =~= ps);
        let mut h: u64 = FNV_OFFSET;
        let mut i: usize = 0;
        while i < 7
            invariant
                i <= 7,
                parts@ == ps,
                ps.len() == 7,
                h == fnv(ps.take(i as int)),
            decreases 7 - i,
        {
            assert(ps.take(i + 1).drop_last() =~= ps.take(i as int));
            h = h ^ parts[i];
            h = h.wrapping_mul(FNV_PRIME);
            i = i + 1;
        }
        assert(ps.take(7) =~= ps);
        h
    }

    /// Read a saved cache: its tokens and per-layer bytes.
    ///
    /// Any inconsistency gives `None`: a prompt cache is an optimisation, and
    /// failing to use one must never fail the run.
    pub fn load(data: &[u8], want: u64) -> (r: Option<(Vec<u32>, Vec<(Vec<u8>, Vec<u8>)>)>)
        ensures
            match parse_cache(data@, want) {
                None => r is None,
                Some((ts, ls)) => r matches Some((t, l)) && t@ == ts && layer_views(l@) == ls,
            },
    {
        let ghost d = data@;
        if data.len() < 4 {
            return None;
        }
        let m = copy_range(data, 0, 4);
        assert(m@ =~= d.take(4));
        if !(m[0] == 66u8 && m[1] == 84u8 && m[2] == 80u8 && m[3] == 67u8) {
            assert(d.take(4) != magic()) by {
                if d.take(4) == magic() {
                    assert(m@[0] == 66u8 && m@[1] == 84u8 && m@[2] == 80u8 && m@[3] == 67u8);
                }
            }
            return None;
        }
        assert(d.take(4) =~= magic());
        let (version, at) = match read_u32(data, 4) {
            None => return None,
            Some(x) => x,
        };
        if version != VERSION {
            return None;
        }
        let (fp, at) = match read_u64(data, at) {
            None => return None,
            Some(x) => x,
        };
        if fp != want {
            return None;
        }
        let (_kv, at) = match read_u32(data, at) {
            None => return None,
            Some(x) => x,
        };
        let (n_layers, at) = match read_u32(data, at) {
            None => return None,
            Some(x) => x,
        };
        let (_positions, at) = match read_u32(data, at) {
            None => return None,
            Some(x) => x,
        };
        let (n_tokens, at) = match read_u32(data, at) {
            None => return None,
            Some(x) => x,
        };
        let ghost d6 = d.skip(at as int);
        assert(parse_cache(d, want) == parse_body(d6, n_tokens as nat, n_layers as nat));
        let mut tokens: Vec<u32> = Vec::new();
        let mut at = at;
        let mut i: u32 = 0;
        while i < n_tokens
            invariant
                i <= n_tokens,
                at <= d.len(),
                d == data@,
                parse_cache(d, want) == parse_body(d6, n_tokens as nat, n_layers as nat),
                parse_tokens(d6, n_tokens as nat) == match parse_tokens(
                    d.skip(at as int),
                    (n_tokens - i) as nat,
                ) {
                    None => None,
                    Some((ts, rest)) => Some((tokens@ + ts, rest)),
                },
            decreases n_tokens - i,
        {
            match read_u32(data, at) {
                None => {
                    return None;
                },
                Some((t, next)) => {
                    proof {
                        let rest = d.skip(next as int);
                        let x = d.skip(at as int);
                        assert(u32_at(x) == Some((t, rest)));
                        assert((n_tokens - i) as nat > 0);
                        assert(parse_tokens(d.skip(at as int), (n_tokens - i) as nat) == match parse_tokens(rest, (n_tokens - i - 1) as nat) {
                            None => None,
                            Some((ts, r2)) => Some((seq![t] + ts, r2)),
                        });
                        match parse_tokens(rest, (n_tokens - i - 1) as nat) {
                            None => {},
                            Some((ts, r2)) => {
                                assert(tokens@.push(t) + ts =~= tokens@ + (seq![t] + ts));
                            },
                        }
                    }
                    tokens.push(t);
                    at = next;
                },
            }
            i = i + 1;
        }
        assert(tokens@ + Seq::<u32>::empty() =~= tokens@);
        let ghost d7 = d.skip(at as int);
        assert(parse_cache(d, want) == match parse_layers(d7, n_layers as nat) {
            None => None,
            Some((ls, _rest)) => Some((tokens@, ls)),
        });
        let mut layers: Vec<(Vec<u8>, Vec<u8>)> = Vec::new();
        let mut j: u32 = 0;
        while j < n_layers
            invariant
                j <= n_layers,
                at <= d.len(),
                d == data@,
                parse_cache(d, want) == match parse_layers(d7, n_layers as nat) {
                    None => None,
                    Some((ls, _rest)) => Some((tokens@, ls)),
                },
                parse_layers(d7, n_layers as nat) == match parse_layers(
                    d.skip(at as int),
                    (n_layers - j) as nat,
                ) {
                    None => None,
                    Some((ls, rest)) => Some((layer_views(layers@) + ls, rest)),
                },
            decreases n_layers - j,
        {
            let (k, next) = match read_blob(data, at) {
                None => return None,
                Some(x) => x,
            };
            let (v, next) = match read_blob(data, next) {
                None => return None,
                Some(x) => x,
            };
            proof {
                let rest = d.skip(next as int);
                assert(parse_layers(d.skip(at as int), (n_layers - j) as nat) == match parse_layers(rest, (n_layers - j - 1) as nat) {
                    None => None,
                    Some((ls, r3)) => Some((seq![(k@, v@)] + ls, r3)),
                });
                assert(layer_views(layers@.push((k, v))) =~= layer_views(layers@).push((k@, v@)));
                match parse_layers(rest, (n_layers - j - 1) as nat) {
                    None => {},
                    Some((ls, r2)) => {
                        assert(layer_views(layers@).push((k@, v@)) + ls =~= layer_views(layers@)
                            + (seq![(k@, v@)] + ls));
                    },
                }
            }
            layers.push((k, v));
            at = next;
            j = j + 1;
        }
        assert(layer_views(layers@) + Seq::<(Seq<u8>, Seq<u8>)>::empty() =~= layer_views(layers@));
        Some((tokens, layers))
    }

    /// The bytes of a cache covering `tokens`, whose KV cache holds
    /// `positions` positions of the type numbered `kv_type` and, per layer,
    /// the key and value bytes in `layers`.
    pub fn save(
        fingerprint: u64,
        kv_type: u32,
        positions: usize,
        layers: &Vec<(Vec<u8>, Vec<u8>)>,
        tokens: &[u32],
    ) -> (r: Vec<u8>)
        ensures
            r@ == cache_file(fingerprint, kv_type, positions as nat, tokens@, layer_views(layers@)),
    {
        let mut out: Vec<u8> = Vec::new();
        out.push(66u8);
        out.push(84u8);
        out.push(80u8);
        out.push(67u8);
        push_bytes(&mut out, u32_to_le_bytes(VERSION).as_slice());
        push_bytes(&mut out, u64_to_le_bytes(fingerprint).as_slice());
        push_bytes(&mut out, u32_to_le_bytes(kv_type).as_slice());
        push_bytes(&mut out, u32_to_le_bytes(layers.len() as u32).as_slice());
        push_bytes(&mut out, u32_to_le_bytes(positions as u32).as_slice());
        push_bytes(&mut out, u32_to_le_bytes(tokens.len() as u32).as_slice());
        let ghost lv = layer_views(layers@);
        assert(out@ =~= header(fingerprint, kv_type, lv.len(), positions as nat, tokens@.len()));
        let ghost head = out@;
        let mut i: usize = 0;
        assert(tokens@.skip(0) =~= tokens@);
        while i < tokens.len()
            invariant
                i <= tokens.len(),
                out@ + token_bytes(tokens@.skip(i as int)) == head + token_bytes(tokens@),
            decreases tokens.len() - i,
        {
            assert(tokens@.skip(i as int)[0] == tokens@[i as int]);
            assert(tokens@.skip(i as int).skip(1) =~= tokens@.skip(i + 1));
            let ghost before = out@;
            push_bytes(&mut out, u32_to_le_bytes(tokens[i]).as_slice());
            i = i + 1;
            assert(out@ + token_bytes(tokens@.skip(i as int)) =~= before + token_bytes(
                tokens@.skip(i - 1),
            ));
        }
        assert(tokens@.skip(i as int) =~= Seq::<u32>::empty());
        let ghost body = out@;
        let mut l: usize = 0;
        assert(lv.skip(0) =~= lv);
        while l < layers.len()
            invariant
                l <= layers.len(),
                lv == layer_views(layers@),
                out@ + layer_bytes(lv.skip(l as int)) == body + layer_bytes(lv),
            decreases layers.len() - l,
        {
            let k = &layers[l].0;
            let v = &layers[l].1;
            assert(lv.skip(l as int)[0] == (k@, v@));
            assert(lv.skip(l as int).skip(1) =~= lv.skip(l + 1));
            let ghost before = out@;
            push_bytes(&mut out, u64_to_le_bytes(k.len() as u64).as_slice());
            push_bytes(&mut out, k.as_slice());
            push_bytes(&mut out, u64_to_le_bytes(v.len() as u64).as_slice());
            push_bytes(&mut out, v.as_slice());
            l = l + 1;
            assert(out@ + layer_bytes(lv.skip(l as int)) =~= before + layer_bytes(
                lv.skip(l - 1),
            ));
        }
        assert(lv.skip(l as int) =~= Seq::<(Seq<u8>, Seq<u8>)>::empty());
        out
    }
}

proof fn lemma_tokens_read_back(ts: Seq<u32>, rest: Seq<u8>)
    ensures
        parse_tokens(token_bytes(ts) + rest, ts.len()) == Some((ts, rest)),
    decreases ts.len(),
{
    lemma_auto_spec_u32_to_from_le_bytes();
    if ts.len() > 0 {
        let b = spec_u32_to_le_bytes(ts[0]);
        let tail = token_bytes(ts.skip(1)) + rest;
        let d = token_bytes(ts) + rest;
        assert(d =~= b + tail);
        assert(d.take(4) =~= b);
        assert(d.skip(4) =~= tail);
        lemma_tokens_read_back(ts.skip(1), rest);
        assert(seq![ts[0]] + ts.skip(1) =~= ts);
    } else {
        assert(token_bytes(ts) + rest =~= rest);
    }
}

/// The length-prefixed bytes `b` followed by `rest` read back as `b`.
proof fn lemma_blob_reads_back(b: Seq<u8>, rest: Seq<u8>)
    requires
        b.len() <= usize::MAX,
    ensures
        blob_at(spec_u64_to_le_bytes(b.len() as u64) + b + rest) == Some((b, rest)),
{
    lemma_auto_spec_u64_to_from_le_bytes();
    let p = spec_u64_to_le_bytes(b.len() as u64);
    let d = p + b + rest;
    assert(d.take(8) =~= p);
    assert(d.skip(8) =~= b + rest);
    assert((b + rest).take(b.len() as int) =~= b);
    assert((b + rest).skip(b.len() as int) =~= rest);
}

proof fn lemma_layers_read_back(ls: Seq<(Seq<u8>, Seq<u8>)>, rest: Seq<u8>)
    requires
        forall|i: int| 0 <= i < ls.len() ==> #[trigger] ls[i].0.len() <= usize::MAX && ls[i].1.len() <= usize::MAX,
    ensures
        parse_layers(layer_bytes(ls) + rest, ls.len()) == Some((ls, rest)),
    decreases ls.len(),
{
    if ls.len() > 0 {
        let (k, v) = ls[0];
        let tail = layer_bytes(ls.skip(1)) + rest;
        let vpart = spec_u64_to_le_bytes(v.len() as u64) + v + tail;
        let d = layer_bytes(ls) + rest;
        assert(ls[0].0.len() <= usize::MAX && ls[0].1.len() <= usize::MAX);
        assert(d =~= spec_u64_to_le_bytes(k.len() as u64) + k + vpart);
        lemma_blob_reads_back(k, vpart);
        lemma_blob_reads_back(v, tail);
        assert forall|i: int| 0 <= i < ls.skip(1).len() implies #[trigger] ls.skip(1)[i].0.len()
            <= usize::MAX && ls.skip(1)[i].1.len() <= usize::MAX by {
            assert(ls.skip(1)[i] == ls[i + 1]);
        }
        lemma_layers_read_back(ls.skip(1), rest);
        assert(seq![(k, v)] + ls.skip(1) =~= ls);
    } else {
        assert(layer_bytes(ls) + rest =~= rest);
    }
}

/// A cache saved for a shape loads back, for that shape, as exactly the
/// tokens and layers that were saved, whatever follows it; and for any
/// other shape it loads as nothing.
pub proof fn lemma_cache_round_trips(
    fp: u64,
    kv_type: u32,
    positions: nat,
    tokens: Seq<u32>,
    layers: Seq<(Seq<u8>, Seq<u8>)>,
    rest: Seq<u8>,
    want: u64,
)
    requires
        tokens.len() <= u32::MAX,
        layers.len() <= u32::MAX,
        forall|i: int| 0 <= i < layers.len() ==> #[trigger] layers[i].0.len() <= usize::MAX && layers[i].1.len() <= usize::MAX,
    ensures
        parse_cache(cache_file(fp, kv_type, positions, tokens, layers) + rest, want) == if want
            == fp {
            Some((tokens, layers))
        } else {
            None
        },
{
    lemma_auto_spec_u32_to_from_le_bytes();
    lemma_auto_spec_u64_to_from_le_bytes();
    let tb = token_bytes(tokens);
    let lb = layer_bytes(layers);
    let d = cache_file(fp, kv_type, positions, tokens, layers) + rest;
    let e0 = spec_u32_to_le_bytes(VERSION);
    let e1 = spec_u64_to_le_bytes(fp);
    let e2 = spec_u32_to_le_bytes(kv_type);
    let e3 = spec_u32_to_le_bytes(layers.len() as u32);
    let e4 = spec_u32_to_le_bytes(positions as u32);
    let e5 = spec_u32_to_le_bytes(tokens.len() as u32);
    let d6 = tb + lb + rest;
    let d5 = e5 + d6;
    let d4 = e4 + d5;
    let d3 = e3 + d4;
    let d2 = e2 + d3;
    let d1 = e1 + d2;
    let d0 = e0 + d1;
    assert(d =~= magic() + d0);
    assert(d.take(4) =~= magic());
    assert(d.skip(4) =~= d0);
    assert(d0.take(4) =~= e0 && d0.skip(4) =~= d1);
    assert(d1.take(8) =~= e1 && d1.skip(8) =~= d2);
    assert(d2.take(4) =~= e2 && d2.skip(4) =~= d3);
    assert(d3.take(4) =~= e3 && d3.skip(4) =~= d4);
    assert(d4.take(4) =~= e4 && d4.skip(4) =~= d5);
    assert(d5.take(4) =~= e5 && d5.skip(4) =~= d6);
    assert(d6 =~= tb + (lb + rest));
    lemma_tokens_read_back(tokens, lb + rest);
    lemma_layers_read_back(layers, rest);
}

} // verus!
