//! Converting the always-read trunk to a narrower dtype at load time: which
//! names a person may type, which tensors are eligible, and what a pass did.
//!
//! The conversion itself (dequantise, quantise, the resident set) belongs to
//! the tensor crates; what is decided here is everything around it.
use vstd::prelude::*;
use crate::text::{chars_of, lower, lowered, same_chars, str_eq};

verus! {

broadcast use vstd::multiset::group_multiset_axioms, vstd::seq_lib::group_to_multiset_ensures;

/// A ggml tensor type, by its numeric id in the container.
#[derive(Clone, Copy, PartialEq, Eq, Debug, Structural)]
pub struct GgmlType(pub u32);

/// `GGML_TYPE_Q8_0`: the only source type this converts from.
pub const Q8_0: u32 = 8;

/// The names `--trunk-quant` accepts, for an error message.
pub const TRUNK_QUANT_NAMES: &'static str = "off, q4_k, q5_k, q6_k";

/// What a typed name asks for, compared without regard to ASCII case.
/// `Some(None)` is "leave the trunk alone"; `None` is a name not offered.
pub open spec fn target_spec(name: Seq<char>) -> Option<Option<GgmlType>> {
    let l = lower(name);
    if l == seq!['o', 'f', 'f'] || l == seq!['n', 'o', 'n', 'e'] || l == seq!['q', '8', '_', '0'] {
        Some(None)
    } else if l == seq!['q', '4', '_', 'k'] || l == seq!['q', '4', 'k'] {
        Some(Some(GgmlType(12)))
    } else if l == seq!['q', '5', '_', 'k'] || l == seq!['q', '5', 'k'] {
        Some(Some(GgmlType(13)))
    } else if l == seq!['q', '6', '_', 'k'] || l == seq!['q', '6', 'k'] {
        Some(Some(GgmlType(14)))
    } else {
        None
    }
}

/// Whether the characters `l` spell `w` exactly.
fn spells(l: &[char], w: &str) -> (r: bool)
    ensures
        r == (l@ == w@),
{
    let wc = chars_of(w);
    same_chars(l, wc.as_slice())
}

/// The dtype a person asked for by name.
///
/// `Q4_K` is the lever's point; `Q5_K` and `Q6_K` are the steps back towards
/// `Q8_0`. Anything else, the importance-matrix types especially, is refused
/// rather than guessed.
pub fn target_from_name(name: &str) -> (r: Option<Option<GgmlType>>)
    ensures
        r == target_spec(name@),
{
    proof {
        reveal_strlit("off");
        reveal_strlit("none");
        reveal_strlit("q8_0");
        reveal_strlit("q4_k");
        reveal_strlit("q4k");
        reveal_strlit("q5_k");
        reveal_strlit("q5k");
        reveal_strlit("q6_k");
        reveal_strlit("q6k");
        assert("off"@ =~= seq!['o', 'f', 'f']);
        assert("none"@ =~= seq!['n', 'o', 'n', 'e']);
        assert("q8_0"@ =~= seq!['q', '8', '_', '0']);
        assert("q4_k"@ =~= seq!['q', '4', '_', 'k']);
        assert("q4k"@ =~= seq!['q', '4', 'k']);
        assert("q5_k"@ =~= seq!['q', '5', '_', 'k']);
        assert("q5k"@ =~= seq!['q', '5', 'k']);
        assert("q6_k"@ =~= seq!['q', '6', '_', 'k']);
        assert("q6k"@ =~= seq!['q', '6', 'k']);
    }
    let cs = chars_of(name);
    let l = lowered(cs.as_slice());
    let l = l.as_slice();
    if spells(l, "off") || spells(l, "none") || spells(l, "q8_0") {
        Some(None)
    } else if spells(l, "q4_k") || spells(l, "q4k") {
        Some(Some(GgmlType(12)))
    } else if spells(l, "q5_k") || spells(l, "q5k") {
        Some(Some(GgmlType(13)))
    } else if spells(l, "q6_k") || spells(l, "q6k") {
        Some(Some(GgmlType(14)))
    } else {
        None
    }
}

/// The tensor whose error reaches the sampled token directly.
pub open spec fn output_projection() -> Seq<char> {
    seq!['o', 'u', 't', 'p', 'u', 't', '.', 'w', 'e', 'i', 'g', 'h', 't']
}

/// Should this tensor be left exactly as the container stores it?
pub fn keep_as_stored(name: &str) -> (r: bool)
    ensures
        r == (name@ == output_projection()),
{
    proof {
        reveal_strlit("output.weight");
        assert("output.weight"@ =~= output_projection());
    }
    str_eq(name, "output.weight")
}

/// What a requantisation pass did. The wall-clock time it took is kept by
/// whoever timed it.
#[derive(Clone, Copy, Debug)]
pub struct TrunkQuantReport {
    pub converted: usize,
    pub skipped_type: usize,
    pub skipped_shape: usize,
    pub skipped_by_name: usize,
    pub bytes_before: u64,
    pub bytes_after: u64,
    pub target: Option<GgmlType>,
}

/// What became of one resident tensor in a pass.
#[derive(Clone, Copy, PartialEq, Eq, Debug, Structural)]
pub enum Outcome {
    /// Left alone by name.
    ByName,
    /// Not `Q8_0` in the container, or converted already.
    WrongType,
    /// Rows that are not whole target blocks, a conversion that would not
    /// shrink it, or bytes that disagree with the container's index.
    WrongShape,
    /// Converted from `before` bytes to `after`.
    Converted { before: u64, after: u64 },
    /// Not counted: unlocated, shapeless, or not resident after all.
    Passed,
}

/// The report after one more outcome is counted.
pub open spec fn counted(r: TrunkQuantReport, o: Outcome) -> TrunkQuantReport {
    match o {
        Outcome::ByName => TrunkQuantReport { skipped_by_name: (r.skipped_by_name + 1) as usize, ..r },
        Outcome::WrongType => TrunkQuantReport { skipped_type: (r.skipped_type + 1) as usize, ..r },
        Outcome::WrongShape => TrunkQuantReport { skipped_shape: (r.skipped_shape + 1) as usize, ..r },
        Outcome::Converted { before, after } => TrunkQuantReport {
            converted: (r.converted + 1) as usize,
            bytes_before: (r.bytes_before + before) as u64,
            bytes_after: (r.bytes_after + after) as u64,
            ..r
        },
        Outcome::Passed => r,
    }
}

/// Counting `o` into `r` overflows none of its fields.
pub open spec fn fits(r: TrunkQuantReport, o: Outcome) -> bool {
    match o {
        Outcome::ByName => r.skipped_by_name < usize::MAX,
        Outcome::WrongType => r.skipped_type < usize::MAX,
        Outcome::WrongShape => r.skipped_shape < usize::MAX,
        Outcome::Converted { before, after } => r.converted < usize::MAX && r.bytes_before
            + before <= u64::MAX && r.bytes_after + after <= u64::MAX,
        Outcome::Passed => true,
    }
}

impl TrunkQuantReport {
    /// A report of a pass towards `target` that has done nothing yet.
    pub fn new(target: GgmlType) -> (r: Self)
        ensures
            r == (TrunkQuantReport {
                converted: 0,
                skipped_type: 0,
                skipped_shape: 0,
                skipped_by_name: 0,
                bytes_before: 0,
                bytes_after: 0,
                target: Some(target),
            }),
    {
        TrunkQuantReport {
            converted: 0,
            skipped_type: 0,
            skipped_shape: 0,
            skipped_by_name: 0,
            bytes_before: 0,
            bytes_after: 0,
            target: Some(target),
        }
    }

    /// Bytes the conversion gave back to the rest of the machine.
    pub fn saved(&self) -> (r: u64)
        ensures
            r == if self.bytes_before >= self.bytes_after {
                self.bytes_before - self.bytes_after
            } else {
                0
            },
    {
        self.bytes_before.saturating_sub(self.bytes_after)
    }

    /// Count what became of one tensor.
    pub fn count(&mut self, o: Outcome)
        requires
            fits(*old(self), o),
        ensures
            *final(self) == counted(*old(self), o),
    {
        match o {
            Outcome::ByName => self.skipped_by_name = self.skipped_by_name + 1,
            Outcome::WrongType => self.skipped_type = self.skipped_type + 1,
            Outcome::WrongShape => self.skipped_shape = self.skipped_shape + 1,
            Outcome::Converted { before, after } => {
                self.converted = self.converted + 1;
                self.bytes_before = self.bytes_before + before;
                self.bytes_after = self.bytes_after + after;
            },
            Outcome::Passed => {},
        }
    }
}

/// The product of `s`, folded from the left.
pub open spec fn product(s: Seq<u64>) -> int
    decreases s.len(),
{
    if s.len() == 0 {
        1
    } else {
        product(s.drop_last()) * s.last()
    }
}

/// Every running product of `s` fits in a `u64`.
pub open spec fn products_fit(s: Seq<u64>) -> bool {
    forall|k: int| 0 <= k <= s.len() ==> #[trigger] product(s.take(k)) <= u64::MAX
}

/// A tensor's shape as `(ne0, nrows)`: its row length, and every other
/// dimension multiplied together. A tensor with no dimensions has none.
pub open spec fn shape_spec(dims: Seq<u64>) -> Option<(i64, i64)> {
    if dims.len() == 0 {
        None
    } else {
        Some((dims[0] as i64, product(dims.drop_first()) as i64))
    }
}

/// What the container says about a tensor, and whether this pass may
/// convert it before any bytes are looked at.
#[derive(Clone, Copy, PartialEq, Eq, Debug, Structural)]
pub enum Screen {
    ByName,
    /// The container has no entry for it.
    Unlocated,
    /// Not stored as `Q8_0`, or already carrying an override.
    WrongType,
    /// No dimensions at all.
    Shapeless,
    Shape { ne0: i64, nrows: i64 },
}

/// The screening, in the order the pass applies it.
pub open spec fn screen_spec(name: Seq<char>, stored: Option<u32>, overridden: bool, dims: Seq<u64>) -> Screen {
    if name == output_projection() {
        Screen::ByName
    } else if stored is None {
        Screen::Unlocated
    } else if stored->0 != Q8_0 || overridden {
        Screen::WrongType
    } else {
        match shape_spec(dims) {
            None => Screen::Shapeless,
            Some((ne0, nrows)) => Screen::Shape { ne0, nrows },
        }
    }
}

/// `(ne0, nrows)` of a tensor with dimensions `dims`.
pub fn tensor_shape(dims: &[u64]) -> (r: Option<(i64, i64)>)
    requires
        dims@.len() > 0 ==> products_fit(dims@.drop_first()),
    ensures
        r == shape_spec(dims@),
{
    if dims.len() == 0 {
        return None;
    }
    let ghost rest = dims@.drop_first();
    let mut n: u64 = 1;
    let mut k: usize = 1;
    while k < dims.len()
        invariant
            1 <= k <= dims.len(),
            rest == dims@.drop_first(),
            products_fit(rest),
            n == product(rest.take(k - 1)),
        decreases dims.len() - k,
    {
        proof {
            assert(rest.take(k as int).drop_last() == rest.take(k - 1));
            assert(product(rest.take(k as int)) <= u64::MAX);
        }
        n = n * dims[k];
        k = k + 1;
    }
    assert(rest.take(k - 1) == rest);
    Some((dims[0] as i64, n as i64))
}

/// Screen one resident tensor: `stored` is the container's type for it, if
/// the container has it, and `overridden` whether it was converted already.
pub fn screen_tensor(name: &str, stored: Option<u32>, overridden: bool, dims: &[u64]) -> (r: Screen)
    requires
        dims@.len() > 0 ==> products_fit(dims@.drop_first()),
    ensures
        r == screen_spec(name@, stored, overridden, dims@),
{
    if keep_as_stored(name) {
        return Screen::ByName;
    }
    match stored {
        None => Screen::Unlocated,
        Some(ty) => {
            if ty != Q8_0 || overridden {
                Screen::WrongType
            } else {
                match tensor_shape(dims) {
                    None => Screen::Shapeless,
                    Some((ne0, nrows)) => Screen::Shape { ne0, nrows },
                }
            }
        },
    }
}

/// Whether a tensor whose rows take `src_row` bytes now and would take
/// `dst_row` after can be converted: both sizes known (a row that is not a
/// whole number of blocks has none), and the conversion shrinks it.
pub fn rows_convert(src_row: Option<usize>, dst_row: Option<usize>) -> (r: bool)
    ensures
        r == (src_row is Some && dst_row is Some && dst_row->0 < src_row->0),
{
    match (src_row, dst_row) {
        (Some(s), Some(d)) => d < s,
        _ => false,
    }
}

/// Whether a tensor's stored bytes are exactly `nrows` rows of `src_row`
/// bytes each; a tensor that is not is left as it is. (`nrows` is taken as
/// the machine word it is used as.)
pub fn holds_whole_rows(len: usize, src_row: usize, nrows: i64) -> (r: bool)
    ensures
        r == (len as int == src_row as int * (nrows as usize) as int),
{
    let n = nrows as usize;
    match src_row.checked_mul(n) {
        Some(p) => p == len,
        None => false,
    }
}

/// `a` comes no later than `b` in code-point order, which for UTF-8 text is
/// the order `str`'s comparison gives.
pub open spec fn lex_le(a: Seq<char>, b: Seq<char>) -> bool
    decreases a.len(),
{
    if a.len() == 0 {
        true
    } else if b.len() == 0 {
        false
    } else if a[0] < b[0] {
        true
    } else if a[0] > b[0] {
        false
    } else {
        lex_le(a.drop_first(), b.drop_first())
    }
}

/// The order a pass converts in: largest first, then by name.
pub open spec fn converts_before(a: (u64, Seq<char>), b: (u64, Seq<char>)) -> bool {
    a.0 > b.0 || (a.0 == b.0 && lex_le(a.1, b.1))
}

pub open spec fn conversion_order() -> spec_fn((u64, Seq<char>), (u64, Seq<char>)) -> bool {
    |a: (u64, Seq<char>), b: (u64, Seq<char>)| converts_before(a, b)
}

pub open spec fn sized_views(v: Seq<(u64, String)>) -> Seq<(u64, Seq<char>)> {
    v.map_values(|p: (u64, String)| (p.0, p.1@))
}

proof fn lemma_lex_reflexive(a: Seq<char>)
    ensures
        lex_le(a, a),
    decreases a.len(),
{
    if a.len() > 0 {
        lemma_lex_reflexive(a.drop_first());
    }
}

proof fn lemma_lex_antisymmetric(a: Seq<char>, b: Seq<char>)
    requires
        lex_le(a, b),
        lex_le(b, a),
    ensures
        a == b,
    decreases a.len(),
{
    if a.len() > 0 && b.len() > 0 {
        assert(a[0] == b[0]);
        lemma_lex_antisymmetric(a.drop_first(), b.drop_first());
        assert(a =~= seq![a[0]] + a.drop_first());
        assert(b =~= seq![b[0]] + b.drop_first());
    } else {
        assert(a.len() == 0 && b.len() == 0);
        assert(a =~= b);
    }
}

proof fn lemma_lex_transitive(a: Seq<char>, b: Seq<char>, c: Seq<char>)
    requires
        lex_le(a, b),
        lex_le(b, c),
    ensures
        lex_le(a, c),
    decreases a.len(),
{
    if a.len() > 0 && b.len() > 0 && c.len() > 0 {
        if a[0] == b[0] && b[0] == c[0] {
            lemma_lex_transitive(a.drop_first(), b.drop_first(), c.drop_first());
        }
    }
}

proof fn lemma_lex_total(a: Seq<char>, b: Seq<char>)
    ensures
        lex_le(a, b) || lex_le(b, a),
    decreases a.len(),
{
    if a.len() > 0 && b.len() > 0 {
        lemma_lex_total(a.drop_first(), b.drop_first());
    }
}

proof fn lemma_conversion_order_total()
    ensures
        vstd::relations::total_ordering(conversion_order()),
{
    let r = conversion_order();
    assert forall|x: (u64, Seq<char>)| #[trigger] r(x, x) by {
        lemma_lex_reflexive(x.1);
    }
    assert forall|x: (u64, Seq<char>), y: (u64, Seq<char>)| #[trigger] r(x, y) && #[trigger] r(y, x) implies x == y by {
        lemma_lex_antisymmetric(x.1, y.1);
    }
    assert forall|x: (u64, Seq<char>), y: (u64, Seq<char>), z: (u64, Seq<char>)|
        #[trigger] r(x, y) && #[trigger] r(y, z) implies r(x, z) by {
        if x.0 == y.0 && y.0 == z.0 {
            lemma_lex_transitive(x.1, y.1, z.1);
        }
    }
    assert forall|x: (u64, Seq<char>), y: (u64, Seq<char>)| #[trigger] r(x, y) || #[trigger] r(y, x) by {
        lemma_lex_total(x.1, y.1);
    }
}

fn lex_le_chars(a: &[char], b: &[char]) -> (r: bool)
    ensures
        r == lex_le(a@, b@),
{
    let mut i: usize = 0;
    assert(a@.skip(0) =~= a@ && b@.skip(0) =~= b@);
    while i < a.len() && i < b.len() && a[i] == b[i]
        invariant
            i <= a@.len(),
            i <= b@.len(),
            lex_le(a@.skip(i as int), b@.skip(i as int)) == lex_le(a@, b@),
        decreases a.len() - i,
    {
        assert(a@.skip(i as int).drop_first() =~= a@.skip(i + 1));
        assert(b@.skip(i as int).drop_first() =~= b@.skip(i + 1));
        i = i + 1;
    }
    if i == a.len() {
        true
    } else if i == b.len() {
        false
    } else {
        assert(a@.skip(i as int)[0] == a@[i as int] && b@.skip(i as int)[0] == b@[i as int]);
        a[i] < b[i]
    }
}

/// The resident tensors, each with its size in the container (zero where it
/// has none), in the order a pass converts them: largest first, and by name
/// among equals, so two runs convert in the same order.
pub fn conversion_sequence(names: &Vec<(u64, String)>) -> (r: Vec<(u64, String)>)
    ensures
        sized_views(r@) == sized_views(names@).sort_by(conversion_order()),
{
    let mut rest: Vec<(u64, String)> = Vec::new();
    let mut k: usize = 0;
    while k < names.len()
        invariant
            k <= names.len(),
            sized_views(rest@) == sized_views(names@).take(k as int),
        decreases names.len() - k,
    {
        let (size, name) = &names[k];
        let ghost prev = sized_views(rest@);
        rest.push((*size, name.clone()));
        assert(sized_views(rest@) =~= prev.push(sized_views(names@)[k as int]));
        assert(sized_views(names@).take(k + 1) =~= sized_views(names@).take(k as int).push(
            sized_views(names@)[k as int],
        ));
        k = k + 1;
    }
    assert(sized_views(names@).take(names.len() as int) =~= sized_views(names@));
    let ghost want = sized_views(names@);
    let mut out: Vec<(u64, String)> = Vec::new();
    while rest.len() > 0
        invariant
            vstd::relations::sorted_by(sized_views(out@), conversion_order()),
            forall|i: int, j: int|
                0 <= i < out@.len() && 0 <= j < rest@.len() ==> converts_before(
                    sized_views(out@)[i],
                    sized_views(rest@)[j],
                ),
            sized_views(out@).to_multiset().add(sized_views(rest@).to_multiset()) =~= want.to_multiset(),
        decreases rest.len(),
    {
        proof {
            lemma_conversion_order_total();
        }
        let mut best: usize = 0;
        let mut i: usize = 1;
        assert((conversion_order())(sized_views(rest@)[0], sized_views(rest@)[0]));
        while i < rest.len()
            invariant
                0 < rest.len(),
                best < rest.len(),
                1 <= i <= rest.len(),
                vstd::relations::total_ordering(conversion_order()),
                forall|k: int| 0 <= k < i ==> #[trigger] (conversion_order())(
                    sized_views(rest@)[best as int],
                    sized_views(rest@)[k],
                ),
            decreases rest.len() - i,
        {
            let a = chars_of(rest[i].1.as_str());
            let b = chars_of(rest[best].1.as_str());
            let earlier = rest[i].0 > rest[best].0 || (rest[i].0 == rest[best].0 && lex_le_chars(
                a.as_slice(),
                b.as_slice(),
            ) && !lex_le_chars(b.as_slice(), a.as_slice()));
            proof {
                let x = sized_views(rest@)[i as int];
                let y = sized_views(rest@)[best as int];
                assert(x == (rest@[i as int].0, rest@[i as int].1@));
                assert(y == (rest@[best as int].0, rest@[best as int].1@));
                if !earlier {
                    lemma_lex_total(x.1, y.1);
                    assert(converts_before(y, x));
                } else {
                    assert forall|k: int| 0 <= k < i implies #[trigger] (conversion_order())(x, sized_views(rest@)[k]) by {
                        let z = sized_views(rest@)[k];
                        assert((conversion_order())(x, y));
                        assert((conversion_order())(y, z));
                    }
                }
            }
            if earlier {
                best = i;
            }
            i = i + 1;
        }
        let ghost before_rest = sized_views(rest@);
        let ghost before_out = sized_views(out@);
        let ghost m = before_rest[best as int];
        let item = rest.remove(best);
        proof {
            assert(sized_views(rest@) =~= before_rest.remove(best as int));
            assert(before_rest.remove(best as int).to_multiset() =~= before_rest.to_multiset().remove(m));
            assert(before_rest.contains(m));
        }
        out.push(item);
        proof {
            assert(sized_views(out@) =~= before_out.push(m));
            assert(before_out.push(m).to_multiset() =~= before_out.to_multiset().insert(m));
            assert forall|i: int, j: int| 0 <= i < j < sized_views(out@).len() implies #[trigger] (conversion_order())(
                sized_views(out@)[i],
                sized_views(out@)[j],
            ) by {
                if j == before_out.len() {
                    assert(converts_before(before_out[i], before_rest[best as int]));
                } else {
                    assert((conversion_order())(before_out[i], before_out[j]));
                }
            }
            assert forall|i: int, j: int|
                0 <= i < out@.len() && 0 <= j < rest@.len() implies converts_before(
                    sized_views(out@)[i],
                    sized_views(rest@)[j],
                ) by {
                let j0 = if j < best { j } else { j + 1 };
                assert(sized_views(rest@)[j] == before_rest[j0]);
                if i == before_out.len() {
                    assert((conversion_order())(before_rest[best as int], before_rest[j0]));
                    assert(converts_before(m, before_rest[j0]));
                } else {
                    assert(converts_before(before_out[i], before_rest[j0]));
                }
            }
        }
    }
    proof {
        assert(sized_views(rest@).to_multiset() =~= vstd::multiset::Multiset::empty());
        assert(sized_views(out@).to_multiset() =~= want.to_multiset());
        lemma_conversion_order_total();
        want.lemma_sort_by_ensures(conversion_order());
        assert(sized_views(out@).to_multiset() =~= want.sort_by(conversion_order()).to_multiset());
        vstd::seq_lib::lemma_sorted_unique(sized_views(out@), want.sort_by(conversion_order()), conversion_order());
    }
    out
}

/// The order a pass converts in depends only on which tensors there are,
/// not on the order they were listed in: two runs convert alike.
pub proof fn lemma_conversion_order_is_deterministic(a: Seq<(u64, Seq<char>)>, b: Seq<(u64, Seq<char>)>)
    requires
        a.to_multiset() == b.to_multiset(),
    ensures
        a.sort_by(conversion_order()) == b.sort_by(conversion_order()),
{
    lemma_conversion_order_total();
    a.lemma_sort_by_ensures(conversion_order());
    b.lemma_sort_by_ensures(conversion_order());
    vstd::seq_lib::lemma_sorted_unique(a.sort_by(conversion_order()), b.sort_by(conversion_order()), conversion_order());
}

} // verus!
