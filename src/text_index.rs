//! Byte positions in UTF-8 text, related to positions between characters.
use vstd::prelude::*;
use vstd::utf8::*;

verus! {

/// Number of bytes that the UTF-8 encoding of `c` takes.
pub open spec fn char_width(c: char) -> nat {
    encode_scalar(c as u32).len()
}

/// Byte offset at which the `k`-th character of `s` starts (or the end, for `k == s.len()`).
pub open spec fn prefix_len(s: Seq<char>, k: int) -> nat {
    encode_utf8(s.take(k)).len()
}

/// `i` is a position between two characters of `s`, counted in bytes.
pub open spec fn on_boundary(s: Seq<char>, i: int) -> bool {
    is_char_boundary(encode_utf8(s), i)
}

/// Length of `s` in bytes.
pub open spec fn byte_len(s: Seq<char>) -> nat {
    encode_utf8(s).len()
}

pub proof fn lemma_char_width_bounds(c: char)
    ensures
        1 <= char_width(c) <= 4,
{
}

pub proof fn lemma_encode_concat(a: Seq<char>, b: Seq<char>)
    ensures
        encode_utf8(a + b) == encode_utf8(a) + encode_utf8(b),
    decreases a.len(),
{
    if a.len() == 0 {
        assert(a + b =~= b);
        assert(encode_utf8(a) =~= Seq::<u8>::empty());
        assert(encode_utf8(a) + encode_utf8(b) =~= encode_utf8(b));
    } else {
        assert((a + b)[0] == a[0]);
        assert((a + b).drop_first() =~= a.drop_first() + b);
        lemma_encode_concat(a.drop_first(), b);
        assert(encode_utf8(a + b) =~= encode_utf8(a) + encode_utf8(b));
    }
}

pub proof fn lemma_encode_single(c: char)
    ensures
        encode_utf8(seq![c]) == encode_scalar(c as u32),
{
    assert(seq![c].drop_first() =~= Seq::<char>::empty());
    assert(seq![c][0] == c);
    assert(encode_utf8(Seq::<char>::empty()) =~= Seq::<u8>::empty());
    assert(encode_utf8(seq![c]) =~= encode_scalar(c as u32));
}

pub proof fn lemma_prefix_len_step(s: Seq<char>, k: int)
    requires
        0 <= k < s.len(),
    ensures
        prefix_len(s, k + 1) == prefix_len(s, k) + char_width(s[k]),
{
    assert(s.take(k + 1) =~= s.take(k) + seq![s[k]]);
    lemma_encode_concat(s.take(k), seq![s[k]]);
    lemma_encode_single(s[k]);
}

pub proof fn lemma_prefix_len_zero(s: Seq<char>)
    ensures
        prefix_len(s, 0) == 0,
{
    assert(s.take(0) =~= Seq::<char>::empty());
}

pub proof fn lemma_prefix_len_full(s: Seq<char>)
    ensures
        prefix_len(s, s.len() as int) == byte_len(s),
{
    assert(s.take(s.len() as int) =~= s);
}

/// Prefix byte lengths grow strictly with the number of characters.
pub proof fn lemma_prefix_len_strict(s: Seq<char>, a: int, b: int)
    requires
        0 <= a < b <= s.len(),
    ensures
        prefix_len(s, a) < prefix_len(s, b),
    decreases b - a,
{
    lemma_prefix_len_step(s, b - 1);
    lemma_char_width_bounds(s[b - 1]);
    if a < b - 1 {
        lemma_prefix_len_strict(s, a, b - 1);
    }
}

pub proof fn lemma_prefix_len_mono(s: Seq<char>, a: int, b: int)
    requires
        0 <= a <= b <= s.len(),
    ensures
        prefix_len(s, a) <= prefix_len(s, b),
{
    if a < b {
        lemma_prefix_len_strict(s, a, b);
    }
}

pub proof fn lemma_prefix_len_injective(s: Seq<char>, a: int, b: int)
    requires
        0 <= a <= s.len(),
        0 <= b <= s.len(),
        prefix_len(s, a) == prefix_len(s, b),
    ensures
        a == b,
{
    if a < b {
        lemma_prefix_len_strict(s, a, b);
    } else if b < a {
        lemma_prefix_len_strict(s, b, a);
    }
}

/// The byte boundaries of an encoded string are exactly the prefix lengths.
pub proof fn lemma_boundary_iff_prefix(s: Seq<char>, i: int)
    ensures
        on_boundary(s, i) <==> exists|k: int| 0 <= k <= s.len() && #[trigger] prefix_len(s, k) == i,
    decreases s.len(),
{
    let bytes = encode_utf8(s);
    encode_utf8_valid_utf8(s);
    lemma_prefix_len_zero(s);
    if s.len() == 0 {
        assert(bytes =~= Seq::<u8>::empty());
        if exists|k: int| 0 <= k <= s.len() && #[trigger] prefix_len(s, k) == i {
            let k = choose|k: int| 0 <= k <= s.len() && #[trigger] prefix_len(s, k) == i;
            assert(k == 0);
        }
    } else {
        let rest = s.drop_first();
        let w = char_width(s[0]) as int;
        encode_utf8_first_scalar(s);
        encode_utf8_valid_utf8(rest);
        assert(pop_first_scalar(bytes) =~= encode_utf8(rest));
        lemma_char_width_bounds(s[0]);
        assert forall|k: int| 0 <= k <= rest.len() implies #[trigger] prefix_len(s, k + 1) == w
            + prefix_len(rest, k) by {
            assert(s.take(k + 1) =~= seq![s[0]] + rest.take(k));
            lemma_encode_concat(seq![s[0]], rest.take(k));
            lemma_encode_single(s[0]);
        }
        if i == 0 {
        } else if i < 0 || bytes.len() < i {
            if exists|k: int| 0 <= k <= s.len() && #[trigger] prefix_len(s, k) == i {
                let k = choose|k: int| 0 <= k <= s.len() && #[trigger] prefix_len(s, k) == i;
                lemma_prefix_len_mono(s, k, s.len() as int);
                lemma_prefix_len_full(s);
            }
        } else {
            assert(on_boundary(s, i) == on_boundary(rest, i - w));
            lemma_boundary_iff_prefix(rest, i - w);
            if on_boundary(s, i) {
                let k = choose|k: int| 0 <= k <= rest.len() && #[trigger] prefix_len(rest, k) == i - w;
                assert(prefix_len(s, k + 1) == i);
            }
            if exists|k: int| 0 <= k <= s.len() && #[trigger] prefix_len(s, k) == i {
                let k = choose|k: int| 0 <= k <= s.len() && #[trigger] prefix_len(s, k) == i;
                assert(k != 0);
                assert(prefix_len(s, (k - 1) + 1) == w + prefix_len(rest, k - 1));
                assert(prefix_len(rest, k - 1) == i - w);
            }
        }
    }
}

} // verus!
