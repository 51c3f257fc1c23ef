//! Big-endian integers as byte strings, and the order of byte strings.

use vstd::arithmetic::div_mod;
use vstd::arithmetic::power;
use vstd::prelude::*;

verus! {

/// The `width` low-order base-256 digits of `v`, most significant first.
pub open spec fn be_bytes(v: nat, width: nat) -> Seq<u8>
    decreases width,
{
    if width == 0 {
        Seq::empty()
    } else {
        be_bytes(v / 256, (width - 1) as nat).push((v % 256) as u8)
    }
}

/// The number that a byte string denotes, most significant byte first.
pub open spec fn be_value(s: Seq<u8>) -> nat
    decreases s.len(),
{
    if s.len() == 0 {
        0
    } else {
        256 * be_value(s.drop_last()) + s.last() as nat
    }
}

/// How many values `width` bytes can hold.
pub open spec fn byte_span(width: nat) -> nat
    decreases width,
{
    if width == 0 {
        1
    } else {
        256 * byte_span((width - 1) as nat)
    }
}

/// `a` comes before `b` byte by byte: at the first place where they differ,
/// `a` holds the smaller byte, or `a` ends there and `b` does not.
pub open spec fn bytes_less(a: Seq<u8>, b: Seq<u8>) -> bool {
    exists|k: int| #[trigger] differs_first_at(a, b, k)
}

/// `a` and `b` agree below place `k`, and at `k` the string `a` is smaller.
pub open spec fn differs_first_at(a: Seq<u8>, b: Seq<u8>, k: int) -> bool {
    &&& 0 <= k <= a.len()
    &&& k < b.len()
    &&& forall|i: int| 0 <= i < k ==> a[i] == b[i]
    &&& k < a.len() ==> a[k] < b[k]
}

pub proof fn lemma_be_bytes_len(v: nat, width: nat)
    ensures
        be_bytes(v, width).len() == width,
    decreases width,
{
    if width > 0 {
        lemma_be_bytes_len(v / 256, (width - 1) as nat);
    }
}

/// Reading a number back from its bytes gives the number, if it fits.
pub proof fn lemma_be_round_trip(v: nat, width: nat)
    requires
        v < byte_span(width),
    ensures
        be_bytes(v, width).len() == width,
        be_value(be_bytes(v, width)) == v,
    decreases width,
{
    lemma_be_bytes_len(v, width);
    if width > 0 {
        lemma_be_round_trip(v / 256, (width - 1) as nat);
        assert(be_bytes(v, width).drop_last() =~= be_bytes(v / 256, (width - 1) as nat));
    }
}

pub proof fn lemma_byte_spans()
    ensures
        byte_span(4) == 0x1_0000_0000,
        byte_span(8) == 0x1_0000_0000_0000_0000,
{
    reveal_with_fuel(byte_span, 9);
}

proof fn lemma_be_value_injective(a: Seq<u8>, b: Seq<u8>)
    requires
        a.len() == b.len(),
        be_value(a) == be_value(b),
    ensures
        a == b,
    decreases a.len(),
{
    if a.len() > 0 {
        lemma_be_value_injective(a.drop_last(), b.drop_last());
        assert(a =~= a.drop_last().push(a.last()));
        assert(b =~= b.drop_last().push(b.last()));
    } else {
        assert(a =~= b);
    }
}

/// Byte strings of one length are ordered as the numbers they denote.
pub proof fn lemma_bytes_order_is_value_order(a: Seq<u8>, b: Seq<u8>)
    requires
        a.len() == b.len(),
    ensures
        bytes_less(a, b) <==> be_value(a) < be_value(b),
    decreases a.len(),
{
    if a.len() > 0 {
        let a0 = a.drop_last();
        let b0 = b.drop_last();
        lemma_bytes_order_is_value_order(a0, b0);
        if bytes_less(a, b) {
            let k = choose|k: int| #[trigger] differs_first_at(a, b, k);
            if k < a0.len() {
                assert(differs_first_at(a0, b0, k));
            } else {
                assert(a0 =~= b0);
            }
        }
        if be_value(a) < be_value(b) {
            if be_value(a0) < be_value(b0) {
                let k = choose|k: int| #[trigger] differs_first_at(a0, b0, k);
                assert forall|i: int| 0 <= i < k implies a[i] == b[i] by {
                    assert(a[i] == a0[i] && b[i] == b0[i]);
                }
                assert(differs_first_at(a, b, k));
            } else {
                lemma_be_value_injective(a0, b0);
                assert forall|i: int| 0 <= i < a.len() - 1 implies a[i] == b[i] by {
                    assert(a[i] == a0[i] && b[i] == b0[i]);
                }
                assert(differs_first_at(a, b, a.len() - 1));
            }
        }
    }
}

/// Behind prefixes of one length, the suffixes decide only where the prefixes
/// are equal.
pub proof fn lemma_bytes_order_of_concat(p: Seq<u8>, s: Seq<u8>, q: Seq<u8>, t: Seq<u8>)
    requires
        p.len() == q.len(),
    ensures
        bytes_less(p + s, q + t) <==> bytes_less(p, q) || (p == q && bytes_less(s, t)),
{
    let a = p + s;
    let b = q + t;
    let n = p.len() as int;
    if bytes_less(a, b) {
        let k = choose|k: int| #[trigger] differs_first_at(a, b, k);
        if k < n {
            assert forall|i: int| 0 <= i < k implies p[i] == q[i] by {
                assert(a[i] == b[i]);
            }
            assert(differs_first_at(p, q, k));
        } else {
            assert forall|i: int| 0 <= i < n implies p[i] == q[i] by {
                assert(a[i] == b[i]);
            }
            assert(p =~= q);
            assert forall|i: int| 0 <= i < k - n implies s[i] == t[i] by {
                assert(a[n + i] == b[n + i]);
            }
            assert(differs_first_at(s, t, k - n));
        }
    }
    if bytes_less(p, q) {
        let k = choose|k: int| #[trigger] differs_first_at(p, q, k);
        assert(differs_first_at(a, b, k));
    }
    if p == q && bytes_less(s, t) {
        let k = choose|k: int| #[trigger] differs_first_at(s, t, k);
        assert forall|i: int| 0 <= i < n + k implies a[i] == b[i] by {
            if i >= n {
                assert(s[i - n] == t[i - n]);
            }
        }
        assert(differs_first_at(a, b, n + k));
    }
}

/// No byte string comes before itself.
pub proof fn lemma_bytes_less_irreflexive(a: Seq<u8>)
    ensures
        !bytes_less(a, a),
{
}

/// Appends the `width` low-order bytes of `v` to `out`, most significant first.
pub fn push_be(out: &mut Vec<u8>, v: u64, width: usize)
    ensures
        final(out)@ == old(out)@ + be_bytes(v as nat, width as nat),
    decreases width,
{
    if width > 0 {
        push_be(out, v / 256, width - 1);
        out.push((v % 256) as u8);
    }
    proof {
        assert(out@ =~= old(out)@ + be_bytes(v as nat, width as nat));
    }
}

/// Byte `i` of `width` is digit number `width - 1 - i` of the number in base 256,
/// counted from the right.
pub proof fn law_be_digit(v: nat, width: nat, i: int)
    requires
        0 <= i < width,
    ensures
        be_bytes(v, width).len() == width,
        be_bytes(v, width)[i] as int == (v as int / power::pow(256, (width - 1 - i) as nat)) % 256,
    decreases width,
{
    lemma_be_bytes_len(v, width);
    let less = (width - 1) as nat;
    lemma_be_bytes_len(v / 256, less);
    if i == less {
        power::lemma_pow0(256);
    } else {
        law_be_digit(v / 256, less, i);
        let rest = (width - 2 - i) as nat;
        power::lemma_pow_positive(256, rest);
        power::lemma_pow_adds(256, 1, rest);
        power::lemma_pow1(256);
        div_mod::lemma_div_denominator(v as int, 256, power::pow(256, rest));
        assert(be_bytes(v, width)[i] == be_bytes(v / 256, less)[i]);
    }
}

/// Byte strings are ordered as words are: the empty one comes before all others, a
/// first byte that differs decides, and one that does not leaves it to the rest.
pub proof fn law_bytes_less_by_first(x: u8, a: Seq<u8>, y: u8, b: Seq<u8>)
    ensures
        bytes_less(Seq::empty(), seq![y] + b),
        !bytes_less(seq![x] + a, Seq::empty()),
        !bytes_less(Seq::empty(), Seq::empty()),
        x < y ==> bytes_less(seq![x] + a, seq![y] + b),
        x > y ==> !bytes_less(seq![x] + a, seq![y] + b),
        x == y ==> (bytes_less(seq![x] + a, seq![y] + b) <==> bytes_less(a, b)),
{
    let none = Seq::<u8>::empty();
    let (s, t) = (seq![x] + a, seq![y] + b);
    assert(differs_first_at(none, t, 0));
    if x < y {
        assert(differs_first_at(s, t, 0));
    }
    if x > y && bytes_less(s, t) {
        let k = choose|k: int| #[trigger] differs_first_at(s, t, k);
        assert(k > 0 ==> s[0] == t[0]);
    }
    if x == y {
        lemma_bytes_order_of_concat(seq![x], a, seq![y], b);
        lemma_bytes_less_irreflexive(seq![x]);
    }
}

} // verus!
