use vstd::prelude::*;

verus! {

broadcast use vstd::slice::group_slice_axioms;

/// `256` raised to `len`: one more than the largest value that `len` bytes hold.
pub open spec fn byte_span(len: nat) -> nat
    decreases len,
{
    if len == 0 {
        1
    } else {
        256 * byte_span((len - 1) as nat)
    }
}

/// The lowest `len` bytes of `n`, most significant first.
pub open spec fn be_bytes(n: nat, len: nat) -> Seq<u8>
    decreases len,
{
    if len == 0 {
        Seq::empty()
    } else {
        be_bytes(n / 256, (len - 1) as nat).push((n % 256) as u8)
    }
}

/// The number that the bytes `s` spell, most significant first.
pub open spec fn be_value(s: Seq<u8>) -> nat
    decreases s.len(),
{
    if s.len() == 0 {
        0
    } else {
        be_value(s.drop_last()) * 256 + s.last() as nat
    }
}

/// The sixteen bytes that hold a `u128`.
pub open spec fn word(n: u128) -> Seq<u8> {
    be_bytes(n as nat, 16)
}

pub proof fn lemma_be_bytes_len(n: nat, len: nat)
    ensures
        be_bytes(n, len).len() == len,
    decreases len,
{
    if len > 0 {
        lemma_be_bytes_len(n / 256, (len - 1) as nat);
    }
}

pub proof fn lemma_be_value_bound(s: Seq<u8>)
    ensures
        be_value(s) < byte_span(s.len()),
    decreases s.len(),
{
    if s.len() > 0 {
        let p = byte_span((s.len() - 1) as nat);
        let v = be_value(s.drop_last());
        lemma_be_value_bound(s.drop_last());
        let b = s.last() as nat;
        assert(v * 256 + b < 256 * p) by (nonlinear_arith)
            requires
                v < p,
                b < 256,
        ;
    }
}

pub proof fn lemma_be_round_trip(n: nat, len: nat)
    requires
        n < byte_span(len),
    ensures
        be_value(be_bytes(n, len)) == n,
    decreases len,
{
    if len > 0 {
        let p = byte_span((len - 1) as nat);
        assert(n / 256 < p) by (nonlinear_arith)
            requires
                n < 256 * p,
        ;
        lemma_be_round_trip(n / 256, (len - 1) as nat);
        let s = be_bytes(n, len);
        assert(s.drop_last() =~= be_bytes(n / 256, (len - 1) as nat));
        assert(n == (n / 256) * 256 + n % 256) by (nonlinear_arith);
    }
}

pub proof fn lemma_word_span()
    ensures
        byte_span(16) == u128::MAX + 1,
{
    reveal_with_fuel(byte_span, 17);
}

pub proof fn lemma_word_round_trip(n: u128)
    ensures
        word(n).len() == 16,
        be_value(word(n)) == n,
{
    lemma_word_span();
    lemma_be_bytes_len(n as nat, 16);
    lemma_be_round_trip(n as nat, 16);
}

/// Two numbers with the same sixteen bytes are the same number.
pub proof fn lemma_word_injective(a: u128, b: u128)
    ensures
        word(a) == word(b) <==> a == b,
{
    lemma_word_round_trip(a);
    lemma_word_round_trip(b);
}

/// Appends the `len` lowest bytes of `n` to `out`, most significant first.
fn push_be(out: &mut Vec<u8>, n: u128, len: usize)
    requires
        len <= 16,
    ensures
        final(out)@ == old(out)@ + be_bytes(n as nat, len as nat),
    decreases len,
{
    if len == 0 {
        assert(old(out)@ + be_bytes(n as nat, 0) =~= old(out)@);
    } else {
        push_be(out, n / 256, len - 1);
        out.push((n % 256) as u8);
        assert(final(out)@ =~= old(out)@ + be_bytes(n as nat, len as nat));
    }
}

/// Appends the sixteen bytes of `n` to `out`.
pub fn push_word(out: &mut Vec<u8>, n: u128)
    ensures
        final(out)@ == old(out)@ + word(n),
{
    push_be(out, n, 16);
}

/// Reads the sixteen bytes of `b` that start at `start` as a `u128`.
pub fn read_word(b: &[u8], start: usize) -> (r: u128)
    requires
        start + 16 <= b@.len(),
    ensures
        r == be_value(b@.subrange(start as int, start + 16)),
{
    let len: usize = b.len();
    let end: usize = start + 16;
    let mut acc: u128 = 0;
    let mut i: usize = start;
    while i < end
        invariant
            start <= i <= end,
            end == start + 16,
            end <= len == b@.len(),
            acc == be_value(b@.subrange(start as int, i as int)),
        decreases end - i,
    {
        let ghost prev = b@.subrange(start as int, i as int);
        let ghost next = b@.subrange(start as int, i + 1);
        proof {
            assert(next.drop_last() =~= prev);
            lemma_be_value_bound(next);
            lemma_word_span();
            assert(byte_span(next.len()) <= byte_span(16)) by {
                lemma_byte_span_monotone(next.len(), 16);
            }
        }
        acc = acc * 256 + b[i] as u128;
        i = i + 1;
    }
    acc
}

pub proof fn lemma_byte_span_monotone(a: nat, b: nat)
    requires
        a <= b,
    ensures
        byte_span(a) <= byte_span(b),
    decreases b,
{
    if a < b {
        lemma_byte_span_monotone(a, (b - 1) as nat);
    }
}

} // verus!
