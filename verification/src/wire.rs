use vstd::prelude::*;

verus! {

/// Every variable-length integer is below this: two to the 62.
pub const VARINT_LIMIT: u64 = 0x4000_0000_0000_0000;

/// The number that `bytes` spell in base 256, most significant byte first.
pub open spec fn be_value(bytes: Seq<u8>) -> nat
    decreases bytes.len(),
{
    if bytes.len() == 0 {
        0
    } else {
        be_value(bytes.drop_last()) * 256 + bytes.last() as nat
    }
}

/// 256 to the power `n`.
pub open spec fn pow256(n: nat) -> nat
    decreases n,
{
    if n == 0 {
        1
    } else {
        256 * pow256((n - 1) as nat)
    }
}

/// How many bytes a variable-length integer takes, as its first byte says
/// in its two highest bits: 1, 2, 4 or 8.
pub open spec fn varint_len(first: u8) -> nat {
    if first < 0x40 {
        1
    } else if first < 0x80 {
        2
    } else if first < 0xc0 {
        4
    } else {
        8
    }
}

/// The value of the variable-length integer that `bytes` begins with: its
/// bytes read most significant first, the two length bits of the first byte
/// cleared. Meant for `bytes` that holds the whole integer.
pub open spec fn varint_value(bytes: Seq<u8>) -> nat
    recommends
        bytes.len() >= 1,
        bytes.len() >= varint_len(bytes[0]),
{
    be_value(bytes.subrange(0, varint_len(bytes[0]) as int).update(0, (bytes[0] % 0x40) as u8))
}

/// The variable-length integer that starts at `at`, where `buf` holds all of
/// it: its value, and the offset of the byte after it.
pub open spec fn varint_at(buf: Seq<u8>, at: int) -> Option<(nat, int)>
    recommends
        0 <= at < buf.len(),
{
    if at + varint_len(buf[at]) <= buf.len() {
        Some((varint_value(buf.subrange(at, buf.len() as int)), at + varint_len(buf[at])))
    } else {
        None
    }
}

/// The powers of 256 that this module meets.
pub proof fn lemma_pow256_values()
    ensures
        pow256(0) == 1,
        pow256(1) == 0x100,
        pow256(2) == 0x1_0000,
        pow256(3) == 0x100_0000,
        pow256(4) == 0x1_0000_0000,
        pow256(7) == 0x100_0000_0000_0000,
        pow256(8) == 0x1_0000_0000_0000_0000,
{
    reveal_with_fuel(pow256, 9);
}

/// A higher power of 256 is no smaller, and none is zero.
pub proof fn lemma_pow256_grows(a: nat, b: nat)
    requires
        a <= b,
    ensures
        1 <= pow256(a) <= pow256(b),
    decreases b,
{
    if b == 0 {
    } else if a == b {
        lemma_pow256_grows((a - 1) as nat, (b - 1) as nat);
    } else {
        lemma_pow256_grows(a, (b - 1) as nat);
    }
}

/// A number of `n` bytes is below 256 to the `n`; more exactly, it is below
/// what the first byte allows.
pub proof fn lemma_be_value_bound(bytes: Seq<u8>)
    ensures
        be_value(bytes) < pow256(bytes.len()),
        bytes.len() >= 1 ==> be_value(bytes) < (bytes[0] + 1) * pow256((bytes.len() - 1) as nat),
        bytes.len() >= 1 ==> be_value(bytes) >= bytes[0] * pow256((bytes.len() - 1) as nat),
    decreases bytes.len(),
{
    if bytes.len() == 0 {
    } else {
        let front = bytes.drop_last();
        let last = bytes.last() as nat;
        assert(be_value(bytes) == be_value(front) * 256 + last);
        if bytes.len() == 1 {
            assert(be_value(front) == 0);
            assert(pow256(0) == 1);
            assert(pow256(1) == 256 * pow256(0));
            assert((bytes[0] + 1) * 1 == bytes[0] + 1);
            assert(bytes[0] * 1 == bytes[0] as int);
        } else {
            lemma_be_value_bound(front);
            assert(front[0] == bytes[0]);
            let first = bytes[0] as nat;
            let p = pow256((front.len() - 1) as nat);
            let v = be_value(front);
            assert(pow256(front.len()) == 256 * p);
            assert(pow256(bytes.len()) == 256 * pow256(front.len()));
            assert(v * 256 + 256 <= (first + 1) * (256 * p)) by (nonlinear_arith)
                requires
                    v + 1 <= (first + 1) * p,
            ;
            assert(v * 256 >= first * (256 * p)) by (nonlinear_arith)
                requires
                    v >= first * p,
            ;
            assert(v * 256 + 256 <= 256 * pow256(front.len())) by (nonlinear_arith)
                requires
                    v + 1 <= pow256(front.len()),
            ;
        }
    }
}

/// Four bytes spell their number place by place.
pub proof fn lemma_be_value_of_four(bytes: Seq<u8>)
    requires
        bytes.len() == 4,
    ensures
        be_value(bytes) == bytes[0] * 0x100_0000 + bytes[1] * 0x1_0000 + bytes[2] * 0x100
            + bytes[3],
{
    let three = bytes.drop_last();
    let two = three.drop_last();
    let one = two.drop_last();
    assert(one.drop_last().len() == 0);
    assert(be_value(one.drop_last()) == 0);
    assert(be_value(one) == be_value(one.drop_last()) * 256 + one.last());
    assert(be_value(one) == bytes[0]);
    assert(be_value(two) == be_value(one) * 256 + bytes[1]);
    assert(be_value(three) == be_value(two) * 256 + bytes[2]);
    assert(be_value(bytes) == be_value(three) * 256 + bytes[3]);
}

/// Reading one more byte: the value so far moves up by one byte and the new
/// byte is added.
pub proof fn lemma_be_value_step(bytes: Seq<u8>, n: int)
    requires
        0 <= n < bytes.len(),
    ensures
        be_value(bytes.subrange(0, n + 1)) == be_value(bytes.subrange(0, n)) * 256 + bytes[n],
{
    let s = bytes.subrange(0, n + 1);
    assert(s.drop_last() == bytes.subrange(0, n));
    assert(s.last() == bytes[n]);
}

/// Reads the `n` bytes at `at` as one number, most significant byte first.
pub(crate) fn read_be(buf: &[u8], at: usize, n: usize) -> (r: u64)
    requires
        n <= 8,
        at + n <= buf@.len(),
    ensures
        r == be_value(buf@.subrange(at as int, at + n)),
{
    let total: usize = buf.len();
    let ghost bytes = buf@.subrange(at as int, at + n);
    let mut acc: u64 = 0;
    let mut i: usize = 0;
    while i < n
        invariant
            i <= n <= 8,
            at + n <= buf@.len() == total,
            bytes == buf@.subrange(at as int, at + n),
            acc == be_value(bytes.subrange(0, i as int)),
        decreases n - i,
    {
        proof {
            lemma_be_value_bound(bytes.subrange(0, i as int));
            lemma_pow256_grows(i as nat, 7);
            lemma_pow256_values();
            lemma_be_value_step(bytes, i as int);
        }
        acc = acc * 256 + buf[at + i] as u64;
        i += 1;
    }
    assert(bytes.subrange(0, n as int) == bytes);
    acc
}

/// The length of the variable-length integer whose first byte is `first`.
pub(crate) fn varint_len_of(first: u8) -> (n: usize)
    ensures
        n == varint_len(first),
{
    if first < 0x40 {
        1
    } else if first < 0x80 {
        2
    } else if first < 0xc0 {
        4
    } else {
        8
    }
}

/// A variable-length integer is below `VARINT_LIMIT`.
pub proof fn lemma_varint_value_bound(bytes: Seq<u8>)
    requires
        bytes.len() >= 1,
        bytes.len() >= varint_len(bytes[0]),
    ensures
        varint_value(bytes) < VARINT_LIMIT,
{
    let n = varint_len(bytes[0]);
    let low = (bytes[0] % 0x40) as u8;
    let masked = bytes.subrange(0, n as int).update(0, low);
    lemma_be_value_bound(masked);
    lemma_pow256_grows((n - 1) as nat, 7);
    lemma_pow256_values();
    assert((masked[0] + 1) * pow256((n - 1) as nat) <= 64 * pow256(7)) by (nonlinear_arith)
        requires
            masked[0] + 1 <= 64,
            1 <= pow256((n - 1) as nat) <= pow256(7),
    ;
}

/// Reads the variable-length integer at `at`: its value and the offset of the
/// byte after it, or `None` where the buffer ends inside it.
pub(crate) fn read_varint(buf: &[u8], at: usize) -> (r: Option<(u64, usize)>)
    requires
        at < buf@.len(),
    ensures
        match varint_at(buf@, at as int) {
            Some((value, end)) => r matches Some((v, e)) && v == value && e == end,
            None => r is None,
        },
{
    let first: u8 = buf[at];
    let n: usize = varint_len_of(first);
    let total: usize = buf.len();
    if total - at < n {
        return None;
    }
    let ghost whole = buf@.subrange(at as int, buf@.len() as int);
    let ghost low = (first % 0x40) as u8;
    let ghost masked = whole.subrange(0, n as int).update(0, low);
    let mut acc: u64 = (first & 0x3f) as u64;
    let mut i: usize = 1;
    proof {
        assert(first & 0x3f == first % 0x40) by (bit_vector);
        assert(masked.subrange(0, 1).drop_last().len() == 0);
        reveal_with_fuel(be_value, 2);
        assert(be_value(masked.subrange(0, 1)) == low);
    }
    while i < n
        invariant
            1 <= i <= n <= 8,
            at + n <= buf@.len() == total,
            whole == buf@.subrange(at as int, buf@.len() as int),
            masked == whole.subrange(0, n as int).update(0, low),
            acc == be_value(masked.subrange(0, i as int)),
        decreases n - i,
    {
        proof {
            lemma_be_value_bound(masked.subrange(0, i as int));
            lemma_pow256_grows(i as nat, 7);
            lemma_pow256_values();
            lemma_be_value_step(masked, i as int);
            assert(masked[i as int] == buf@[at + i]);
        }
        acc = acc * 256 + buf[at + i] as u64;
        i += 1;
    }
    proof {
        assert(masked.subrange(0, n as int) == masked);
        assert(whole[0] == first);
        lemma_varint_value_bound(whole);
    }
    Some((acc, at + n))
}

/// The `n` bytes that spell `value` in base 256, most significant byte first.
/// Meant for a `value` below 256 to the `n`.
pub open spec fn be_bytes(value: nat, n: nat) -> Seq<u8>
    decreases n,
{
    if n == 0 {
        Seq::empty()
    } else {
        be_bytes(value / 256, (n - 1) as nat).push((value % 256) as u8)
    }
}

/// The shortest variable-length integer that holds `value`: the value in 1,
/// 2, 4 or 8 bytes, with the length in the two highest bits of the first.
/// Meant for a `value` below `VARINT_LIMIT`.
pub open spec fn varint_bytes(value: nat) -> Seq<u8> {
    if value < 0x40 {
        be_bytes(value, 1)
    } else if value < 0x4000 {
        be_bytes(value + 0x40 * pow256(1), 2)
    } else if value < 0x4000_0000 {
        be_bytes(value + 0x80 * pow256(3), 4)
    } else {
        be_bytes(value + 0xc0 * pow256(7), 8)
    }
}

/// Spelling a number and reading it back gives the number.
pub proof fn lemma_be_bytes_value(value: nat, n: nat)
    requires
        value < pow256(n),
    ensures
        be_bytes(value, n).len() == n,
        be_value(be_bytes(value, n)) == value,
    decreases n,
{
    if n > 0 {
        lemma_be_bytes_value(value / 256, (n - 1) as nat);
        let front = be_bytes(value / 256, (n - 1) as nat);
        let all = be_bytes(value, n);
        assert(all.drop_last() == front);
        assert(all.last() == (value % 256) as u8);
    }
}

/// Adding `tag` times 256 to the `n - 1` to a number adds `tag` to the first
/// of its `n` bytes and leaves the others.
pub proof fn lemma_be_bytes_tag(value: nat, n: nat, tag: nat)
    requires
        n >= 1,
        value < pow256(n),
        be_bytes(value, n)[0] + tag < 256,
    ensures
        be_bytes(value + tag * pow256((n - 1) as nat), n) == be_bytes(value, n).update(
            0,
            (be_bytes(value, n)[0] + tag) as u8,
        ),
    decreases n,
{
    lemma_be_bytes_value(value, n);
    let p = pow256((n - 1) as nat);
    let plain = be_bytes(value, n);
    let tagged = be_bytes(value + tag * p, n);
    if n == 1 {
        assert(p == 1);
        assert(tag * p == tag) by (nonlinear_arith)
            requires
                p == 1,
        ;
        reveal_with_fuel(be_bytes, 2);
        assert(plain =~= seq![(value % 256) as u8]);
        assert(tagged =~= seq![((value + tag) % 256) as u8]);
        assert(value < 256);
        assert(tagged =~= plain.update(0, (plain[0] + tag) as u8));
    } else {
        let q = pow256((n - 2) as nat);
        assert(p == 256 * q);
        assert(tag * p == (tag * q) * 256) by (nonlinear_arith)
            requires
                p == 256 * q,
        ;
        assert((value + (tag * q) * 256) / 256 == value / 256 + tag * q);
        assert((value + (tag * q) * 256) % 256 == value % 256);
        lemma_be_bytes_value(value / 256, (n - 1) as nat);
        let front = be_bytes(value / 256, (n - 1) as nat);
        assert(plain == front.push((value % 256) as u8));
        assert(plain[0] == front[0]);
        lemma_be_bytes_tag(value / 256, (n - 1) as nat, tag);
        assert(tagged == be_bytes(value / 256 + tag * q, (n - 1) as nat).push((value % 256) as u8));
        assert(tagged =~= plain.update(0, (plain[0] + tag) as u8));
    }
}

/// The shortest variable-length integer of `value` reads back as `value`,
/// wherever in a buffer it stands.
pub proof fn lemma_varint_round_trip(buf: Seq<u8>, at: int, value: nat)
    requires
        value < VARINT_LIMIT,
        0 <= at,
        at + varint_bytes(value).len() <= buf.len(),
        buf.subrange(at, at + varint_bytes(value).len()) == varint_bytes(value),
    ensures
        1 <= varint_bytes(value).len() <= 8,
        varint_at(buf, at) == Some((value, at + varint_bytes(value).len())),
{
    lemma_pow256_values();
    let n: nat = if value < 0x40 {
        1
    } else if value < 0x4000 {
        2
    } else if value < 0x4000_0000 {
        4
    } else {
        8
    };
    let tag: nat = if value < 0x40 {
        0
    } else if value < 0x4000 {
        0x40
    } else if value < 0x4000_0000 {
        0x80
    } else {
        0xc0
    };
    let p = pow256((n - 1) as nat);
    assert(tag * p == 0 || tag * p == 0x40 * pow256(1) || tag * p == 0x80 * pow256(3) || tag * p
        == 0xc0 * pow256(7));
    assert(value + 0 == value);
    let bytes = varint_bytes(value);
    assert(bytes == be_bytes(value + tag * p, n));
    let plain = be_bytes(value, n);
    assert(value < 64 * p);
    assert(64 * p <= pow256(n));
    lemma_be_bytes_value(value, n);
    lemma_be_value_bound(plain);
    assert(plain[0] < 64) by {
        if plain[0] >= 64 {
            assert(plain[0] * p >= 64 * p) by (nonlinear_arith)
                requires
                    plain[0] >= 64,
                    p >= 0,
            ;
        }
    }
    lemma_be_bytes_tag(value, n, tag);
    assert(bytes[0] == plain[0] + tag);
    assert(bytes.len() == n);
    assert(varint_len(bytes[0]) == n);
    assert(buf[at] == buf.subrange(at, at + n)[0]);
    let rest = buf.subrange(at, buf.len() as int);
    assert(rest[0] == bytes[0]);
    assert(rest.subrange(0, n as int) == bytes);
    assert((bytes[0] % 0x40) as u8 == plain[0]);
    assert(bytes.update(0, plain[0]) == plain);
}

} // verus!
