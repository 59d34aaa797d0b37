//! The Toeplitz hash of Receive Side Scaling.
//!
//! The key is an endless row of bits: its bytes from the first to the last,
//! each from its highest bit to its lowest, over and over again. The hash of an
//! input is the exclusive or, over every bit that is set in the input, of the 32
//! key bits that start at the same position.
use vstd::prelude::*;

verus! {

/// Bit `n` of the endless row of key bits.
pub open spec fn key_bit(key: Seq<u8>, n: nat) -> u32 {
    ((key[(n / 8) as int % key.len() as int] >> ((7 - n % 8) as u8)) & 1) as u32
}

/// The first `k` of the key bits that start at bit `n`, as a number.
pub open spec fn window_bits(key: Seq<u8>, n: nat, k: nat) -> u32
    decreases k,
{
    if k == 0 {
        0
    } else {
        (window_bits(key, n, (k - 1) as nat) << 1) | key_bit(key, (n + k - 1) as nat)
    }
}

/// The 32 key bits that start at bit `n`.
pub open spec fn window(key: Seq<u8>, n: nat) -> u32 {
    window_bits(key, n, 32)
}

/// Whether bit `n` of the input is set, the highest bit of each byte first.
pub open spec fn input_bit(input: Seq<u8>, n: nat) -> bool {
    input[(n / 8) as int] & (0x80u8 >> ((n % 8) as u8)) != 0
}

/// What bit `n` of the input adds to the hash.
pub open spec fn bit_share(key: Seq<u8>, input: Seq<u8>, n: nat) -> u32 {
    if input_bit(input, n) {
        window(key, n)
    } else {
        0
    }
}

/// The exclusive or of the shares of the bits from `lo` up to `hi`.
pub open spec fn partial_hash(key: Seq<u8>, input: Seq<u8>, lo: nat, hi: nat) -> u32
    decreases hi,
{
    if hi <= lo {
        0
    } else {
        partial_hash(key, input, lo, (hi - 1) as nat) ^ bit_share(key, input, (hi - 1) as nat)
    }
}

/// The Toeplitz hash of `input` under `key`.
pub open spec fn toeplitz(key: Seq<u8>, input: Seq<u8>) -> u32 {
    partial_hash(key, input, 0, 8 * input.len())
}

proof fn lemma_byte_bit(
    b0: u64,
    b1: u64,
    b2: u64,
    b3: u64,
    b4: u64,
    s: u64,
    k: u64,
)
    requires
        b0 < 256,
        b1 < 256,
        b2 < 256,
        b3 < 256,
        b4 < 256,
        s < 8,
        k < 32,
    ensures
        ({
            let val = (b0 << 32) | (b1 << 24) | (b2 << 16) | (b3 << 8) | b4;
            let c = (s + k) as u64 / 8;
            let r = ((s + k) as u64 % 8) as u64;
            let b = if c == 0 {
                b0
            } else if c == 1 {
                b1
            } else if c == 2 {
                b2
            } else if c == 3 {
                b3
            } else {
                b4
            };
            ((val << ((24 + s) as u64)) >> ((63 - k) as u64)) & 1 == (b >> ((7 - r) as u64)) & 1
        }),
{
    assert(((((b0 << 32) | (b1 << 24) | (b2 << 16) | (b3 << 8) | b4) << ((24 + s) as u64)) >> ((
    63 - k) as u64)) & 1 == ((if (s + k) / 8 == 0 {
        b0
    } else if (s + k) / 8 == 1 {
        b1
    } else if (s + k) / 8 == 2 {
        b2
    } else if (s + k) / 8 == 3 {
        b3
    } else {
        b4
    }) >> ((7 - (s + k) % 8) as u64)) & 1) by (bit_vector)
        requires
            b0 < 256,
            b1 < 256,
            b2 < 256,
            b3 < 256,
            b4 < 256,
            s < 8,
            k < 32,
    ;
}

/// The first `k` key bits from bit `n` on are the first `k` bits of the five
/// key bytes that hold them.
proof fn lemma_window_bits(key: Seq<u8>, n: nat, bytes: Seq<u64>, k: nat)
    requires
        key.len() > 0,
        k <= 32,
        bytes.len() == 5,
        forall|i: int|
            0 <= i < 5 ==> #[trigger] bytes[i] == key[((n / 8) as int + i) % key.len() as int],
    ensures
        ({
            let val = (bytes[0] << 32) | (bytes[1] << 24) | (bytes[2] << 16) | (bytes[3] << 8)
                | bytes[4];
            let t = val << ((24 + n % 8) as u64);
            k > 0 ==> window_bits(key, n, k) == (t >> ((64 - k) as u64)) as u32
        }),
    decreases k,
{
    let val = (bytes[0] << 32) | (bytes[1] << 24) | (bytes[2] << 16) | (bytes[3] << 8) | bytes[4];
    let s = (n % 8) as u64;
    let t = val << ((24 + s) as u64);
    if k > 0 {
        lemma_window_bits(key, n, bytes, (k - 1) as nat);
        let j = (k - 1) as u64;
        lemma_byte_bit(bytes[0], bytes[1], bytes[2], bytes[3], bytes[4], s, j);
        let c = (s + j) as u64 / 8;
        let r = (s + j) as u64 % 8;
        let p = (n + k - 1) as nat;
        assert(p / 8 == n / 8 + c && p % 8 == r) by {
            assert(n == 8 * (n / 8) + s);
            assert(s + j == 8 * c + r);
            assert(p == 8 * (n / 8 + c) + r);
        }
        let b = key[(p / 8) as int % key.len() as int];
        assert(bytes[c as int] == b);
        assert((t >> ((63 - j) as u64)) & 1 == (bytes[c as int] >> ((7 - r) as u64)) & 1);
        let x = bytes[c as int];
        assert(x as u8 == b);
        assert(((x >> ((7 - r) as u64)) & 1) as u32 == ((b >> ((7 - r) as u8)) & 1) as u32)
            by (bit_vector)
            requires
                x == b,
                r < 8,
        ;
        assert(key_bit(key, p) == ((t >> ((63 - j) as u64)) & 1) as u32);
        if k == 1 {
            assert(window_bits(key, n, 0) == 0);
            assert((0u32 << 1) | ((t >> 63) & 1) as u32 == (t >> 63) as u32) by (bit_vector);
        } else {
            assert(window_bits(key, n, j as nat) == (t >> ((64 - j) as u64)) as u32);
            assert((((t >> ((64 - j) as u64)) as u32) << 1) | ((t >> ((63 - j) as u64)) & 1) as u32
                == (t >> ((63 - j) as u64)) as u32) by (bit_vector)
                requires
                    1 <= j < 32,
            ;
        }
    }
}

/// The 32-bit key window that starts at bit `bit` of byte `byte` of the endless
/// row of key bytes.
fn toeplitz_word(key: &[u8], byte: usize, bit: u32) -> (w: u32)
    requires
        key.len() > 0,
        bit < 8,
    ensures
        w == window(key@, (8 * byte + bit) as nat),
{
    let len: usize = key.len();
    let i0: usize = byte % len;
    let i1: usize = if i0 + 1 == len { 0 } else { i0 + 1 };
    let i2: usize = if i1 + 1 == len { 0 } else { i1 + 1 };
    let i3: usize = if i2 + 1 == len { 0 } else { i2 + 1 };
    let i4: usize = if i3 + 1 == len { 0 } else { i3 + 1 };
    let b0: u64 = key[i0] as u64;
    let b1: u64 = key[i1] as u64;
    let b2: u64 = key[i2] as u64;
    let b3: u64 = key[i3] as u64;
    let b4: u64 = key[i4] as u64;
    let val: u64 = (b0 << 32) | (b1 << 24) | (b2 << 16) | (b3 << 8) | b4;
    let w: u32 = (val >> (8 - bit)) as u32;
    proof {
        let n = (8 * byte + bit) as nat;
        let bytes = seq![b0, b1, b2, b3, b4];
        assert(n / 8 == byte && n % 8 == bit);
        lemma_step(byte as int, len as int);
        lemma_step(byte + 1, len as int);
        lemma_step(byte + 2, len as int);
        lemma_step(byte + 3, len as int);
        lemma_window_bits(key@, n, bytes, 32);
        assert(((val << ((24 + bit) as u64)) >> 32) as u32 == (val >> ((8 - bit) as u64)) as u32)
            by (bit_vector)
            requires
                bit < 8,
        ;
    }
    w
}

/// The position after `x` in a ring of `m` positions.
proof fn lemma_step(x: int, m: int)
    requires
        m > 0,
        x >= 0,
    ensures
        (x + 1) % m == (if x % m + 1 == m { 0 } else { x % m + 1 }),
{
    vstd::arithmetic::div_mod::lemma_fundamental_div_mod(x, m);
    let q = x / m;
    if x % m + 1 == m {
        assert(x + 1 == (q + 1) * m) by (nonlinear_arith)
            requires
                x == m * q + x % m,
                x % m + 1 == m,
        ;
        vstd::arithmetic::div_mod::lemma_mod_multiples_basic(q + 1, m);
    } else {
        assert(x + 1 == q * m + (x % m + 1)) by (nonlinear_arith)
            requires
                x == m * q + x % m,
        ;
        vstd::arithmetic::div_mod::lemma_fundamental_div_mod_converse(x + 1, m, q, x % m + 1);
    }
}

/// The exclusive or of the shares of the first `k` bits of a byte that stands at
/// place `at` of the input.
pub open spec fn byte_bits_share(key: Seq<u8>, byte: u8, at: nat, k: nat) -> u32
    decreases k,
{
    if k == 0 {
        0
    } else {
        byte_bits_share(key, byte, at, (k - 1) as nat) ^ (if byte & (0x80u8 >> ((k - 1) as u8))
            != 0 {
            window(key, (8 * at + k - 1) as nat)
        } else {
            0
        })
    }
}

/// What a byte that stands at place `at` of the input adds to the hash.
pub open spec fn byte_share(key: Seq<u8>, byte: u8, at: nat) -> u32 {
    byte_bits_share(key, byte, at, 8)
}

proof fn lemma_xor_zero(a: u32)
    ensures
        a ^ 0 == a,
        0 ^ a == a,
{
    assert(a ^ 0 == a && 0 ^ a == a) by (bit_vector);
}

proof fn lemma_xor_assoc(a: u32, b: u32, c: u32)
    ensures
        (a ^ b) ^ c == a ^ (b ^ c),
{
    assert((a ^ b) ^ c == a ^ (b ^ c)) by (bit_vector);
}

/// A row of input bits hashes to the exclusive or of its two parts.
pub proof fn lemma_partial_hash_splits(key: Seq<u8>, input: Seq<u8>, lo: nat, mid: nat, hi: nat)
    requires
        lo <= mid <= hi,
    ensures
        partial_hash(key, input, lo, hi) == partial_hash(key, input, lo, mid) ^ partial_hash(
            key,
            input,
            mid,
            hi,
        ),
    decreases hi,
{
    if mid == hi {
        lemma_xor_zero(partial_hash(key, input, lo, mid));
    } else {
        let last = (hi - 1) as nat;
        lemma_partial_hash_splits(key, input, lo, mid, last);
        lemma_xor_assoc(
            partial_hash(key, input, lo, mid),
            partial_hash(key, input, mid, last),
            bit_share(key, input, last),
        );
    }
}

/// Two inputs that agree on the bytes of a row of bits agree on its hash.
pub proof fn lemma_partial_hash_local(
    key: Seq<u8>,
    a: Seq<u8>,
    b: Seq<u8>,
    lo: nat,
    hi: nat,
)
    requires
        forall|i: int| lo <= 8 * i + 7 && 8 * i < hi ==> #[trigger] a[i] == b[i],
    ensures
        partial_hash(key, a, lo, hi) == partial_hash(key, b, lo, hi),
    decreases hi,
{
    if lo < hi {
        lemma_partial_hash_local(key, a, b, lo, (hi - 1) as nat);
        let i = ((hi - 1) / 8) as int;
        assert(a[i] == b[i]);
    }
}

/// The bits of one byte of the input hash to the share of that byte.
pub proof fn lemma_partial_hash_byte(key: Seq<u8>, input: Seq<u8>, at: nat, k: nat)
    requires
        k <= 8,
    ensures
        partial_hash(key, input, 8 * at, 8 * at + k) == byte_bits_share(
            key,
            input[at as int],
            at,
            k,
        ),
    decreases k,
{
    if k > 0 {
        lemma_partial_hash_byte(key, input, at, (k - 1) as nat);
        let n = (8 * at + k - 1) as nat;
        assert(n / 8 == at && n % 8 == k - 1);
    }
}

/// A zero byte adds nothing to the hash.
pub proof fn lemma_zero_byte(key: Seq<u8>, at: nat, k: nat)
    requires
        k <= 8,
    ensures
        byte_bits_share(key, 0, at, k) == 0,
    decreases k,
{
    if k > 0 {
        lemma_zero_byte(key, at, (k - 1) as nat);
        let m = 0x80u8 >> ((k - 1) as u8);
        assert(0u8 & m == 0) by (bit_vector);
        lemma_xor_zero(0);
    }
}

/// The share of a byte, bit by bit.
pub fn byte_hash(key: &[u8], byte: u8, at: usize) -> (h: u32)
    requires
        key.len() > 0,
    ensures
        h == byte_share(key@, byte, at as nat),
{
    let mut hash: u32 = 0;
    let mut b: u32 = 0;
    while b < 8
        invariant
            key.len() > 0,
            b <= 8,
            hash == byte_bits_share(key@, byte, at as nat, b as nat),
        decreases 8 - b,
    {
        if byte & (0x80u8 >> b) != 0 {
            hash = hash ^ toeplitz_word(key, at, b);
        } else {
            proof {
                lemma_xor_zero(hash);
            }
        }
        b = b + 1;
    }
    hash
}

/// The Toeplitz hash that Receive Side Scaling puts on the addresses and ports
/// of a connection.
///
/// For every bit that is set in `input`, highest bit first, the 32 key bits that
/// start at the same position go into the hash by exclusive or. Past its end the
/// key starts over.
pub fn toeplitz_hash(key: &[u8], input: &[u8]) -> (h: u32)
    requires
        key.len() > 0,
    ensures
        h == toeplitz(key@, input@),
{
    let mut hash: u32 = 0;
    let mut i: usize = 0;
    while i < input.len()
        invariant
            key.len() > 0,
            i <= input.len(),
            hash == partial_hash(key@, input@, 0, 8 * i as nat),
        decreases input.len() - i,
    {
        let byte: u8 = input[i];
        proof {
            lemma_partial_hash_splits(key@, input@, 0, 8 * i as nat, 8 * i as nat + 8);
            lemma_partial_hash_byte(key@, input@, i as nat, 8);
            lemma_zero_byte(key@, i as nat, 8);
            lemma_xor_zero(hash);
        }
        if byte != 0 {
            hash = hash ^ byte_hash(key, byte, i);
        }
        i = i + 1;
    }
    hash
}

/// The bytes of two inputs of one length, combined by exclusive or.
pub open spec fn xor_bytes(a: Seq<u8>, b: Seq<u8>) -> Seq<u8> {
    Seq::new(a.len(), |i: int| a[i] ^ b[i])
}

proof fn lemma_partial_hash_linear(key: Seq<u8>, a: Seq<u8>, b: Seq<u8>, hi: nat)
    requires
        a.len() == b.len(),
        hi <= 8 * a.len(),
    ensures
        partial_hash(key, xor_bytes(a, b), 0, hi) == partial_hash(key, a, 0, hi) ^ partial_hash(
            key,
            b,
            0,
            hi,
        ),
    decreases hi,
{
    if hi == 0 {
        lemma_xor_zero(0);
    } else {
        let n = (hi - 1) as nat;
        lemma_partial_hash_linear(key, a, b, n);
        let x = a[(n / 8) as int];
        let y = b[(n / 8) as int];
        let k = (n % 8) as u8;
        assert(((x ^ y) & (0x80u8 >> k) != 0) == ((x & (0x80u8 >> k) != 0) != (y & (0x80u8 >> k)
            != 0))) by (bit_vector)
            requires
                k < 8,
        ;
        let pa = partial_hash(key, a, 0, n);
        let pb = partial_hash(key, b, 0, n);
        let w = window(key, n);
        assert((pa ^ pb) ^ w == (pa ^ w) ^ pb && (pa ^ pb) ^ w == pa ^ (pb ^ w) && (pa ^ w) ^ (pb
            ^ w) == pa ^ pb) by (bit_vector);
        lemma_xor_zero(pa ^ pb);
        lemma_xor_zero(pa);
        lemma_xor_zero(pb);
    }
}

/// The hash is linear: it maps the exclusive or of two inputs of one length to
/// the exclusive or of their hashes.
pub proof fn law_hash_is_linear(key: Seq<u8>, a: Seq<u8>, b: Seq<u8>)
    requires
        a.len() == b.len(),
    ensures
        toeplitz(key, xor_bytes(a, b)) == toeplitz(key, a) ^ toeplitz(key, b),
{
    lemma_partial_hash_linear(key, a, b, 8 * a.len());
}

/// An input whose only set bit is bit `n` hashes to the 32 key bits from bit `n`
/// on.
pub proof fn law_single_bit(key: Seq<u8>, input: Seq<u8>, n: nat)
    requires
        n < 8 * input.len(),
        forall|m: nat| m < 8 * input.len() ==> (#[trigger] input_bit(input, m) <==> m == n),
    ensures
        toeplitz(key, input) == window(key, n),
{
    lemma_single_bit(key, input, n, 8 * input.len());
}

proof fn lemma_single_bit(key: Seq<u8>, input: Seq<u8>, n: nat, hi: nat)
    requires
        hi <= 8 * input.len(),
        forall|m: nat| m < 8 * input.len() ==> (#[trigger] input_bit(input, m) <==> m == n),
    ensures
        partial_hash(key, input, 0, hi) == (if n < hi {
            window(key, n)
        } else {
            0
        }),
    decreases hi,
{
    if hi > 0 {
        let m = (hi - 1) as nat;
        lemma_single_bit(key, input, n, m);
        assert(input_bit(input, m) <==> m == n);
        lemma_xor_zero(partial_hash(key, input, 0, m));
        lemma_xor_zero(window(key, m));
    }
}

/// The window at bit `n` is cut out of five bytes of the key, one behind the other and
/// around its end: of their 40 bits, the 32 that follow the first `n % 8`.
pub proof fn law_window_is_cut_out_of_the_key(key: Seq<u8>, n: nat)
    requires
        key.len() > 0,
    ensures
        ({
            let len = key.len() as int;
            let i = (n / 8) as int;
            let b0 = key[i % len] as u64;
            let b1 = key[(i + 1) % len] as u64;
            let b2 = key[(i + 2) % len] as u64;
            let b3 = key[(i + 3) % len] as u64;
            let b4 = key[(i + 4) % len] as u64;
            let all = (b0 << 32) | (b1 << 24) | (b2 << 16) | (b3 << 8) | b4;
            window(key, n) == (all >> ((8 - n % 8) as u64)) as u32
        }),
{
    let len = key.len() as int;
    let i = (n / 8) as int;
    let b0 = key[i % len] as u64;
    let b1 = key[(i + 1) % len] as u64;
    let b2 = key[(i + 2) % len] as u64;
    let b3 = key[(i + 3) % len] as u64;
    let b4 = key[(i + 4) % len] as u64;
    let bytes = seq![b0, b1, b2, b3, b4];
    let val = (b0 << 32) | (b1 << 24) | (b2 << 16) | (b3 << 8) | b4;
    let bit = (n % 8) as u64;
    lemma_window_bits(key, n, bytes, 32);
    assert(((val << ((24 + bit) as u64)) >> 32) as u32 == (val >> ((8 - bit) as u64)) as u32)
        by (bit_vector)
        requires
            bit < 8,
    ;
}

/// Bit `j` of byte `i`, the highest first, is bit `8 * i + j` of an input.
pub proof fn law_bits_of_an_input(input: Seq<u8>, i: nat, j: nat)
    requires
        i < input.len(),
        j < 8,
    ensures
        input_bit(input, 8 * i + j) <==> (input[i as int] >> ((7 - j) as u8)) % 2 == 1,
{
    let x = input[i as int];
    let k = j as u8;
    assert((8 * i + j) / 8 == i && (8 * i + j) % 8 == j);
    assert((x & (0x80u8 >> k) != 0) == ((x >> ((7 - k) as u8)) % 2 == 1)) by (bit_vector)
        requires
            k < 8,
    ;
}

/// The key starts over behind its last bit.
pub proof fn law_key_starts_over(key: Seq<u8>, n: nat)
    requires
        key.len() > 0,
    ensures
        window(key, n + 8 * key.len()) == window(key, n),
{
    lemma_windows_repeat(key, n, 32);
}

proof fn lemma_windows_repeat(key: Seq<u8>, n: nat, k: nat)
    requires
        key.len() > 0,
    ensures
        window_bits(key, n + 8 * key.len(), k) == window_bits(key, n, k),
    decreases k,
{
    if k > 0 {
        lemma_windows_repeat(key, n, (k - 1) as nat);
        let p = (n + k - 1) as nat;
        let m = (p + 8 * key.len()) as nat;
        assert(m / 8 == p / 8 + key.len() && m % 8 == p % 8);
        vstd::arithmetic::div_mod::lemma_mod_add_multiples_vanish((p / 8) as int, key.len() as int);
    }
}

/// Nothing hashes to 0, and so does any number of zero bytes.
pub proof fn law_zeros_hash_to_zero(key: Seq<u8>, input: Seq<u8>)
    requires
        forall|i: int| 0 <= i < input.len() ==> #[trigger] input[i] == 0,
    ensures
        toeplitz(key, input) == 0,
{
    lemma_zeros(key, input, 8 * input.len());
}

proof fn lemma_zeros(key: Seq<u8>, input: Seq<u8>, hi: nat)
    requires
        hi <= 8 * input.len(),
        forall|i: int| 0 <= i < input.len() ==> #[trigger] input[i] == 0,
    ensures
        partial_hash(key, input, 0, hi) == 0,
    decreases hi,
{
    if hi > 0 {
        let n = (hi - 1) as nat;
        lemma_zeros(key, input, n);
        let m = 0x80u8 >> ((n % 8) as u8);
        assert(input[(n / 8) as int] == 0);
        assert(0u8 & m == 0) by (bit_vector);
        lemma_xor_zero(0);
    }
}

/// What a byte adds to the hash is the hash of an input in which it stands at its place and
/// nothing but zeros before it.
pub proof fn law_share_of_a_byte(key: Seq<u8>, byte: u8, at: nat)
    ensures
        byte_share(key, byte, at) == toeplitz(
            key,
            Seq::new(
                at + 1,
                |i: int|
                    if i == at {
                        byte
                    } else {
                        0
                    },
            ),
        ),
{
    let input: Seq<u8> = Seq::new(
        at + 1,
        |i: int|
            if i == at {
                byte
            } else {
                0
            },
    );
    lemma_partial_hash_splits(key, input, 0, 8 * at, 8 * at + 8);
    lemma_partial_hash_byte(key, input, at, 8);
    lemma_partial_hash_local(key, input.update(at as int, 0), input, 0, 8 * at);
    lemma_zeros(key, input.update(at as int, 0), 8 * at);
    lemma_xor_zero(byte_share(key, byte, at));
}

} // verus!
