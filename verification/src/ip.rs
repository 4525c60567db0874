//! IP addresses as plain values: parsing, formatting and masking.
//!
//! An address is held as its numeric value, 32 bits for IPv4 and 128 bits for
//! IPv6. Text forms are byte strings: dotted decimal for IPv4, colon-separated
//! lowercase hex groups with `::` compression of the longest zero run for
//! IPv6.

use vstd::prelude::*;
use crate::expression::RuntimeError;

verus! {

/// An IP address of either family, as a plain numeric value.
#[derive(Clone, Copy, Debug, PartialEq, Eq, Structural)]
pub enum IpAddr {
    V4(u32),
    V6(u128),
}

/// One byte of a prefix mask: the leftmost `bits - 8 * i` bits of byte `i`
/// are set, clamped to the byte.
pub open spec fn mask_byte(bits: int, i: int) -> u8 {
    let rem = bits - 8 * i;
    if rem >= 8 {
        0xffu8
    } else if rem <= 0 {
        0u8
    } else {
        ((0xff00u32 >> (rem as u32)) & 0xff) as u8
    }
}

/// A prefix mask as bytes: the leftmost `subnet_bits` bits set to one, the
/// rest zero, over a total of `bytes` bytes.
pub fn get_mask_bits(subnet_bits: u32, bytes: usize) -> (r: Vec<u8>)
    requires
        subnet_bits <= 8 * bytes,
    ensures
        r@.len() == bytes,
        forall|i: int| 0 <= i < bytes ==> r@[i] == mask_byte(subnet_bits as int, i),
{
    let mut r: Vec<u8> = Vec::new();
    let mut remaining = subnet_bits;
    let mut i: usize = 0;
    while i < bytes
        invariant
            i <= bytes,
            r@.len() == i,
            subnet_bits <= 8 * bytes,
            remaining as int == if subnet_bits - 8 * i >= 0 {
                subnet_bits - 8 * i
            } else {
                0
            },
            forall|j: int| 0 <= j < i ==> r@[j] == mask_byte(subnet_bits as int, j),
        decreases bytes - i,
    {
        let bits = if remaining < 8 {
            remaining
        } else {
            8
        };
        let byte_val = (0xff00u32 >> bits) & 0xff;
        proof {
            assert(byte_val <= 0xff) by (bit_vector)
                requires
                    byte_val == (0xff00u32 >> bits) & 0xff,
            ;
            assert((0xff00u32 >> 8u32) & 0xff == 0xffu32) by (bit_vector);
            assert((0xff00u32 >> 0u32) & 0xff == 0u32) by (bit_vector);
        }
        r.push(byte_val as u8);
        remaining = remaining - bits;
        i += 1;
    }
    r
}

/// The numeric value of a big-endian byte string.
pub open spec fn bytes_be(s: Seq<u8>) -> int
    decreases s.len(),
{
    if s.len() == 0 {
        0
    } else {
        bytes_be(s.drop_last()) * 256 + s.last()
    }
}

/// 256 to the power `n`.
pub open spec fn p256(n: nat) -> int
    decreases n,
{
    if n == 0 {
        1
    } else {
        256 * p256((n - 1) as nat)
    }
}

/// `p256` is monotonic.
pub proof fn lemma_p256_le(i: nat, j: nat)
    requires
        i <= j,
    ensures
        p256(i) <= p256(j),
        p256(i) >= 1,
    decreases j,
{
    if i == j {
        if j > 0 {
            lemma_p256_le((i - 1) as nat, (j - 1) as nat);
        }
    } else {
        lemma_p256_le(i, (j - 1) as nat);
    }
}

/// A big-endian byte string's value is below 256 to the power of its length.
pub proof fn lemma_bytes_be_bound(s: Seq<u8>)
    ensures
        0 <= bytes_be(s) < p256(s.len()),
    decreases s.len(),
{
    if s.len() == 0 {
    } else {
        lemma_bytes_be_bound(s.drop_last());
        let p = p256((s.len() - 1) as nat);
        assert(bytes_be(s.drop_last()) * 256 <= (p - 1) * 256) by (nonlinear_arith)
            requires
                bytes_be(s.drop_last()) <= p - 1,
        ;
    }
}

/// The IPv4 address whose four bytes are `v`.
pub fn ipv4_addr(v: &Vec<u8>) -> (r: IpAddr)
    requires
        v@.len() == 4,
    ensures
        r == IpAddr::V4(bytes_be(v@) as u32),
{
    let mut acc: u64 = 0;
    let mut i: usize = 0;
    while i < 4
        invariant
            i <= 4,
            v@.len() == 4,
            acc as int == bytes_be(v@.subrange(0, i as int)),
            acc < p256(i as nat),
        decreases 4 - i,
    {
        proof {
            assert(p256(4) == 0x100000000) by {
                reveal_with_fuel(p256, 5);
            }
            assert(acc * 256 <= (p256(i as nat) - 1) * 256) by (nonlinear_arith)
                requires
                    acc <= p256(i as nat) - 1,
            ;
            lemma_p256_le((i + 1) as nat, 4);
            assert(v@.subrange(0, i + 1).drop_last() =~= v@.subrange(0, i as int));
        }
        acc = acc * 256 + (v[i] as u64);
        i += 1;
    }
    proof {
        assert(v@.subrange(0, 4) =~= v@);
        assert(p256(4) == 0x100000000) by {
            reveal_with_fuel(p256, 5);
        }
    }
    IpAddr::V4(acc as u32)
}

/// The IPv6 address whose sixteen bytes are `v`.
pub fn ipv6_addr(v: &Vec<u8>) -> (r: IpAddr)
    requires
        v@.len() == 16,
    ensures
        r == IpAddr::V6(bytes_be(v@) as u128),
{
    let mut acc: u128 = 0;
    let mut i: usize = 0;
    while i < 16
        invariant
            i <= 16,
            v@.len() == 16,
            acc as int == bytes_be(v@.subrange(0, i as int)),
            acc < p256(i as nat),
        decreases 16 - i,
    {
        proof {
            assert(p256(16) == 0x100000000000000000000000000000000) by {
                reveal_with_fuel(p256, 17);
            }
            assert(acc * 256 <= (p256(i as nat) - 1) * 256) by (nonlinear_arith)
                requires
                    acc <= p256(i as nat) - 1,
            ;
            lemma_p256_le((i + 1) as nat, 16);
            assert(v@.subrange(0, i + 1).drop_last() =~= v@.subrange(0, i as int));
        }
        acc = acc * 256 + (v[i] as u128);
        i += 1;
    }
    proof {
        assert(v@.subrange(0, 16) =~= v@);
    }
    IpAddr::V6(acc)
}

/// Whether `c` is an ASCII decimal digit.
pub open spec fn is_digit(c: u8) -> bool {
    48 <= c <= 57
}

/// The shortest decimal form of `n`, for `n` below 256: one to three ASCII
/// digits, no leading zero.
pub open spec fn dec3(n: int) -> Seq<u8> {
    if n < 10 {
        seq![(48 + n) as u8]
    } else if n < 100 {
        seq![(48 + n / 10) as u8, (48 + n % 10) as u8]
    } else {
        seq![(48 + n / 100) as u8, (48 + (n / 10) % 10) as u8, (48 + n % 10) as u8]
    }
}

/// The dotted-decimal form of the IPv4 address with value `a`.
pub open spec fn ipv4_string(a: int) -> Seq<u8> {
    dec3(a / 0x1000000 % 256) + seq![46u8] + dec3(a / 0x10000 % 256) + seq![46u8] + dec3(
        a / 0x100 % 256,
    ) + seq![46u8] + dec3(a % 256)
}

/// Appends the decimal form of `n` to `out`.
fn push_dec3(out: &mut Vec<u8>, n: u8)
    ensures
        final(out)@ == old(out)@ + dec3(n as int),
{
    if n >= 100 {
        out.push(48 + n / 100);
        out.push(48 + (n / 10) % 10);
        out.push(48 + n % 10);
        proof {
            assert(final(out)@ =~= old(out)@ + dec3(n as int));
        }
    } else if n >= 10 {
        out.push(48 + n / 10);
        out.push(48 + n % 10);
        proof {
            assert(final(out)@ =~= old(out)@ + dec3(n as int));
        }
    } else {
        out.push(48 + n);
        proof {
            assert(final(out)@ =~= old(out)@ + dec3(n as int));
        }
    }
}

/// The dotted-decimal text of an IPv4 address.
pub fn format_ipv4(a: u32) -> (r: Vec<u8>)
    ensures
        r@ == ipv4_string(a as int),
{
    let mut out: Vec<u8> = Vec::new();
    push_dec3(&mut out, (a / 0x1000000 % 256) as u8);
    out.push(46);
    push_dec3(&mut out, (a / 0x10000 % 256) as u8);
    out.push(46);
    push_dec3(&mut out, (a / 0x100 % 256) as u8);
    out.push(46);
    push_dec3(&mut out, (a % 256) as u8);
    proof {
        assert(out@ =~= ipv4_string(a as int));
    }
    out
}

/// A decimal component read greedily at `pos`: its value and the position
/// after it. A component is one to three digits, has no leading zero, and
/// stays at or below 255.
pub open spec fn parse_dec3_at(s: Seq<u8>, pos: int) -> Option<(u8, int)> {
    if pos < s.len() && is_digit(s[pos]) {
        if s[pos] == 48 {
            Some((0u8, pos + 1))
        } else {
            let d1 = s[pos] - 48;
            if pos + 1 < s.len() && is_digit(s[pos + 1]) {
                let d2 = s[pos + 1] - 48;
                if pos + 2 < s.len() && is_digit(s[pos + 2]) {
                    let d3 = s[pos + 2] - 48;
                    let v = d1 * 100 + d2 * 10 + d3;
                    if v <= 255 {
                        Some((v as u8, pos + 3))
                    } else {
                        None
                    }
                } else {
                    Some(((d1 * 10 + d2) as u8, pos + 2))
                }
            } else {
                Some((d1 as u8, pos + 1))
            }
        }
    } else {
        None
    }
}

/// Reads one decimal component at `pos`, as `parse_dec3_at` describes.
fn parse_dec3(s: &Vec<u8>, pos: usize) -> (r: Option<(u8, usize)>)
    requires
        pos <= s@.len(),
    ensures
        match r {
            Some((v, e)) => parse_dec3_at(s@, pos as int) == Some((v, e as int)) && pos < e
                <= s@.len(),
            None => parse_dec3_at(s@, pos as int) is None,
        },
{
    if pos < s.len() && 48 <= s[pos] && s[pos] <= 57 {
        if s[pos] == 48 {
            Some((0u8, pos + 1))
        } else {
            let d1 = s[pos] - 48;
            if pos + 1 < s.len() && 48 <= s[pos + 1] && s[pos + 1] <= 57 {
                let d2 = s[pos + 1] - 48;
                if pos + 2 < s.len() && 48 <= s[pos + 2] && s[pos + 2] <= 57 {
                    let d3 = s[pos + 2] - 48;
                    let v: u16 = d1 as u16 * 100 + d2 as u16 * 10 + d3 as u16;
                    if v <= 255 {
                        Some((v as u8, pos + 3))
                    } else {
                        None
                    }
                } else {
                    Some((d1 * 10 + d2, pos + 2))
                }
            } else {
                Some((d1, pos + 1))
            }
        }
    } else {
        None
    }
}

/// The IPv4 address denoted by `s`: four decimal components joined by dots,
/// or nothing when `s` is not of that form.
pub open spec fn parse_ipv4_spec(s: Seq<u8>) -> Option<u32> {
    match parse_dec3_at(s, 0) {
        None => None,
        Some((b0, p0)) => if p0 < s.len() && s[p0] == 46 {
            match parse_dec3_at(s, p0 + 1) {
                None => None,
                Some((b1, p1)) => if p1 < s.len() && s[p1] == 46 {
                    match parse_dec3_at(s, p1 + 1) {
                        None => None,
                        Some((b2, p2)) => if p2 < s.len() && s[p2] == 46 {
                            match parse_dec3_at(s, p2 + 1) {
                                None => None,
                                Some((b3, p3)) => if p3 == s.len() {
                                    Some(
                                        (b0 * 0x1000000 + b1 * 0x10000 + b2 * 0x100 + b3) as u32,
                                    )
                                } else {
                                    None
                                },
                            }
                        } else {
                            None
                        },
                    }
                } else {
                    None
                },
            }
        } else {
            None
        },
    }
}

/// Reads an IPv4 address from its dotted-decimal text, exactly as
/// `parse_ipv4_spec` describes.
pub fn parse_ipv4(s: &Vec<u8>) -> (r: Option<u32>)
    ensures
        r == parse_ipv4_spec(s@),
{
    let c0 = parse_dec3(s, 0);
    match c0 {
        None => None,
        Some((b0, p0)) => {
            if p0 < s.len() && s[p0] == 46 {
                match parse_dec3(s, p0 + 1) {
                    None => None,
                    Some((b1, p1)) => {
                        if p1 < s.len() && s[p1] == 46 {
                            match parse_dec3(s, p1 + 1) {
                                None => None,
                                Some((b2, p2)) => {
                                    if p2 < s.len() && s[p2] == 46 {
                                        match parse_dec3(s, p2 + 1) {
                                            None => None,
                                            Some((b3, p3)) => {
                                                if p3 == s.len() {
                                                    Some(
                                                        b0 as u32 * 0x1000000 + b1 as u32 * 0x10000
                                                            + b2 as u32 * 0x100 + b3 as u32,
                                                    )
                                                } else {
                                                    None
                                                }
                                            },
                                        }
                                    } else {
                                        None
                                    }
                                },
                            }
                        } else {
                            None
                        }
                    },
                }
            } else {
                None
            }
        },
    }
}

/// Composing four bytes into a 32-bit value and extracting them again are
/// inverse operations.
proof fn lemma_bytes4_compose(b0: int, b1: int, b2: int, b3: int)
    requires
        0 <= b0 < 256,
        0 <= b1 < 256,
        0 <= b2 < 256,
        0 <= b3 < 256,
    ensures
        ({
            let a = b0 * 0x1000000 + b1 * 0x10000 + b2 * 0x100 + b3;
            0 <= a < 0x100000000 && a / 0x1000000 % 256 == b0 && a / 0x10000 % 256 == b1 && a
                / 0x100 % 256 == b2 && a % 256 == b3
        }),
{
    let a = b0 * 0x1000000 + b1 * 0x10000 + b2 * 0x100 + b3;
    let q1 = b0 * 0x10000 + b1 * 0x100 + b2;
    let q2 = b0 * 0x100 + b1;
    vstd::arithmetic::div_mod::lemma_fundamental_div_mod_converse(a, 256, q1, b3);
    vstd::arithmetic::div_mod::lemma_fundamental_div_mod_converse(q1, 256, q2, b2);
    vstd::arithmetic::div_mod::lemma_fundamental_div_mod_converse(q2, 256, b0, b1);
    vstd::arithmetic::div_mod::lemma_div_denominator(a, 256, 256);
    assert(a / 0x10000 == q2);
    vstd::arithmetic::div_mod::lemma_div_denominator(a, 0x10000, 256);
    assert(a / 0x1000000 == b0);
    vstd::arithmetic::div_mod::lemma_small_mod(b0 as nat, 256);
}

/// Extracting the four bytes of a 32-bit value and composing them again
/// gives the value back.
proof fn lemma_bytes4_extract(a: int)
    requires
        0 <= a < 0x100000000,
    ensures
        a / 0x1000000 % 256 * 0x1000000 + a / 0x10000 % 256 * 0x10000 + a / 0x100 % 256 * 0x100 + a
            % 256 == a,
{
    vstd::arithmetic::div_mod::lemma_fundamental_div_mod(a, 256);
    vstd::arithmetic::div_mod::lemma_fundamental_div_mod(a / 256, 256);
    vstd::arithmetic::div_mod::lemma_fundamental_div_mod(a / 256 / 256, 256);
    vstd::arithmetic::div_mod::lemma_div_denominator(a, 256, 256);
    vstd::arithmetic::div_mod::lemma_div_denominator(a, 0x10000, 256);
    assert(a / 0x100 / 256 == a / 0x10000);
    assert(a / 0x10000 / 256 == a / 0x1000000);
    assert(a / 0x1000000 < 256);
    vstd::arithmetic::div_mod::lemma_small_mod((a / 0x1000000) as nat, 256);
}

/// The decimal component form is made of digits, is at most three bytes
/// long, and never starts with a zero digit unless it is exactly `0`.
pub proof fn lemma_dec3_shape(n: int)
    requires
        0 <= n < 256,
    ensures
        1 <= dec3(n).len() <= 3,
        forall|i: int| 0 <= i < dec3(n).len() ==> is_digit(#[trigger] dec3(n)[i]),
        n >= 10 ==> dec3(n)[0] != 48,
{
}

/// Reading a component back from its decimal form: at a position where the
/// text holds `dec3(n)` followed by a non-digit or the end, the greedy read
/// returns `n` and stops right after it.
proof fn lemma_parse_dec3_canon(s: Seq<u8>, pos: int, n: int)
    requires
        0 <= n < 256,
        0 <= pos,
        pos + dec3(n).len() <= s.len(),
        s.subrange(pos, pos + dec3(n).len()) == dec3(n),
        pos + dec3(n).len() == s.len() || !is_digit(s[pos + dec3(n).len()]),
    ensures
        parse_dec3_at(s, pos) == Some(((n as u8), pos + dec3(n).len())),
{
    let l = dec3(n).len();
    assert forall|i: int| 0 <= i < l implies s[pos + i] == dec3(n)[i] by {
        assert(s.subrange(pos, pos + l as int)[i] == dec3(n)[i]);
    }
    if n < 10 {
        assert(s[pos + 0] == dec3(n)[0]);
        assert(s[pos] == 48 + n);
    } else if n < 100 {
        assert(s[pos + 0] == dec3(n)[0] && s[pos + 1] == dec3(n)[1]);
        assert(s[pos] == 48 + n / 10 && s[pos + 1] == 48 + n % 10);
        assert(n / 10 >= 1);
        assert((n / 10) * 10 + n % 10 == n) by {
            vstd::arithmetic::div_mod::lemma_fundamental_div_mod(n, 10);
        }
    } else {
        assert(s[pos + 0] == dec3(n)[0] && s[pos + 1] == dec3(n)[1] && s[pos + 2] == dec3(n)[2]);
        assert(s[pos] == 48 + n / 100 && s[pos + 1] == 48 + (n / 10) % 10 && s[pos + 2] == 48 + n
            % 10);
        assert(n / 100 >= 1);
        assert((n / 100) * 100 + ((n / 10) % 10) * 10 + n % 10 == n) by {
            vstd::arithmetic::div_mod::lemma_fundamental_div_mod(n, 10);
            vstd::arithmetic::div_mod::lemma_fundamental_div_mod(n / 10, 10);
            vstd::arithmetic::div_mod::lemma_div_denominator(n, 10, 10);
        }
    }
}

/// What the greedy component read accepts is exactly a component in decimal
/// form: the consumed bytes are `dec3` of the returned value.
proof fn lemma_parse_dec3_sound(s: Seq<u8>, pos: int)
    requires
        0 <= pos <= s.len(),
        parse_dec3_at(s, pos) is Some,
    ensures
        ({
            let (v, e) = parse_dec3_at(s, pos).unwrap();
            &&& pos < e <= s.len()
            &&& e - pos == dec3(v as int).len()
            &&& s.subrange(pos, e) == dec3(v as int)
        }),
{
    let (v, e) = parse_dec3_at(s, pos).unwrap();
    let d1 = s[pos] - 48;
    if s[pos] == 48 {
        assert(s.subrange(pos, e) =~= dec3(v as int));
    } else if pos + 1 < s.len() && is_digit(s[pos + 1]) {
        let d2 = s[pos + 1] - 48;
        if pos + 2 < s.len() && is_digit(s[pos + 2]) {
            let d3 = s[pos + 2] - 48;
            assert(v == d1 * 100 + d2 * 10 + d3);
            assert(v / 100 == d1 && (v / 10) % 10 == d2 && v % 10 == d3) by {
                vstd::arithmetic::div_mod::lemma_fundamental_div_mod_converse(
                    v as int,
                    10,
                    d1 * 10 + d2,
                    d3 as int,
                );
                vstd::arithmetic::div_mod::lemma_fundamental_div_mod_converse(
                    d1 * 10 + d2,
                    10,
                    d1 as int,
                    d2 as int,
                );
                vstd::arithmetic::div_mod::lemma_div_denominator(v as int, 10, 10);
            }
            assert(s.subrange(pos, e) =~= dec3(v as int));
        } else {
            assert(v == d1 * 10 + d2);
            assert(v / 10 == d1 && v % 10 == d2) by {
                vstd::arithmetic::div_mod::lemma_fundamental_div_mod_converse(
                    v as int,
                    10,
                    d1 as int,
                    d2 as int,
                );
            }
            assert(s.subrange(pos, e) =~= dec3(v as int));
        }
    } else {
        assert(s.subrange(pos, e) =~= dec3(v as int));
    }
}

/// Reading back the dotted-decimal form of an IPv4 address yields the
/// address: parsing inverts formatting.
pub proof fn lemma_parse_format_ipv4(a: int)
    requires
        0 <= a < 0x100000000,
    ensures
        parse_ipv4_spec(ipv4_string(a)) == Some(a as u32),
{
    let b0 = a / 0x1000000 % 256;
    let b1 = a / 0x10000 % 256;
    let b2 = a / 0x100 % 256;
    let b3 = a % 256;
    let s = ipv4_string(a);
    lemma_dec3_shape(b0);
    lemma_dec3_shape(b1);
    lemma_dec3_shape(b2);
    lemma_dec3_shape(b3);
    let l0 = dec3(b0).len() as int;
    let l1 = dec3(b1).len() as int;
    let l2 = dec3(b2).len() as int;
    let l3 = dec3(b3).len() as int;
    assert(s.len() == l0 + l1 + l2 + l3 + 3);
    assert(s.subrange(0, l0) =~= dec3(b0));
    assert(s[l0] == 46);
    lemma_parse_dec3_canon(s, 0, b0);
    let p1 = l0 + 1;
    assert(s.subrange(p1, p1 + l1) =~= dec3(b1));
    assert(s[p1 + l1] == 46);
    lemma_parse_dec3_canon(s, p1, b1);
    let p2 = p1 + l1 + 1;
    assert(s.subrange(p2, p2 + l2) =~= dec3(b2));
    assert(s[p2 + l2] == 46);
    lemma_parse_dec3_canon(s, p2, b2);
    let p3 = p2 + l2 + 1;
    assert(s.subrange(p3, p3 + l3) =~= dec3(b3));
    lemma_parse_dec3_canon(s, p3, b3);
    lemma_bytes4_extract(a);
}

/// What the IPv4 reader accepts is exactly the dotted-decimal form of the
/// address it returns.
#[verifier::rlimit(60)]
pub proof fn lemma_parse_ipv4_sound(s: Seq<u8>, v: u32)
    requires
        parse_ipv4_spec(s) == Some(v),
    ensures
        s == ipv4_string(v as int),
{
    let (b0, p0) = parse_dec3_at(s, 0).unwrap();
    let (b1, p1) = parse_dec3_at(s, p0 + 1).unwrap();
    let (b2, p2) = parse_dec3_at(s, p1 + 1).unwrap();
    let (b3, p3) = parse_dec3_at(s, p2 + 1).unwrap();
    lemma_parse_dec3_sound(s, 0);
    lemma_parse_dec3_sound(s, p0 + 1);
    lemma_parse_dec3_sound(s, p1 + 1);
    lemma_parse_dec3_sound(s, p2 + 1);
    lemma_bytes4_compose(b0 as int, b1 as int, b2 as int, b3 as int);
    assert(v as int == b0 * 0x1000000 + b1 * 0x10000 + b2 * 0x100 + b3);
    assert(s =~= dec3(b0 as int) + seq![46u8] + dec3(b1 as int) + seq![46u8] + dec3(b2 as int)
        + seq![46u8] + dec3(b3 as int)) by {
        assert(s.subrange(0, p0) == dec3(b0 as int));
        assert(s.subrange(p0 + 1, p1) == dec3(b1 as int));
        assert(s.subrange(p1 + 1, p2) == dec3(b2 as int));
        assert(s.subrange(p2 + 1, p3) == dec3(b3 as int));
        assert(forall|i: int| 0 <= i < p0 ==> s[i] == s.subrange(0, p0)[i]);
        assert(forall|i: int| p0 + 1 <= i < p1 ==> s[i] == s.subrange(p0 + 1, p1)[i - (p0 + 1)]);
        assert(forall|i: int| p1 + 1 <= i < p2 ==> s[i] == s.subrange(p1 + 1, p2)[i - (p1 + 1)]);
        assert(forall|i: int| p2 + 1 <= i < p3 ==> s[i] == s.subrange(p2 + 1, p3)[i - (p2 + 1)]);
    }
}

/// One of the eight 16-bit segments of an IPv6 value, leftmost first.
pub open spec fn seg_at(v: int, i: int) -> int {
    if i == 0 {
        v / 0x10000000000000000000000000000 % 0x10000
    } else if i == 1 {
        v / 0x1000000000000000000000000 % 0x10000
    } else if i == 2 {
        v / 0x100000000000000000000 % 0x10000
    } else if i == 3 {
        v / 0x10000000000000000 % 0x10000
    } else if i == 4 {
        v / 0x1000000000000 % 0x10000
    } else if i == 5 {
        v / 0x100000000 % 0x10000
    } else if i == 6 {
        v / 0x10000 % 0x10000
    } else {
        v % 0x10000
    }
}

/// The eight segments of an IPv6 value.
pub open spec fn segs_of(v: int) -> Seq<u16> {
    Seq::new(8, |i: int| seg_at(v, i) as u16)
}

/// The numeric value of a big-endian segment string, base 65536.
pub open spec fn segs_val(g: Seq<u16>) -> int
    decreases g.len(),
{
    if g.len() == 0 {
        0
    } else {
        segs_val(g.drop_last()) * 0x10000 + g.last()
    }
}

/// 65536 to the power `n`.
pub open spec fn p65536(n: nat) -> int
    decreases n,
{
    if n == 0 {
        1
    } else {
        0x10000 * p65536((n - 1) as nat)
    }
}

/// `p65536` is monotonic.
pub proof fn lemma_p65536_le(i: nat, j: nat)
    requires
        i <= j,
    ensures
        p65536(i) <= p65536(j),
        p65536(i) >= 1,
    decreases j,
{
    if i == j {
        if j > 0 {
            lemma_p65536_le((i - 1) as nat, (j - 1) as nat);
        }
    } else {
        lemma_p65536_le(i, (j - 1) as nat);
    }
}

/// A segment string's value is below 65536 to the power of its length.
pub proof fn lemma_segs_val_bound(g: Seq<u16>)
    ensures
        0 <= segs_val(g) < p65536(g.len()),
    decreases g.len(),
{
    if g.len() > 0 {
        lemma_segs_val_bound(g.drop_last());
        let p = p65536((g.len() - 1) as nat);
        assert(segs_val(g.drop_last()) * 0x10000 <= (p - 1) * 0x10000) by (nonlinear_arith)
            requires
                segs_val(g.drop_last()) <= p - 1,
        ;
    }
}

/// Whether `c` is an ASCII hex digit.
pub open spec fn is_hexdig(c: u8) -> bool {
    (48 <= c <= 57) || (97 <= c <= 102) || (65 <= c <= 70)
}

/// The value of a hex digit.
pub open spec fn hexval(c: u8) -> int {
    if 48 <= c <= 57 {
        c - 48
    } else if 97 <= c <= 102 {
        c - 87
    } else {
        c - 55
    }
}

/// The lowercase hex digit with value `d`.
pub open spec fn hexd(d: int) -> u8 {
    if d < 10 {
        (48 + d) as u8
    } else {
        (87 + d) as u8
    }
}

/// The shortest lowercase hex form of `n`, for `n` below 65536: one to four
/// digits, no leading zero.
pub open spec fn hex4(n: int) -> Seq<u8> {
    if n < 0x10 {
        seq![hexd(n)]
    } else if n < 0x100 {
        seq![hexd(n / 0x10), hexd(n % 0x10)]
    } else if n < 0x1000 {
        seq![hexd(n / 0x100), hexd((n / 0x10) % 0x10), hexd(n % 0x10)]
    } else {
        seq![hexd(n / 0x1000), hexd((n / 0x100) % 0x10), hexd((n / 0x10) % 0x10), hexd(n % 0x10)]
    }
}

/// The length of the run of zero segments beginning at `i`.
pub open spec fn zero_run_len(g: Seq<u16>, i: int) -> int
    decreases g.len() - i,
{
    if i < 0 || i >= g.len() || g[i] != 0 {
        0
    } else {
        1 + zero_run_len(g, i + 1)
    }
}

/// The leftmost longest run of zero segments at or after `i`: its start and
/// its length.
pub open spec fn best_zero_run(g: Seq<u16>, i: int) -> (int, int)
    decreases g.len() - i,
{
    if i < 0 || i >= g.len() {
        (i, 0)
    } else {
        let l = zero_run_len(g, i);
        let (bs, bl) = best_zero_run(g, i + 1);
        if l >= bl {
            (i, l)
        } else {
            (bs, bl)
        }
    }
}

/// The segments `lo..hi` in hex form, joined by colons.
pub open spec fn hex_join(g: Seq<u16>, lo: int, hi: int) -> Seq<u8>
    decreases hi - lo,
{
    if lo >= hi {
        Seq::empty()
    } else if lo == hi - 1 {
        hex4(g[lo] as int)
    } else {
        hex4(g[lo] as int) + seq![58u8] + hex_join(g, lo + 1, hi)
    }
}

/// The canonical text of eight IPv6 segments: lowercase hex groups joined by
/// colons, with the leftmost longest run of at least two zero groups
/// compressed to `::`.
pub open spec fn ipv6_segs_string(g: Seq<u16>) -> Seq<u8> {
    let (bs, bl) = best_zero_run(g, 0);
    if bl >= 2 {
        hex_join(g, 0, bs) + seq![58u8, 58u8] + hex_join(g, bs + bl, g.len() as int)
    } else {
        hex_join(g, 0, g.len() as int)
    }
}

/// The canonical text of the IPv6 address with value `v`.
pub open spec fn ipv6_string(v: int) -> Seq<u8> {
    ipv6_segs_string(segs_of(v))
}

/// The eight 16-bit segments of an IPv6 value, leftmost first.
fn split_segs(v: u128) -> (r: Vec<u16>)
    ensures
        r@ == segs_of(v as int),
{
    let mut r: Vec<u16> = Vec::new();
    r.push((v / 0x10000000000000000000000000000 % 0x10000) as u16);
    r.push((v / 0x1000000000000000000000000 % 0x10000) as u16);
    r.push((v / 0x100000000000000000000 % 0x10000) as u16);
    r.push((v / 0x10000000000000000 % 0x10000) as u16);
    r.push((v / 0x1000000000000 % 0x10000) as u16);
    r.push((v / 0x100000000 % 0x10000) as u16);
    r.push((v / 0x10000 % 0x10000) as u16);
    r.push((v % 0x10000) as u16);
    proof {
        assert(r@ =~= segs_of(v as int));
    }
    r
}

/// The length of the run of zero segments beginning at `i`.
fn run_len(segs: &Vec<u16>, i: usize) -> (r: usize)
    requires
        i <= segs@.len(),
    ensures
        r == zero_run_len(segs@, i as int),
        i + r <= segs@.len(),
    decreases segs@.len() - i,
{
    if i < segs.len() && segs[i] == 0 {
        1 + run_len(segs, i + 1)
    } else {
        0
    }
}

/// The leftmost longest run of zero segments at or after `i`.
fn best_run(segs: &Vec<u16>, i: usize) -> (r: (usize, usize))
    requires
        i <= segs@.len(),
    ensures
        (r.0 as int, r.1 as int) == best_zero_run(segs@, i as int),
        i <= r.0,
        r.0 + r.1 <= segs@.len(),
    decreases segs@.len() - i,
{
    if i >= segs.len() {
        (i, 0)
    } else {
        let l = run_len(segs, i);
        let (bs, bl) = best_run(segs, i + 1);
        if l >= bl {
            (i, l)
        } else {
            (bs, bl)
        }
    }
}

/// Appends the lowercase hex digit with value `d`.
fn push_hexd(out: &mut Vec<u8>, d: u16)
    requires
        d < 16,
    ensures
        final(out)@ == old(out)@ + seq![hexd(d as int)],
{
    if d < 10 {
        out.push(48 + d as u8);
    } else {
        out.push(87 + d as u8);
    }
    proof {
        assert(final(out)@ =~= old(out)@ + seq![hexd(d as int)]);
    }
}

/// Appends the shortest hex form of `n`.
fn push_hex4(out: &mut Vec<u8>, n: u16)
    ensures
        final(out)@ == old(out)@ + hex4(n as int),
{
    if n >= 0x1000 {
        push_hexd(out, n / 0x1000);
        push_hexd(out, (n / 0x100) % 0x10);
        push_hexd(out, (n / 0x10) % 0x10);
        push_hexd(out, n % 0x10);
    } else if n >= 0x100 {
        push_hexd(out, n / 0x100);
        push_hexd(out, (n / 0x10) % 0x10);
        push_hexd(out, n % 0x10);
    } else if n >= 0x10 {
        push_hexd(out, n / 0x10);
        push_hexd(out, n % 0x10);
    } else {
        push_hexd(out, n);
    }
    proof {
        assert(final(out)@ =~= old(out)@ + hex4(n as int));
    }
}

/// Appends the segments `lo..hi` in hex form, joined by colons.
fn push_join(out: &mut Vec<u8>, segs: &Vec<u16>, lo: usize, hi: usize)
    requires
        lo <= hi <= segs@.len(),
    ensures
        final(out)@ == old(out)@ + hex_join(segs@, lo as int, hi as int),
    decreases hi - lo,
{
    if lo >= hi {
        proof {
            assert(final(out)@ =~= old(out)@ + hex_join(segs@, lo as int, hi as int));
        }
    } else if lo == hi - 1 {
        push_hex4(out, segs[lo]);
    } else {
        push_hex4(out, segs[lo]);
        out.push(58);
        push_join(out, segs, lo + 1, hi);
        proof {
            assert(final(out)@ =~= old(out)@ + hex_join(segs@, lo as int, hi as int));
        }
    }
}

/// The canonical text of an IPv6 address: lowercase hex groups joined by
/// colons, the leftmost longest run of two or more zero groups compressed
/// to `::`.
pub fn format_ipv6(v: u128) -> (r: Vec<u8>)
    ensures
        r@ == ipv6_string(v as int),
{
    let segs = split_segs(v);
    let (bs, bl) = best_run(&segs, 0);
    let mut out: Vec<u8> = Vec::new();
    if bl >= 2 {
        push_join(&mut out, &segs, 0, bs);
        out.push(58);
        out.push(58);
        push_join(&mut out, &segs, bs + bl, segs.len());
        proof {
            assert(out@ =~= ipv6_string(v as int));
        }
    } else {
        push_join(&mut out, &segs, 0, segs.len());
    }
    out
}

/// A hex group read greedily at `pos` within `s[..end]`: its value and the
/// position after it. A group is one to four hex digits; leading zeros are
/// accepted.
pub open spec fn parse_hex4_at(s: Seq<u8>, pos: int, end: int) -> Option<(u16, int)> {
    if pos < end && is_hexdig(s[pos]) {
        let v1 = hexval(s[pos]);
        if pos + 1 < end && is_hexdig(s[pos + 1]) {
            let v2 = hexval(s[pos + 1]);
            if pos + 2 < end && is_hexdig(s[pos + 2]) {
                let v3 = hexval(s[pos + 2]);
                if pos + 3 < end && is_hexdig(s[pos + 3]) {
                    let v4 = hexval(s[pos + 3]);
                    Some(((v1 * 0x1000 + v2 * 0x100 + v3 * 0x10 + v4) as u16, pos + 4))
                } else {
                    Some(((v1 * 0x100 + v2 * 0x10 + v3) as u16, pos + 3))
                }
            } else {
                Some(((v1 * 0x10 + v2) as u16, pos + 2))
            }
        } else {
            Some((v1 as u16, pos + 1))
        }
    } else {
        None
    }
}

/// Whether the byte is an ASCII hex digit.
fn hexdig_e(c: u8) -> (r: bool)
    ensures
        r == is_hexdig(c),
{
    (48 <= c && c <= 57) || (97 <= c && c <= 102) || (65 <= c && c <= 70)
}

/// The value of a hex digit byte.
fn hexval_e(c: u8) -> (r: u16)
    requires
        is_hexdig(c),
    ensures
        r as int == hexval(c),
{
    if 48 <= c && c <= 57 {
        (c - 48) as u16
    } else if 97 <= c && c <= 102 {
        (c - 87) as u16
    } else {
        (c - 55) as u16
    }
}

/// Reads one hex group at `pos`, as `parse_hex4_at` describes.
fn parse_hex4(s: &Vec<u8>, pos: usize, end: usize) -> (r: Option<(u16, usize)>)
    requires
        pos <= end <= s@.len(),
    ensures
        match r {
            Some((v, e)) => parse_hex4_at(s@, pos as int, end as int) == Some((v, e as int)) && pos
                < e <= end,
            None => parse_hex4_at(s@, pos as int, end as int) is None,
        },
{
    if pos < end && hexdig_e(s[pos]) {
        let v1 = hexval_e(s[pos]);
        if pos + 1 < end && hexdig_e(s[pos + 1]) {
            let v2 = hexval_e(s[pos + 1]);
            if pos + 2 < end && hexdig_e(s[pos + 2]) {
                let v3 = hexval_e(s[pos + 2]);
                if pos + 3 < end && hexdig_e(s[pos + 3]) {
                    let v4 = hexval_e(s[pos + 3]);
                    Some((v1 * 0x1000 + v2 * 0x100 + v3 * 0x10 + v4, pos + 4))
                } else {
                    Some((v1 * 0x100 + v2 * 0x10 + v3, pos + 3))
                }
            } else {
                Some((v1 * 0x10 + v2, pos + 2))
            }
        } else {
            Some((v1, pos + 1))
        }
    } else {
        None
    }
}

/// The hex groups in `s[pos..end]`, separated by single colons: nothing when
/// the region is not of that form, the empty group list when it is empty.
pub open spec fn parse_groups_at(s: Seq<u8>, pos: int, end: int) -> Option<Seq<u16>>
    decreases end - pos,
{
    if pos >= end {
        Some(Seq::empty())
    } else {
        match parse_hex4_at(s, pos, end) {
            None => None,
            Some((v, e)) => if e == end {
                Some(seq![v])
            } else if s[e] == 58 && e + 1 < end {
                match parse_groups_at(s, e + 1, end) {
                    None => None,
                    Some(rest) => Some(seq![v] + rest),
                }
            } else {
                None
            },
        }
    }
}

/// Reads the hex groups in `s[pos..end]`, as `parse_groups_at` describes.
fn parse_groups(s: &Vec<u8>, pos: usize, end: usize) -> (r: Option<Vec<u16>>)
    requires
        pos <= end <= s@.len(),
    ensures
        match r {
            Some(g) => parse_groups_at(s@, pos as int, end as int) == Some(g@) && g@.len() <= end
                - pos,
            None => parse_groups_at(s@, pos as int, end as int) is None,
        },
    decreases end - pos,
{
    if pos >= end {
        let g: Vec<u16> = Vec::new();
        proof {
            assert(g@ =~= Seq::<u16>::empty());
        }
        Some(g)
    } else {
        match parse_hex4(s, pos, end) {
            None => None,
            Some((v, e)) => {
                if e == end {
                    let mut g: Vec<u16> = Vec::new();
                    g.push(v);
                    proof {
                        assert(g@ =~= seq![v]);
                    }
                    Some(g)
                } else if s[e] == 58 && e + 1 < end {
                    match parse_groups(s, e + 1, end) {
                        None => None,
                        Some(rest) => {
                            let mut g: Vec<u16> = Vec::new();
                            g.push(v);
                            let mut k: usize = 0;
                            while k < rest.len()
                                invariant
                                    k <= rest@.len(),
                                    g@ == seq![v] + rest@.subrange(0, k as int),
                                decreases rest@.len() - k,
                            {
                                g.push(rest[k]);
                                k += 1;
                                proof {
                                    assert(g@ =~= seq![v] + rest@.subrange(0, k as int));
                                }
                            }
                            proof {
                                assert(rest@.subrange(0, rest@.len() as int) =~= rest@);
                                assert(g@ =~= seq![v] + rest@);
                            }
                            Some(g)
                        },
                    }
                } else {
                    None
                }
            },
        }
    }
}

/// The position of the first `::` at or after `pos`, if any.
pub open spec fn find_dc_at(s: Seq<u8>, pos: int) -> Option<int>
    decreases s.len() - pos,
{
    if pos < 0 || pos + 2 > s.len() {
        None
    } else if s[pos] == 58 && s[pos + 1] == 58 {
        Some(pos)
    } else {
        find_dc_at(s, pos + 1)
    }
}

/// Finds the first `::` at or after `pos`, as `find_dc_at` describes.
fn find_dc(s: &Vec<u8>, pos: usize) -> (r: Option<usize>)
    requires
        pos <= s@.len(),
    ensures
        match r {
            Some(j) => find_dc_at(s@, pos as int) == Some(j as int) && pos <= j && j + 2
                <= s@.len(),
            None => find_dc_at(s@, pos as int) is None,
        },
    decreases s@.len() - pos,
{
    if s.len() - pos < 2 {
        None
    } else if s[pos] == 58 && s[pos + 1] == 58 {
        Some(pos)
    } else {
        find_dc(s, pos + 1)
    }
}

/// The IPv6 address denoted by `s`: eight colon-separated hex groups, or
/// fewer with one `::` standing for the missing zero groups.
pub open spec fn parse_ipv6_spec(s: Seq<u8>) -> Option<u128> {
    match find_dc_at(s, 0) {
        None => match parse_groups_at(s, 0, s.len() as int) {
            None => None,
            Some(g) => if g.len() == 8 {
                Some(segs_val(g) as u128)
            } else {
                None
            },
        },
        Some(j) => match (parse_groups_at(s, 0, j), parse_groups_at(s, j + 2, s.len() as int)) {
            (Some(l), Some(r)) => if l.len() + r.len() <= 7 {
                Some(segs_val(l + Seq::new((8 - l.len() - r.len()) as nat, |i: int| 0u16) + r) as u128)
            } else {
                None
            },
            _ => None,
        },
    }
}

/// Combines exactly eight segments into an IPv6 value.
fn combine_segs(g: &Vec<u16>) -> (r: u128)
    requires
        g@.len() == 8,
    ensures
        r as int == segs_val(g@),
{
    let mut acc: u128 = 0;
    let mut i: usize = 0;
    while i < 8
        invariant
            i <= 8,
            g@.len() == 8,
            acc as int == segs_val(g@.subrange(0, i as int)),
            acc < p65536(i as nat),
        decreases 8 - i,
    {
        proof {
            assert(p65536(8) == 0x100000000000000000000000000000000) by {
                reveal_with_fuel(p65536, 9);
            }
            assert(acc * 0x10000 <= (p65536(i as nat) - 1) * 0x10000) by (nonlinear_arith)
                requires
                    acc <= p65536(i as nat) - 1,
            ;
            lemma_p65536_le((i + 1) as nat, 8);
            assert(g@.subrange(0, i + 1).drop_last() =~= g@.subrange(0, i as int));
        }
        acc = acc * 0x10000 + (g[i] as u128);
        i += 1;
    }
    proof {
        assert(g@.subrange(0, 8) =~= g@);
    }
    acc
}

/// Reads an IPv6 address from its text, exactly as `parse_ipv6_spec`
/// describes.
pub fn parse_ipv6(s: &Vec<u8>) -> (r: Option<u128>)
    ensures
        r == parse_ipv6_spec(s@),
{
    match find_dc(s, 0) {
        None => match parse_groups(s, 0, s.len()) {
            None => None,
            Some(g) => {
                if g.len() == 8 {
                    Some(combine_segs(&g))
                } else {
                    None
                }
            },
        },
        Some(j) => {
            let left = parse_groups(s, 0, j);
            let right = parse_groups(s, j + 2, s.len());
            match (left, right) {
                (Some(l), Some(rg)) => {
                    if l.len() + rg.len() <= 7 {
                        let mut full: Vec<u16> = Vec::new();
                        let mut k: usize = 0;
                        while k < l.len()
                            invariant
                                k <= l@.len(),
                                full@ == l@.subrange(0, k as int),
                            decreases l@.len() - k,
                        {
                            full.push(l[k]);
                            k += 1;
                            proof {
                                assert(full@ =~= l@.subrange(0, k as int));
                            }
                        }
                        let zeros = 8 - l.len() - rg.len();
                        let mut z: usize = 0;
                        while z < zeros
                            invariant
                                z <= zeros,
                                zeros == 8 - l@.len() - rg@.len(),
                                l@.len() + rg@.len() <= 7,
                                full@ == l@.subrange(0, l@.len() as int) + Seq::new(
                                    z as nat,
                                    |i: int| 0u16,
                                ),
                            decreases zeros - z,
                        {
                            full.push(0);
                            z += 1;
                            proof {
                                assert(full@ =~= l@.subrange(0, l@.len() as int) + Seq::new(
                                    z as nat,
                                    |i: int| 0u16,
                                ));
                            }
                        }
                        let mut k2: usize = 0;
                        while k2 < rg.len()
                            invariant
                                k2 <= rg@.len(),
                                zeros == 8 - l@.len() - rg@.len(),
                                l@.len() + rg@.len() <= 7,
                                full@ == l@.subrange(0, l@.len() as int) + Seq::new(
                                    zeros as nat,
                                    |i: int| 0u16,
                                ) + rg@.subrange(0, k2 as int),
                            decreases rg@.len() - k2,
                        {
                            full.push(rg[k2]);
                            k2 += 1;
                            proof {
                                assert(full@ =~= l@.subrange(0, l@.len() as int) + Seq::new(
                                    zeros as nat,
                                    |i: int| 0u16,
                                ) + rg@.subrange(0, k2 as int));
                            }
                        }
                        proof {
                            assert(l@.subrange(0, l@.len() as int) =~= l@);
                            assert(rg@.subrange(0, rg@.len() as int) =~= rg@);
                            assert(full@ =~= l@ + Seq::new(
                                (8 - l@.len() - rg@.len()) as nat,
                                |i: int| 0u16,
                            ) + rg@);
                        }
                        Some(combine_segs(&full))
                    } else {
                        None
                    }
                },
                _ => None,
            }
        },
    }
}

/// The hex form of a segment is one to four hex digits, and a hex digit is
/// never a colon; its first digit reads back to its own value.
proof fn lemma_hex4_shape(n: int)
    requires
        0 <= n < 0x10000,
    ensures
        1 <= hex4(n).len() <= 4,
        forall|i: int| 0 <= i < hex4(n).len() ==> is_hexdig(#[trigger] hex4(n)[i]) && hex4(n)[i]
            != 58,
{
}

/// Reading a segment back from its hex form: at a position where the text
/// holds `hex4(n)` followed by a non-hex-digit or the region's end, the
/// greedy read returns `n` and stops right after it.
proof fn lemma_parse_hex4_canon(s: Seq<u8>, pos: int, end: int, n: int)
    requires
        0 <= n < 0x10000,
        0 <= pos,
        end <= s.len(),
        pos + hex4(n).len() <= end,
        s.subrange(pos, pos + hex4(n).len()) == hex4(n),
        pos + hex4(n).len() == end || !is_hexdig(s[pos + hex4(n).len()]),
    ensures
        parse_hex4_at(s, pos, end) == Some(((n as u16), pos + hex4(n).len())),
{
    let l = hex4(n).len() as int;
    assert forall|i: int| 0 <= i < l implies s[pos + i] == hex4(n)[i] by {
        assert(s.subrange(pos, pos + l)[i] == hex4(n)[i]);
    }
    lemma_hex4_shape(n);
    if n < 0x10 {
        assert(s[pos + 0] == hex4(n)[0]);
    } else if n < 0x100 {
        assert(s[pos + 0] == hex4(n)[0] && s[pos + 1] == hex4(n)[1]);
        assert((n / 0x10) * 0x10 + n % 0x10 == n) by {
            vstd::arithmetic::div_mod::lemma_fundamental_div_mod(n, 0x10);
        }
    } else if n < 0x1000 {
        assert(s[pos + 0] == hex4(n)[0] && s[pos + 1] == hex4(n)[1] && s[pos + 2] == hex4(n)[2]);
        assert((n / 0x100) * 0x100 + ((n / 0x10) % 0x10) * 0x10 + n % 0x10 == n) by {
            vstd::arithmetic::div_mod::lemma_fundamental_div_mod(n, 0x10);
            vstd::arithmetic::div_mod::lemma_fundamental_div_mod(n / 0x10, 0x10);
            vstd::arithmetic::div_mod::lemma_div_denominator(n, 0x10, 0x10);
        }
    } else {
        assert(s[pos + 0] == hex4(n)[0] && s[pos + 1] == hex4(n)[1] && s[pos + 2] == hex4(n)[2]
            && s[pos + 3] == hex4(n)[3]);
        assert((n / 0x1000) * 0x1000 + ((n / 0x100) % 0x10) * 0x100 + ((n / 0x10) % 0x10) * 0x10 + n
            % 0x10 == n) by {
            vstd::arithmetic::div_mod::lemma_fundamental_div_mod(n, 0x10);
            vstd::arithmetic::div_mod::lemma_fundamental_div_mod(n / 0x10, 0x10);
            vstd::arithmetic::div_mod::lemma_fundamental_div_mod(n / 0x100, 0x10);
            vstd::arithmetic::div_mod::lemma_div_denominator(n, 0x10, 0x10);
            vstd::arithmetic::div_mod::lemma_div_denominator(n, 0x100, 0x10);
        }
    }
}

/// A colon join of hex groups holds at least one byte per group.
proof fn lemma_hex_join_len(g: Seq<u16>, lo: int, hi: int)
    requires
        0 <= lo,
        hi <= g.len(),
    ensures
        hi > lo ==> hex_join(g, lo, hi).len() >= hi - lo,
    decreases hi - lo,
{
    if lo < hi {
        lemma_hex_join_len(g, lo + 1, hi);
        lemma_hex4_shape(g[lo] as int);
    }
}

/// The characters of a colon join: every byte is a hex digit or a single
/// colon, it begins and ends with a hex digit, and no two colons stand side
/// by side.
proof fn lemma_hex_join_chars(g: Seq<u16>, lo: int, hi: int)
    requires
        0 <= lo,
        hi <= g.len(),
    ensures
        ({
            let j = hex_join(g, lo, hi);
            &&& hi > lo ==> j.len() >= 1 && is_hexdig(j[0]) && is_hexdig(j[j.len() - 1])
            &&& forall|k: int| 0 <= k < j.len() - 1 ==> !(#[trigger] j[k] == 58 && j[k + 1] == 58)
        }),
    decreases hi - lo,
{
    if lo >= hi {
    } else if lo == hi - 1 {
        lemma_hex4_shape(g[lo] as int);
    } else {
        lemma_hex4_shape(g[lo] as int);
        lemma_hex_join_chars(g, lo + 1, hi);
        let h = hex4(g[lo] as int);
        let l = h.len() as int;
        let rest = hex_join(g, lo + 1, hi);
        let j = hex_join(g, lo, hi);
        assert(j.len() == l + 1 + rest.len());
        assert forall|k: int| 0 <= k < j.len() - 1 implies !(#[trigger] j[k] == 58 && j[k + 1]
            == 58) by {
            if k < l {
                assert(j[k] == h[k]);
            } else if k == l {
                assert(j[k + 1] == rest[0]);
            } else {
                assert(j[k] == rest[k - (l + 1)]);
                assert(j[k + 1] == rest[k - (l + 1) + 1]);
            }
        }
        assert(j[0] == h[0]);
        assert(j[j.len() - 1] == rest[rest.len() - 1]);
    }
}

/// Reading the groups back from their colon join: the region `[pos, end)`
/// holding exactly the join of groups `lo..hi` parses to those groups.
proof fn lemma_parse_join(s: Seq<u8>, pos: int, end: int, g: Seq<u16>, lo: int, hi: int)
    requires
        0 <= lo <= hi <= g.len(),
        0 <= pos <= end <= s.len(),
        end - pos == hex_join(g, lo, hi).len(),
        s.subrange(pos, end) == hex_join(g, lo, hi),
    ensures
        parse_groups_at(s, pos, end) == Some(g.subrange(lo, hi)),
    decreases hi - lo,
{
    let j = hex_join(g, lo, hi);
    assert forall|i: int| 0 <= i < j.len() implies s[pos + i] == j[i] by {
        assert(s.subrange(pos, end)[i] == j[i]);
    }
    if lo == hi {
        assert(g.subrange(lo, hi) =~= Seq::<u16>::empty());
    } else if lo == hi - 1 {
        assert(s.subrange(pos, pos + hex4(g[lo] as int).len()) =~= hex4(g[lo] as int));
        lemma_parse_hex4_canon(s, pos, end, g[lo] as int);
        assert(g.subrange(lo, hi) =~= seq![g[lo]]);
    } else {
        let h = hex4(g[lo] as int);
        let l = h.len() as int;
        let rest = hex_join(g, lo + 1, hi);
        lemma_hex_join_len(g, lo + 1, hi);
        assert(j == h + seq![58u8] + rest);
        assert(j.len() == l + 1 + rest.len());
        assert forall|i2: int| 0 <= i2 < l implies s.subrange(pos, pos + l)[i2] == h[i2] by {
            assert(s[pos + i2] == j[i2]);
            assert(j[i2] == h[i2]);
        }
        assert(s.subrange(pos, pos + l) =~= h);
        assert(j[l] == 58);
        assert(s[pos + l] == j[l]);
        lemma_parse_hex4_canon(s, pos, end, g[lo] as int);
        let e = pos + l;
        assert(e + 1 < end);
        assert forall|i2: int| 0 <= i2 < rest.len() implies s.subrange(e + 1, end)[i2] == rest[i2]
            by {
            assert(s[e + 1 + i2] == j[l + 1 + i2]);
            assert(j[l + 1 + i2] == rest[i2]);
        }
        assert(s.subrange(e + 1, end) =~= rest);
        lemma_parse_join(s, e + 1, end, g, lo + 1, hi);
        assert(seq![g[lo]] + g.subrange(lo + 1, hi) =~= g.subrange(lo, hi));
    }
}

/// Scanning a region without a double colon finds none.
proof fn lemma_find_dc_none(s: Seq<u8>, p: int)
    requires
        0 <= p <= s.len(),
        forall|k: int| p <= k < s.len() - 1 ==> !(#[trigger] s[k] == 58 && s[k + 1] == 58),
    ensures
        find_dc_at(s, p) is None,
    decreases s.len() - p,
{
    if p + 2 <= s.len() {
        lemma_find_dc_none(s, p + 1);
    }
}

/// Scanning finds the first double colon: none stands before `q`, one
/// stands at `q`.
proof fn lemma_find_dc_some(s: Seq<u8>, p: int, q: int)
    requires
        0 <= p <= q,
        q + 2 <= s.len(),
        forall|k: int| p <= k < q ==> !(#[trigger] s[k] == 58 && s[k + 1] == 58),
        s[q] == 58 && s[q + 1] == 58,
    ensures
        find_dc_at(s, p) == Some(q),
    decreases q - p,
{
    if p < q {
        lemma_find_dc_some(s, p + 1, q);
    }
}

/// The run of zeros beginning at `i` is zeros indeed, and stays inside the
/// segments.
proof fn lemma_zero_run(g: Seq<u16>, i: int)
    requires
        0 <= i <= g.len(),
    ensures
        0 <= zero_run_len(g, i) <= g.len() - i,
        forall|k: int| i <= k < i + zero_run_len(g, i) ==> g[k] == 0,
    decreases g.len() - i,
{
    if i < g.len() && g[i] == 0 {
        lemma_zero_run(g, i + 1);
    }
}

/// The best zero run starts at or after `i`, stays inside the segments, and
/// its length is the run length at its start.
proof fn lemma_best_run(g: Seq<u16>, i: int)
    requires
        0 <= i <= g.len(),
    ensures
        ({
            let (bs, bl) = best_zero_run(g, i);
            i <= bs <= g.len() && 0 <= bl && bs + bl <= g.len() && bl == zero_run_len(g, bs)
        }),
    decreases g.len() - i,
{
    if 0 <= i < g.len() {
        lemma_zero_run(g, i);
        lemma_best_run(g, i + 1);
    } else {
    }
}

/// The segments of a 128-bit value compose back to the value.
proof fn lemma_segs_of_val(v: int)
    requires
        0 <= v < 0x100000000000000000000000000000000,
    ensures
        segs_val(segs_of(v)) == v,
{
    let g = segs_of(v);
    let k = 0x10000;
    vstd::arithmetic::div_mod::lemma_fundamental_div_mod(v, k);
    vstd::arithmetic::div_mod::lemma_fundamental_div_mod(v / k, k);
    vstd::arithmetic::div_mod::lemma_fundamental_div_mod(v / 0x100000000, k);
    vstd::arithmetic::div_mod::lemma_fundamental_div_mod(v / 0x1000000000000, k);
    vstd::arithmetic::div_mod::lemma_fundamental_div_mod(v / 0x10000000000000000, k);
    vstd::arithmetic::div_mod::lemma_fundamental_div_mod(v / 0x100000000000000000000, k);
    vstd::arithmetic::div_mod::lemma_fundamental_div_mod(v / 0x1000000000000000000000000, k);
    vstd::arithmetic::div_mod::lemma_div_denominator(v, k, k);
    vstd::arithmetic::div_mod::lemma_div_denominator(v, 0x100000000, k);
    vstd::arithmetic::div_mod::lemma_div_denominator(v, 0x1000000000000, k);
    vstd::arithmetic::div_mod::lemma_div_denominator(v, 0x10000000000000000, k);
    vstd::arithmetic::div_mod::lemma_div_denominator(v, 0x100000000000000000000, k);
    vstd::arithmetic::div_mod::lemma_div_denominator(v, 0x1000000000000000000000000, k);
    assert(v / 0x10000000000000000000000000000 < k);
    vstd::arithmetic::div_mod::lemma_small_mod(
        (v / 0x10000000000000000000000000000) as nat,
        k as nat,
    );
    let g7 = g.drop_last();
    let g6 = g7.drop_last();
    let g5 = g6.drop_last();
    let g4 = g5.drop_last();
    let g3 = g4.drop_last();
    let g2 = g3.drop_last();
    let g1 = g2.drop_last();
    let g0 = g1.drop_last();
    assert(g0 =~= Seq::<u16>::empty());
    assert(segs_val(g0) == 0);
    assert(g1.last() as int == seg_at(v, 0) && segs_val(g1) == segs_val(g0) * k + seg_at(v, 0));
    assert(g2.last() as int == seg_at(v, 1) && segs_val(g2) == segs_val(g1) * k + seg_at(v, 1));
    assert(g3.last() as int == seg_at(v, 2) && segs_val(g3) == segs_val(g2) * k + seg_at(v, 2));
    assert(g4.last() as int == seg_at(v, 3) && segs_val(g4) == segs_val(g3) * k + seg_at(v, 3));
    assert(g5.last() as int == seg_at(v, 4) && segs_val(g5) == segs_val(g4) * k + seg_at(v, 4));
    assert(g6.last() as int == seg_at(v, 5) && segs_val(g6) == segs_val(g5) * k + seg_at(v, 5));
    assert(g7.last() as int == seg_at(v, 6) && segs_val(g7) == segs_val(g6) * k + seg_at(v, 6));
    assert(g.last() as int == seg_at(v, 7) && segs_val(g) == segs_val(g7) * k + seg_at(v, 7));
}

/// Reading back the canonical text of an IPv6 address yields the address:
/// parsing inverts formatting.
pub proof fn lemma_parse_format_ipv6(v: int)
    requires
        0 <= v < 0x100000000000000000000000000000000,
    ensures
        parse_ipv6_spec(ipv6_string(v)) == Some(v as u128),
{
    let g = segs_of(v);
    let s = ipv6_string(v);
    let (bs, bl) = best_zero_run(g, 0);
    lemma_best_run(g, 0);
    lemma_zero_run(g, bs);
    lemma_segs_of_val(v);
    if bl >= 2 {
        let j1 = hex_join(g, 0, bs);
        let j2 = hex_join(g, bs + bl, 8);
        let d = j1.len() as int;
        assert(s =~= j1 + seq![58u8, 58u8] + j2);
        lemma_hex_join_chars(g, 0, bs);
        lemma_hex_join_chars(g, bs + bl, 8);
        assert(s[d] == 58 && s[d + 1] == 58);
        assert forall|k: int| 0 <= k < d implies !(#[trigger] s[k] == 58 && s[k + 1] == 58) by {
            if k < d - 1 {
                assert(s[k] == j1[k] && s[k + 1] == j1[k + 1]);
            } else {
                assert(s[k] == j1[j1.len() - 1]);
            }
        }
        lemma_find_dc_some(s, 0, d);
        assert(s.subrange(0, d) =~= j1);
        lemma_parse_join(s, 0, d, g, 0, bs);
        assert(s.subrange(d + 2, s.len() as int) =~= j2);
        lemma_parse_join(s, d + 2, s.len() as int, g, bs + bl, 8);
        let l = g.subrange(0, bs);
        let r = g.subrange(bs + bl, 8);
        assert(l.len() + r.len() == 8 - bl <= 7);
        let full = l + Seq::new((8 - l.len() - r.len()) as nat, |i: int| 0u16) + r;
        assert(full =~= g) by {
            assert(forall|i: int| bs <= i < bs + bl ==> g[i] == 0);
        }
    } else {
        let j = hex_join(g, 0, 8);
        assert(s =~= j);
        lemma_hex_join_chars(g, 0, 8);
        assert forall|k: int| 0 <= k < s.len() - 1 implies !(#[trigger] s[k] == 58 && s[k + 1]
            == 58) by {
            assert(s[k] == j[k] && s[k + 1] == j[k + 1]);
        }
        lemma_find_dc_none(s, 0);
        assert(s.subrange(0, s.len() as int) =~= j);
        lemma_parse_join(s, 0, s.len() as int, g, 0, 8);
        assert(g.subrange(0, 8) =~= g);
    }
}

/// The canonical text of an IPv6 address is not empty, holds a colon, and
/// does not begin with a slash.
pub proof fn lemma_ipv6_string_shape(v: int)
    requires
        0 <= v < 0x100000000000000000000000000000000,
    ensures
        ipv6_string(v).len() > 0,
        has_colon(ipv6_string(v)),
        ipv6_string(v)[0] != 47,
{
    let g = segs_of(v);
    let s = ipv6_string(v);
    let (bs, bl) = best_zero_run(g, 0);
    lemma_best_run(g, 0);
    if bl >= 2 {
        let j1 = hex_join(g, 0, bs);
        let d = j1.len() as int;
        assert(s =~= j1 + seq![58u8, 58u8] + hex_join(g, bs + bl, 8));
        assert(s[d] == 58);
        lemma_hex_join_chars(g, 0, bs);
        if bs > 0 {
            assert(s[0] == j1[0]);
            assert(is_hexdig(s[0]));
        } else {
            assert(s[0] == 58);
        }
    } else {
        let j = hex_join(g, 0, 8);
        assert(s =~= j);
        let h = hex4(g[0] as int);
        let l = h.len() as int;
        assert(j == h + seq![58u8] + hex_join(g, 1, 8));
        assert(s[l] == 58);
        lemma_hex_join_chars(g, 0, 8);
        assert(s[0] == j[0]);
        assert(is_hexdig(s[0]));
    }
}

/// The result of masking `ip` with `mask`: the bitwise AND of the two when
/// the families agree, a family-mismatch error otherwise.
pub open spec fn mask_ips_spec(ip: IpAddr, mask: IpAddr) -> Result<IpAddr, RuntimeError> {
    match (ip, mask) {
        (IpAddr::V4(a), IpAddr::V4(m)) => Ok(IpAddr::V4(a & m)),
        (IpAddr::V6(a), IpAddr::V6(m)) => Ok(IpAddr::V6(a & m)),
        (IpAddr::V6(_), IpAddr::V4(_)) => Err(RuntimeError::MaskV6AddrV4Mask),
        (IpAddr::V4(_), IpAddr::V6(_)) => Err(RuntimeError::MaskV4AddrV6Mask),
    }
}

/// Whether some byte of `s` is a colon.
pub open spec fn has_colon(s: Seq<u8>) -> bool {
    exists|i: int| 0 <= i < s.len() && s[i] == 58
}

/// The address denoted by `s`: IPv6 when the text holds a colon, IPv4
/// otherwise.
pub open spec fn parse_ip_spec(s: Seq<u8>) -> Option<IpAddr> {
    if has_colon(s) {
        match parse_ipv6_spec(s) {
            Some(v) => Some(IpAddr::V6(v)),
            None => None,
        }
    } else {
        match parse_ipv4_spec(s) {
            Some(v) => Some(IpAddr::V4(v)),
            None => None,
        }
    }
}

/// Reads an address of either family, as `parse_ip_spec` describes.
pub fn parse_ip(s: &Vec<u8>) -> (r: Option<IpAddr>)
    ensures
        r == parse_ip_spec(s@),
{
    let mut i: usize = 0;
    let mut colon = false;
    while i < s.len()
        invariant
            i <= s@.len(),
            colon == exists|j: int| 0 <= j < i && s@[j] == 58,
        decreases s@.len() - i,
    {
        if s[i] == 58 {
            colon = true;
        }
        i += 1;
    }
    if colon {
        match parse_ipv6(s) {
            Some(v) => Some(IpAddr::V6(v)),
            None => None,
        }
    } else {
        match parse_ipv4(s) {
            Some(v) => Some(IpAddr::V4(v)),
            None => None,
        }
    }
}

/// The canonical text of an address of either family.
pub open spec fn ip_string(a: IpAddr) -> Seq<u8> {
    match a {
        IpAddr::V4(v) => ipv4_string(v as int),
        IpAddr::V6(v) => ipv6_string(v as int),
    }
}

/// Formats an address of either family as its canonical text.
pub fn format_ip(a: IpAddr) -> (r: Vec<u8>)
    ensures
        r@ == ip_string(a),
{
    match a {
        IpAddr::V4(v) => format_ipv4(v),
        IpAddr::V6(v) => format_ipv6(v),
    }
}

/// The numeric value of a decimal digit string.
pub open spec fn digits_val(s: Seq<u8>) -> int
    decreases s.len(),
{
    if s.len() == 0 {
        0
    } else {
        digits_val(s.drop_last()) * 10 + (s.last() - 48)
    }
}

/// Whether every byte of `s` is a decimal digit.
pub open spec fn all_digits(s: Seq<u8>) -> bool {
    forall|i: int| 0 <= i < s.len() ==> is_digit(#[trigger] s[i])
}

/// 10 to the power `n`.
pub open spec fn p10(n: nat) -> int
    decreases n,
{
    if n == 0 {
        1
    } else {
        10 * p10((n - 1) as nat)
    }
}

/// A digit string's value is below 10 to the power of its length.
pub proof fn lemma_digits_val_bound(s: Seq<u8>)
    requires
        all_digits(s),
    ensures
        0 <= digits_val(s) < p10(s.len()),
    decreases s.len(),
{
    if s.len() > 0 {
        assert(all_digits(s.drop_last())) by {
            assert(forall|i: int| 0 <= i < s.len() - 1 ==> s.drop_last()[i] == s[i]);
        }
        lemma_digits_val_bound(s.drop_last());
        let p = p10((s.len() - 1) as nat);
        assert(digits_val(s.drop_last()) * 10 <= (p - 1) * 10) by (nonlinear_arith)
            requires
                digits_val(s.drop_last()) <= p - 1,
        ;
    }
}

/// The subnet length denoted by `s`: a slash followed by one to nine
/// decimal digits.
pub open spec fn parse_subnet_spec(s: Seq<u8>) -> Option<u32> {
    if 2 <= s.len() <= 10 && s[0] == 47 && all_digits(s.subrange(1, s.len() as int)) {
        Some(digits_val(s.subrange(1, s.len() as int)) as u32)
    } else {
        None
    }
}

/// Reads a subnet length of the form `/N`, as `parse_subnet_spec` describes;
/// any other text is not a valid subnet.
pub fn parse_subnet(s: &Vec<u8>) -> (r: Result<u32, RuntimeError>)
    ensures
        match parse_subnet_spec(s@) {
            Some(n) => r == Ok::<u32, RuntimeError>(n),
            None => r == Err::<u32, RuntimeError>(RuntimeError::InvalidSubnet),
        },
{
    if s.len() < 2 || s.len() > 10 || s[0] != 47 {
        return Err(RuntimeError::InvalidSubnet);
    }
    let mut acc: u32 = 0;
    let mut i: usize = 1;
    while i < s.len()
        invariant
            1 <= i <= s@.len() <= 10,
            s@.len() >= 2,
            all_digits(s@.subrange(1, i as int)),
            acc as int == digits_val(s@.subrange(1, i as int)),
            acc < p10((i - 1) as nat),
        decreases s@.len() - i,
    {
        let c = s[i];
        if c < 48 || c > 57 {
            proof {
                assert(!is_digit(s@.subrange(1, s@.len() as int)[i - 1]));
            }
            return Err(RuntimeError::InvalidSubnet);
        }
        proof {
            assert(p10(9) == 1000000000) by {
                reveal_with_fuel(p10, 10);
            }
            lemma_p10_le(i as nat, 9);
            assert(acc * 10 <= (p10((i - 1) as nat) - 1) * 10) by (nonlinear_arith)
                requires
                    acc <= p10((i - 1) as nat) - 1,
            ;
            assert(s@.subrange(1, i + 1).drop_last() =~= s@.subrange(1, i as int));
        }
        acc = acc * 10 + ((c - 48) as u32);
        i += 1;
    }
    proof {
        assert(s@.subrange(1, s@.len() as int) == s@.subrange(1, i as int));
        lemma_digits_val_bound(s@.subrange(1, s@.len() as int));
    }
    Ok(acc)
}

/// `p10` is monotonic.
pub proof fn lemma_p10_le(i: nat, j: nat)
    requires
        i <= j,
    ensures
        p10(i) <= p10(j),
        p10(i) >= 1,
    decreases j,
{
    if i == j {
        if j > 0 {
            lemma_p10_le((i - 1) as nat, (j - 1) as nat);
        }
    } else {
        lemma_p10_le(i, (j - 1) as nat);
    }
}

/// Masks the address by a bitwise AND with the mask; addresses of different
/// families cannot be combined.
pub fn mask_ips(ip: IpAddr, mask: IpAddr) -> (r: Result<IpAddr, RuntimeError>)
    ensures
        r == mask_ips_spec(ip, mask),
{
    match (ip, mask) {
        (IpAddr::V4(a), IpAddr::V4(m)) => Ok(IpAddr::V4(a & m)),
        (IpAddr::V6(a), IpAddr::V6(m)) => Ok(IpAddr::V6(a & m)),
        (IpAddr::V6(_), IpAddr::V4(_)) => Err(RuntimeError::MaskV6AddrV4Mask),
        (IpAddr::V4(_), IpAddr::V6(_)) => Err(RuntimeError::MaskV4AddrV6Mask),
    }
}

} // verus!
