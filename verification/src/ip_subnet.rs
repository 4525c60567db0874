//! The `ip_subnet` function: masking an IP address down to its subnet.
//!
//! The function takes two string operands, an address and a subnet
//! specifier. The specifier is either a prefix length `/N`, checked against
//! the address family's bit width, or a literal address-shaped mask. The
//! mask is applied by a bitwise AND and the masked address is returned as
//! its canonical text.

use vstd::prelude::*;
use vstd::string::*;
use crate::expression::Expr;
use crate::expression::RuntimeError;
use crate::function::ArgumentList;
use crate::function::CompileError;
use crate::function::Parameter;
use crate::function::take_spec;
use crate::ip::IpAddr;
use crate::ip::bytes_be;
use crate::ip::format_ip;
use crate::ip::get_mask_bits;
use crate::ip::ip_string;
use crate::ip::ipv4_addr;
use crate::ip::ipv6_addr;
use crate::ip::mask_byte;
use crate::ip::mask_ips;
use crate::ip::mask_ips_spec;
use crate::ip::parse_ip;
use crate::ip::parse_ip_spec;
use crate::ip::parse_subnet;
use crate::ip::parse_subnet_spec;
use crate::value::Kind;
use crate::value::KindSet;

verus! {

/// The bytes of the prefix mask with the leftmost `bits` bits set, over a
/// width of `w` bytes.
pub open spec fn mask_seq(bits: int, w: int) -> Seq<u8> {
    Seq::new(w as nat, |i: int| mask_byte(bits, i))
}

/// The IPv4 prefix mask `/n` as a numeric value.
pub open spec fn prefix_v4(n: int) -> int {
    bytes_be(mask_seq(n, 4))
}

/// The IPv6 prefix mask `/n` as a numeric value.
pub open spec fn prefix_v6(n: int) -> int {
    bytes_be(mask_seq(n, 16))
}

/// The mask denoted by the specifier `mask` for an address of `a`'s family:
/// a prefix form `/N` builds the family's prefix mask and is rejected beyond
/// the family's bit width; any other text must be an address-shaped mask.
pub open spec fn mask_of_spec(a: IpAddr, mask: Seq<u8>) -> Result<IpAddr, RuntimeError> {
    if mask.len() > 0 && mask[0] == 47 {
        match parse_subnet_spec(mask) {
            None => Err(RuntimeError::InvalidSubnet),
            Some(n) => match a {
                IpAddr::V4(_) => if n > 32 {
                    Err(RuntimeError::SubnetTooLargeV4)
                } else {
                    Ok(IpAddr::V4(prefix_v4(n as int) as u32))
                },
                IpAddr::V6(_) => if n > 128 {
                    Err(RuntimeError::SubnetTooLargeV6)
                } else {
                    Ok(IpAddr::V6(prefix_v6(n as int) as u128))
                },
            },
        }
    } else {
        match parse_ip_spec(mask) {
            None => Err(RuntimeError::InvalidMask),
            Some(m) => Ok(m),
        }
    }
}

/// What `ip_subnet` computes from the address text and the specifier text:
/// the canonical text of the masked address, or the failure that stops it.
pub open spec fn ip_subnet_compute_spec(addr: Seq<u8>, mask: Seq<u8>) -> Result<
    Seq<u8>,
    RuntimeError,
> {
    match parse_ip_spec(addr) {
        None => Err(RuntimeError::InvalidAddress),
        Some(a) => match mask_of_spec(a, mask) {
            Err(e) => Err(e),
            Ok(m) => match mask_ips_spec(a, m) {
                Err(e) => Err(e),
                Ok(x) => Ok(ip_string(x)),
            },
        },
    }
}

/// Masks the address text by the specifier text, exactly as
/// `ip_subnet_compute_spec` describes.
pub fn ip_subnet_compute(addr: &Vec<u8>, mask: &Vec<u8>) -> (r: Result<Vec<u8>, RuntimeError>)
    ensures
        match r {
            Ok(out) => ip_subnet_compute_spec(addr@, mask@) == Ok::<Seq<u8>, RuntimeError>(out@),
            Err(e) => ip_subnet_compute_spec(addr@, mask@) == Err::<Seq<u8>, RuntimeError>(e),
        },
{
    let a = match parse_ip(addr) {
        Some(a) => a,
        None => {
            return Err(RuntimeError::InvalidAddress);
        },
    };
    let m: IpAddr = if mask.len() > 0 && mask[0] == 47 {
        let n = match parse_subnet(mask) {
            Ok(n) => n,
            Err(e) => {
                return Err(e);
            },
        };
        match a {
            IpAddr::V4(_) => {
                if n > 32 {
                    return Err(RuntimeError::SubnetTooLargeV4);
                }
                let bits = get_mask_bits(n, 4);
                proof {
                    assert(bits@ =~= mask_seq(n as int, 4));
                }
                ipv4_addr(&bits)
            },
            IpAddr::V6(_) => {
                if n > 128 {
                    return Err(RuntimeError::SubnetTooLargeV6);
                }
                let bits = get_mask_bits(n, 16);
                proof {
                    assert(bits@ =~= mask_seq(n as int, 16));
                }
                ipv6_addr(&bits)
            },
        }
    } else {
        match parse_ip(mask) {
            Some(m) => m,
            None => {
                return Err(RuntimeError::InvalidMask);
            },
        }
    };
    let x = match mask_ips(a, m) {
        Ok(x) => x,
        Err(e) => {
            return Err(e);
        },
    };
    Ok(format_ip(x))
}

/// Every byte of a dotted-decimal address text is a digit or a dot.
proof fn lemma_ipv4_string_chars(a: int)
    requires
        0 <= a < 0x100000000,
    ensures
        forall|i: int|
            0 <= i < crate::ip::ipv4_string(a).len() ==> (crate::ip::is_digit(
                #[trigger] crate::ip::ipv4_string(a)[i],
            ) || crate::ip::ipv4_string(a)[i] == 46),
{
    let b0 = a / 0x1000000 % 256;
    let b1 = a / 0x10000 % 256;
    let b2 = a / 0x100 % 256;
    let b3 = a % 256;
    crate::ip::lemma_dec3_shape(b0);
    crate::ip::lemma_dec3_shape(b1);
    crate::ip::lemma_dec3_shape(b2);
    crate::ip::lemma_dec3_shape(b3);
    let s = crate::ip::ipv4_string(a);
    let d0 = crate::ip::dec3(b0);
    let d1 = crate::ip::dec3(b1);
    let d2 = crate::ip::dec3(b2);
    let d3 = crate::ip::dec3(b3);
    assert forall|i: int|
        0 <= i < s.len() implies (crate::ip::is_digit(#[trigger] s[i]) || s[i] == 46) by {
        let l0 = d0.len() as int;
        let l1 = d1.len() as int;
        let l2 = d2.len() as int;
        let l3 = d3.len() as int;
        if i < l0 {
            assert(s[i] == d0[i]);
        } else if i == l0 {
        } else if i < l0 + 1 + l1 {
            assert(s[i] == d1[i - (l0 + 1)]);
        } else if i == l0 + 1 + l1 {
        } else if i < l0 + 1 + l1 + 1 + l2 {
            assert(s[i] == d2[i - (l0 + 1 + l1 + 1)]);
        } else if i == l0 + 1 + l1 + 1 + l2 {
        } else {
            assert(s[i] == d3[i - (l0 + 1 + l1 + 1 + l2 + 1)]);
        }
    }
}

/// Masking by a prefix form and by the literal text of the same mask agree
/// for IPv4: when the specifier `s` denotes the subnet length `n`, within
/// the 32-bit range, and the address text denotes an IPv4 address, the
/// outcome with `s` equals the outcome with the dotted-decimal text of the
/// prefix mask built from `n`.
pub proof fn lemma_prefix_and_literal_mask_agree_v4(addr: Seq<u8>, s: Seq<u8>, n: u32)
    requires
        parse_subnet_spec(s) == Some(n),
        n <= 32,
        parse_ip_spec(addr) matches Some(a) && a is V4,
    ensures
        ip_subnet_compute_spec(addr, s) == ip_subnet_compute_spec(
            addr,
            crate::ip::ipv4_string(prefix_v4(n as int)),
        ),
{
    let m = prefix_v4(n as int);
    crate::ip::lemma_bytes_be_bound(mask_seq(n as int, 4));
    assert(crate::ip::p256(4) == 0x100000000) by {
        reveal_with_fuel(crate::ip::p256, 5);
    }
    let t = crate::ip::ipv4_string(m);
    lemma_ipv4_string_chars(m);
    assert(t[0] != 47 && t.len() > 0) by {
        crate::ip::lemma_dec3_shape(m / 0x1000000 % 256);
        assert(t[0] == crate::ip::dec3(m / 0x1000000 % 256)[0]);
    }
    assert(!crate::ip::has_colon(t)) by {
        if crate::ip::has_colon(t) {
            let i = choose|i: int| 0 <= i < t.len() && t[i] == 58;
            assert(crate::ip::is_digit(t[i]) || t[i] == 46);
        }
    }
    crate::ip::lemma_parse_format_ipv4(m);
    assert(s.len() > 0 && s[0] == 47);
    assert(mask_of_spec(parse_ip_spec(addr).unwrap(), s) == Ok::<IpAddr, RuntimeError>(
        IpAddr::V4(m as u32),
    ));
    assert(mask_of_spec(parse_ip_spec(addr).unwrap(), t) == Ok::<IpAddr, RuntimeError>(
        IpAddr::V4(m as u32),
    ));
}

/// Masking by a prefix form and by the literal text of the same mask agree
/// for IPv6: when the specifier `s` denotes the subnet length `n`, within
/// the 128-bit range, and the address text denotes an IPv6 address, the
/// outcome with `s` equals the outcome with the canonical text of the
/// prefix mask built from `n`.
pub proof fn lemma_prefix_and_literal_mask_agree_v6(addr: Seq<u8>, s: Seq<u8>, n: u32)
    requires
        parse_subnet_spec(s) == Some(n),
        n <= 128,
        parse_ip_spec(addr) matches Some(a) && a is V6,
    ensures
        ip_subnet_compute_spec(addr, s) == ip_subnet_compute_spec(
            addr,
            crate::ip::ipv6_string(prefix_v6(n as int)),
        ),
{
    let m = prefix_v6(n as int);
    crate::ip::lemma_bytes_be_bound(mask_seq(n as int, 16));
    assert(crate::ip::p256(16) == 0x100000000000000000000000000000000) by {
        reveal_with_fuel(crate::ip::p256, 17);
    }
    let t = crate::ip::ipv6_string(m);
    crate::ip::lemma_ipv6_string_shape(m);
    crate::ip::lemma_parse_format_ipv6(m);
    assert(s.len() > 0 && s[0] == 47);
    assert(mask_of_spec(parse_ip_spec(addr).unwrap(), s) == Ok::<IpAddr, RuntimeError>(
        IpAddr::V6(m as u128),
    ));
    assert(mask_of_spec(parse_ip_spec(addr).unwrap(), t) == Ok::<IpAddr, RuntimeError>(
        IpAddr::V6(m as u128),
    ));
}

/// The `ip_subnet` function descriptor.
#[derive(Clone, Copy, Debug)]
pub struct IpSubnet;

/// The compiled `ip_subnet` node: two string-producing operands, the address
/// and the subnet specifier.
#[derive(Debug)]
pub struct IpSubnetFn {
    pub value: Box<Expr>,
    pub subnet: Box<Expr>,
}

impl IpSubnetFn {
    /// An `ip_subnet` node over the given operands.
    pub fn new(value: Box<Expr>, subnet: Box<Expr>) -> (r: IpSubnetFn)
        ensures
            r.value == value,
            r.subnet == subnet,
    {
        IpSubnetFn { value, subnet }
    }
}

impl IpSubnet {
    /// The identifier the compiler looks this function up under.
    pub fn identifier(&self) -> (r: &'static str)
        ensures
            r@ == "ip_subnet"@,
    {
        "ip_subnet"
    }

    /// The declared parameters: a required string `value` and a required
    /// string `subnet`.
    pub fn parameters(&self) -> (r: Vec<Parameter>)
        ensures
            r@.len() == 2,
            r@[0].keyword@ == "value"@,
            r@[0].accepts == KindSet::exactly_as_spec(Kind::Bytes),
            r@[0].required,
            r@[1].keyword@ == "subnet"@,
            r@[1].accepts == KindSet::exactly_as_spec(Kind::Bytes),
            r@[1].required,
    {
        let mut r: Vec<Parameter> = Vec::new();
        r.push(Parameter { keyword: "value", accepts: KindSet::exactly(Kind::Bytes), required: true });
        r.push(
            Parameter { keyword: "subnet", accepts: KindSet::exactly(Kind::Bytes), required: true },
        );
        r
    }

    /// Resolves the two required arguments and closes over them in an
    /// `ip_subnet` node; a missing argument aborts compilation.
    pub fn compile(&self, arguments: ArgumentList) -> (r: Result<Expr, CompileError>)
        ensures
            match take_spec(arguments@, "value".spec_bytes()) {
                None => r == Err::<Expr, CompileError>(CompileError::MissingArgument),
                Some((ve, rest)) => match take_spec(rest, "subnet".spec_bytes()) {
                    None => r == Err::<Expr, CompileError>(CompileError::MissingArgument),
                    Some((se, _)) => match r {
                        Ok(e) => e matches Expr::IpSubnetFn(f) && *f.value == ve && *f.subnet == se,
                        Err(_) => false,
                    },
                },
            },
    {
        let mut arguments = arguments;
        let value = match arguments.required_expr("value") {
            Ok(e) => e,
            Err(e) => {
                return Err(e);
            },
        };
        let subnet = match arguments.required_expr("subnet") {
            Ok(e) => e,
            Err(e) => {
                return Err(e);
            },
        };
        Ok(Expr::IpSubnetFn(IpSubnetFn { value: Box::new(value), subnet: Box::new(subnet) }))
    }
}

} // verus!
