//! Tests of subnet masking: mask construction, address text round trips,
//! and the `ip_subnet` node.

use remap_core::expression::Expr;
use remap_core::expression::RuntimeError;
use remap_core::function::ArgumentList;
use remap_core::function::CompileError;
use remap_core::ip::get_mask_bits;
use remap_core::ip::parse_ipv4;
use remap_core::ip::parse_ipv6;
use remap_core::ip::format_ipv4;
use remap_core::ip::format_ipv6;
use remap_core::ip_subnet::IpSubnet;
use remap_core::ip_subnet::IpSubnetFn;
use remap_core::ip_subnet::ip_subnet_compute;
use remap_core::object::Object;
use remap_core::object::Record;
use remap_core::path::Path;
use remap_core::state::Compiler;
use remap_core::state::Program;
use remap_core::typedef::TypeDef;
use remap_core::value::Kind;
use remap_core::value::KindSet;
use remap_core::value::Value;

fn path(s: &str) -> Path {
    Path::from_bytes(s.as_bytes().to_vec())
}

fn bytes(s: &str) -> Value {
    Value::Bytes(s.as_bytes().to_vec())
}

#[test]
fn test_get_mask_bits() {
    assert_eq!(vec![255, 240, 0, 0], get_mask_bits(12, 4));
    assert_eq!(vec![255, 255, 0, 0], get_mask_bits(16, 4));
    assert_eq!(vec![255, 128, 0, 0], get_mask_bits(9, 4));
    assert_eq!(
        vec![255, 255, 255, 255, 255, 255, 255, 255, 0, 0, 0, 0, 0, 0, 0, 0,],
        get_mask_bits(64, 16)
    );
}

#[test]
fn ip_subnet() {
    let cases: Vec<(&str, Result<Value, String>, &str)> = vec![
        ("192.168.10.23", Ok(bytes("192.168.0.0")), "255.255.0.0"),
        ("2404:6800:4003:c02::64", Ok(bytes("2400::")), "ff00::"),
        ("192.168.10.23", Ok(bytes("192.168.0.0")), "/16"),
        ("192.168.10.23", Ok(bytes("192.160.0.0")), "/12"),
        ("2404:6800:4003:c02::64", Ok(bytes("2404:6800::")), "/32"),
    ];

    let mut state = Program::new();

    for (addr, exp, mask) in cases {
        let mut object = Record::new();
        object.set(&path("foo"), bytes(addr));
        let func = IpSubnetFn::new(
            Box::new(Expr::Lookup(path("foo"))),
            Box::new(Expr::Literal(bytes(mask))),
        );
        let got = Expr::IpSubnetFn(func)
            .execute(&mut state, &mut object)
            .map_err(|e| e.message().to_string());

        assert_eq!(got, exp);
    }
}

fn compute(addr: &str, mask: &str) -> Result<Vec<u8>, RuntimeError> {
    ip_subnet_compute(&addr.as_bytes().to_vec(), &mask.as_bytes().to_vec())
}

#[test]
fn ip_subnet_rejects_mixed_families() {
    assert_eq!(
        compute("192.168.10.23", "ff00::"),
        Err(RuntimeError::MaskV4AddrV6Mask)
    );
    assert_eq!(
        compute("2404:6800:4003:c02::64", "255.255.0.0"),
        Err(RuntimeError::MaskV6AddrV4Mask)
    );
}

#[test]
fn ip_subnet_rejects_oversized_prefix() {
    assert_eq!(compute("192.168.10.23", "/33"), Err(RuntimeError::SubnetTooLargeV4));
    assert_eq!(compute("::1", "/129"), Err(RuntimeError::SubnetTooLargeV6));
    assert_eq!(compute("192.168.10.23", "/32").unwrap(), b"192.168.10.23".to_vec());
    assert_eq!(compute("::1", "/128").unwrap(), b"::1".to_vec());
}

#[test]
fn ip_subnet_rejects_malformed_text() {
    assert_eq!(compute("foo", "/16"), Err(RuntimeError::InvalidAddress));
    assert_eq!(compute("192.168.10.999", "/16"), Err(RuntimeError::InvalidAddress));
    assert_eq!(compute("192.168.10.23", "bar"), Err(RuntimeError::InvalidMask));
    assert_eq!(compute("192.168.10.23", "/abc"), Err(RuntimeError::InvalidSubnet));
    assert_eq!(compute("192.168.10.23", "/"), Err(RuntimeError::InvalidSubnet));
}

#[test]
fn prefix_and_literal_mask_agree() {
    assert_eq!(compute("10.20.30.40", "/12"), compute("10.20.30.40", "255.240.0.0"));
    assert_eq!(compute("10.20.30.40", "/0"), compute("10.20.30.40", "0.0.0.0"));
    assert_eq!(
        compute("2404:6800:4003:c02::64", "/32"),
        compute("2404:6800:4003:c02::64", "ffff:ffff::")
    );
}

#[test]
fn address_text_round_trips() {
    for a in [0u32, 1, 0xc0a80a17, 0xffffffff, 0x01020304] {
        assert_eq!(parse_ipv4(&format_ipv4(a)), Some(a));
    }
    for v in [0u128, 1, 0x24046800_4003_0c02_0000_0000_0000_0064, u128::MAX] {
        assert_eq!(parse_ipv6(&format_ipv6(v)), Some(v));
    }
    assert_eq!(format_ipv6(1), b"::1".to_vec());
    assert_eq!(format_ipv6(0), b"::".to_vec());
    assert_eq!(parse_ipv4(&b"192.168.00.1".to_vec()), None);
    assert_eq!(parse_ipv6(&b"1:2:3:4:5:6:7::8".to_vec()), None);
}

#[test]
fn ip_subnet_compile_and_parameters() {
    assert_eq!(IpSubnet.identifier(), "ip_subnet");
    let params = IpSubnet.parameters();
    assert_eq!(params.len(), 2);
    assert_eq!(params[0].keyword, "value");
    assert_eq!(params[1].keyword, "subnet");
    assert!(params[0].required && params[1].required);

    let mut args = ArgumentList::new();
    args.insert("value", Expr::Literal(bytes("192.168.0.1")));
    args.insert("subnet", Expr::Literal(bytes("/1")));
    let compiled = IpSubnet.compile(args).unwrap();
    assert!(matches!(compiled, Expr::IpSubnetFn(_)));

    let mut missing = ArgumentList::new();
    missing.insert("value", Expr::Literal(bytes("192.168.0.1")));
    assert_eq!(
        IpSubnet.compile(missing).unwrap_err(),
        CompileError::MissingArgument
    );
}

#[test]
fn ip_subnet_type_def_tracks_operand_kinds() {
    let state = Compiler::new();
    let func = IpSubnetFn::new(
        Box::new(Expr::Literal(bytes("192.168.0.1"))),
        Box::new(Expr::Literal(bytes("/1"))),
    );
    let def = Expr::IpSubnetFn(func).type_def(&state);
    assert_eq!(
        def,
        TypeDef { fallible: false, optional: false, kind: KindSet::exactly(Kind::Bytes) }
    );
    // A non-string operand makes the node fallible.
    let func2 = IpSubnetFn::new(
        Box::new(Expr::Literal(Value::Integer(1))),
        Box::new(Expr::Literal(bytes("/1"))),
    );
    let def2 = Expr::IpSubnetFn(func2).type_def(&state);
    assert!(def2.fallible);
    assert!(def2.kind.is_exactly(Kind::Bytes));
}
