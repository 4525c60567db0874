//! Tests of the expression engine: negation, descriptors, values, records
//! and field pruning.

use remap_core::expression::Expr;
use remap_core::function::ArgumentList;
use remap_core::function::CompileError;
use remap_core::not::Not;
use remap_core::object::Object;
use remap_core::object::Record;
use remap_core::only_fields::OnlyFields;
use remap_core::path::Path;
use remap_core::state::Compiler;
use remap_core::state::Program;
use remap_core::typedef::TypeDef;
use remap_core::value::Kind;
use remap_core::value::KindSet;
use remap_core::value::Value;
use remap_core::value::ValueError;

fn path(s: &str) -> Path {
    Path::from_bytes(s.as_bytes().to_vec())
}

fn bytes(s: &str) -> Value {
    Value::Bytes(s.as_bytes().to_vec())
}

#[test]
fn not() {
    let cases: Vec<(Result<Value, String>, Not)> = vec![
        (
            Ok(Value::Boolean(false)),
            Not::new(Box::new(Expr::Literal(Value::Boolean(true)))),
        ),
        (
            Ok(Value::Boolean(true)),
            Not::new(Box::new(Expr::Literal(Value::Boolean(false)))),
        ),
        (
            Err("value error".to_string()),
            Not::new(Box::new(Expr::Literal(bytes("not a bool")))),
        ),
    ];

    let mut state = Program::new();
    let mut object = Record::new();

    for (exp, func) in cases {
        let got = Expr::Not(func)
            .execute(&mut state, &mut object)
            .map_err(|e| e.message().to_string());

        assert_eq!(got, exp);
    }
}

#[test]
fn not_type_def_is_static() {
    let state = Compiler::new();
    let def = Not::new(Box::new(Expr::Noop)).type_def(&state);
    assert_eq!(
        def,
        TypeDef {
            fallible: true,
            optional: true,
            kind: KindSet::exactly(Kind::Boolean),
        }
    );
    // The operand's own descriptor does not change it.
    let def2 = Expr::Not(Not::new(Box::new(Expr::Literal(Value::Integer(3))))).type_def(&state);
    assert_eq!(def, def2);
}

#[test]
fn merge_combines_fields() {
    let a = TypeDef { fallible: true, optional: false, kind: KindSet::exactly(Kind::Boolean) };
    let b = TypeDef { fallible: false, optional: true, kind: KindSet::exactly(Kind::Bytes) };
    let m = a.merge(b);
    assert!(m.fallible);
    assert!(m.optional);
    assert!(m.kind.is_exactly(Kind::Boolean) == false);
    let k = KindSet::exactly(Kind::Boolean).union(KindSet::exactly(Kind::Bytes));
    assert_eq!(m.kind, k);
    // Merging in either order gives the same descriptor.
    assert_eq!(a.merge(b), b.merge(a));
    // Grouping does not matter.
    let c = TypeDef { fallible: false, optional: false, kind: KindSet::exactly(Kind::Null) };
    assert_eq!(a.merge(b).merge(c), a.merge(b.merge(c)));
}

#[test]
fn fallible_unless_narrows() {
    let exact = TypeDef { fallible: false, optional: false, kind: KindSet::exactly(Kind::Bytes) };
    assert!(!exact.fallible_unless(Kind::Bytes).fallible);
    let broad = TypeDef { fallible: false, optional: false, kind: KindSet::any() };
    assert!(broad.fallible_unless(Kind::Bytes).fallible);
    let other = TypeDef { fallible: false, optional: false, kind: KindSet::exactly(Kind::Null) };
    assert!(other.fallible_unless(Kind::Bytes).fallible);
}

#[test]
fn value_conversions() {
    assert_eq!(Value::Boolean(true).try_boolean(), Ok(true));
    assert_eq!(
        Value::Integer(3).try_boolean(),
        Err(ValueError { expected: Kind::Boolean, got: Kind::Integer })
    );
    assert_eq!(
        ValueError { expected: Kind::Boolean, got: Kind::Integer }.message(),
        "invalid value kind"
    );
    assert_eq!(bytes("x").try_bytes().unwrap(), &b"x".to_vec());
    assert_eq!(
        Value::Null.try_bytes(),
        Err(ValueError { expected: Kind::Bytes, got: Kind::Null })
    );
}

#[test]
fn record_get_set_remove() {
    let mut r = Record::new();
    r.set(&path("foo"), bytes("a"));
    r.set(&path("bar.baz"), bytes("b"));
    assert_eq!(r.get(&path("foo")), Some(bytes("a")));
    assert_eq!(r.get(&path("missing")), None);
    r.set(&path("foo"), bytes("c"));
    assert_eq!(r.get(&path("foo")), Some(bytes("c")));
    r.remove(&path("foo"), false);
    assert_eq!(r.get(&path("foo")), None);
    assert_eq!(r.get(&path("bar.baz")), Some(bytes("b")));
    r.remove(&path("bar"), true);
    assert_eq!(r.get(&path("bar.baz")), None);
}

#[test]
fn lookup_reads_the_record() {
    let mut state = Program::new();
    let mut object = Record::new();
    object.set(&path("foo"), bytes("hello"));
    let got = Expr::Lookup(path("foo")).execute(&mut state, &mut object);
    assert_eq!(got, Ok(bytes("hello")));
    let absent = Expr::Lookup(path("nope")).execute(&mut state, &mut object);
    assert_eq!(absent, Ok(Value::Null));
}

fn compile_only_fields(keywords: &[(&str, &str)]) -> Result<Expr, CompileError> {
    let mut args = ArgumentList::new();
    for (kw, p) in keywords {
        args.insert(kw, Expr::Lookup(path(p)));
    }
    OnlyFields.compile(args)
}

#[test]
fn only_fields_prunes_and_returns_null() {
    let mut state = Program::new();
    let mut object = Record::new();
    object.set(&path("foo"), bytes("1"));
    object.set(&path("bar.baz"), bytes("2"));
    object.set(&path("bar.qux"), bytes("3"));

    let func = compile_only_fields(&[("1", "bar.baz")]).unwrap();
    let got = func.execute(&mut state, &mut object);
    assert_eq!(got, Ok(Value::Null));
    assert_eq!(object.get(&path("foo")), None);
    assert_eq!(object.get(&path("bar.qux")), None);
    assert_eq!(object.get(&path("bar.baz")), Some(bytes("2")));
}

#[test]
fn only_fields_keeps_descendants() {
    let mut state = Program::new();
    let mut object = Record::new();
    object.set(&path("bar.baz"), bytes("2"));
    object.set(&path("bar.baz.deep"), bytes("4"));
    object.set(&path("foo"), bytes("1"));

    let func = compile_only_fields(&[("1", "bar.baz")]).unwrap();
    func.execute(&mut state, &mut object).unwrap();
    assert_eq!(object.get(&path("bar.baz")), Some(bytes("2")));
    assert_eq!(object.get(&path("bar.baz.deep")), Some(bytes("4")));
    assert_eq!(object.get(&path("foo")), None);
}

#[test]
fn only_fields_is_idempotent() {
    let mut state = Program::new();
    let mut object = Record::new();
    object.set(&path("foo"), bytes("1"));
    object.set(&path("bar.baz"), bytes("2"));
    object.set(&path("bar.qux"), bytes("3"));

    let func = compile_only_fields(&[("1", "bar.baz"), ("2", "foo")]).unwrap();
    func.execute(&mut state, &mut object).unwrap();
    let mut first: Vec<Vec<u8>> =
        object.paths().iter().map(|p| p.as_bytes().clone()).collect();
    first.sort();
    let func2 = compile_only_fields(&[("1", "bar.baz"), ("2", "foo")]).unwrap();
    func2.execute(&mut state, &mut object).unwrap();
    let mut second: Vec<Vec<u8>> =
        object.paths().iter().map(|p| p.as_bytes().clone()).collect();
    second.sort();
    assert_eq!(first, second);
    assert_eq!(object.get(&path("bar.baz")), Some(bytes("2")));
    assert_eq!(object.get(&path("foo")), Some(bytes("1")));
}

#[test]
fn only_fields_compile_needs_first_argument() {
    let args = ArgumentList::new();
    assert_eq!(
        OnlyFields.compile(args).unwrap_err(),
        CompileError::MissingArgument
    );
    let mut args2 = ArgumentList::new();
    args2.insert("1", Expr::Literal(bytes("not a path")));
    assert_eq!(OnlyFields.compile(args2).unwrap_err(), CompileError::NotAPath);
    assert_eq!(
        CompileError::MissingArgument.message(),
        "missing required argument"
    );
}

#[test]
fn only_fields_declares_sixteen_parameters() {
    assert_eq!(OnlyFields.identifier(), "only_fields");
    let params = OnlyFields.parameters();
    assert_eq!(params.len(), 16);
    assert_eq!(params[0].keyword, "1");
    assert_eq!(params[15].keyword, "16");
    assert!(params.iter().all(|p| !p.required));
}

#[test]
fn only_fields_type_def_is_infallible_null() {
    let state = Compiler::new();
    let func = compile_only_fields(&[("1", "foo")]).unwrap();
    let def = func.type_def(&state);
    assert_eq!(
        def,
        TypeDef { fallible: false, optional: false, kind: KindSet::exactly(Kind::Null) }
    );
}
