//! The expression tree and its two operations.
//!
//! Every node can be executed against runtime state and a record, producing a
//! value or a typed runtime failure, and can be asked for its compile-time
//! descriptor. The meaning of both operations is pinned down by the spec
//! functions `eval_spec` and `type_def_spec`: `execute` returns exactly what
//! `eval_spec` says and leaves the record exactly as `eval_spec` says.

use vstd::prelude::*;
use crate::not::Not;
use crate::object::Object;
use crate::path::Path;
use crate::state::Compiler;
use crate::state::Program;
use crate::typedef::TypeDef;
use crate::value::Kind;
use crate::value::KindSet;
use crate::value::Value;
use crate::value::ValueError;
use crate::value::ValueV;
use crate::value::kind_of;

verus! {

/// A typed runtime failure: it aborts the one `execute` call that raised it.
#[derive(Clone, Copy, Debug, PartialEq, Eq, Structural)]
pub enum RuntimeError {
    /// A kind-coercion failure.
    Value(ValueError),
    /// The address operand did not parse as an IPv4 or IPv6 address.
    InvalidAddress,
    /// The mask operand did not parse as an address-shaped mask.
    InvalidMask,
    /// The subnet specifier after `/` was not a plain decimal number.
    InvalidSubnet,
    /// A `/N` subnet with N greater than 32 applied to an IPv4 address.
    SubnetTooLargeV4,
    /// A `/N` subnet with N greater than 128 applied to an IPv6 address.
    SubnetTooLargeV6,
    /// An IPv6 address masked with an IPv4 mask.
    MaskV6AddrV4Mask,
    /// An IPv4 address masked with an IPv6 mask.
    MaskV4AddrV6Mask,
}

impl RuntimeError {
    /// The human-readable cause of the failure.
    pub fn message(&self) -> &'static str {
        match self {
            RuntimeError::Value(_) => "value error",
            RuntimeError::InvalidAddress => "unable to parse IP address",
            RuntimeError::InvalidMask => "unable to parse mask",
            RuntimeError::InvalidSubnet => "not a valid subnet",
            RuntimeError::SubnetTooLargeV4 => "subnet cannot be greater than 32 for ipv4 addresses",
            RuntimeError::SubnetTooLargeV6 => "subnet cannot be greater than 128 for ipv6 addresses",
            RuntimeError::MaskV6AddrV4Mask => "attempting to mask an ipv6 address with an ipv4 mask",
            RuntimeError::MaskV4AddrV6Mask => "attempting to mask an ipv4 address with an ipv6 mask",
        }
    }
}

/// An expression node. The node set is closed: every variant carries the data
/// of one node kind, and the two engine operations dispatch over it.
#[derive(Debug)]
pub enum Expr {
    /// A constant value.
    Literal(Value),
    /// A field lookup: the value at the path, or null when absent.
    Lookup(Path),
    /// The node that does nothing and produces null.
    Noop,
    /// Boolean negation.
    Not(Not),
    /// Subnet masking of an address string.
    IpSubnetFn(crate::ip_subnet::IpSubnetFn),
    /// Pruning of the record to chosen fields.
    OnlyFieldsFn(crate::only_fields::OnlyFieldsFn),
}

/// The byte strings of a list of paths.
pub open spec fn paths_view(v: Seq<crate::path::Path>) -> Seq<Seq<u8>> {
    v.map_values(|p: crate::path::Path| p@)
}

/// What executing `e` against a record with contents `obj` produces, and the
/// record contents it leaves behind.
pub open spec fn eval_spec(e: Expr, obj: Map<Seq<u8>, ValueV>) -> (Result<ValueV, RuntimeError>, Map<
    Seq<u8>,
    ValueV,
>)
    decreases e,
{
    match e {
        Expr::Literal(v) => (Ok(v@), obj),
        Expr::Lookup(p) => (
            Ok(if obj.dom().contains(p@) {
                obj[p@]
            } else {
                ValueV::Null
            }),
            obj,
        ),
        Expr::Noop => (Ok(ValueV::Null), obj),
        Expr::Not(n) => {
            let (r0, m0) = eval_spec(*n.expression, obj);
            match r0 {
                Err(e0) => (Err(e0), m0),
                Ok(v) => match v {
                    ValueV::Boolean(b) => (Ok(ValueV::Boolean(!b)), m0),
                    _ => (
                        Err(
                            RuntimeError::Value(
                                ValueError { expected: Kind::Boolean, got: kind_of(v) },
                            ),
                        ),
                        m0,
                    ),
                },
            }
        },
        Expr::IpSubnetFn(f) => {
            let (r0, m0) = eval_spec(*f.value, obj);
            match r0 {
                Err(e0) => (Err(e0), m0),
                Ok(v0) => match v0 {
                    ValueV::Bytes(ab) => {
                        let (r1, m1) = eval_spec(*f.subnet, m0);
                        match r1 {
                            Err(e1) => (Err(e1), m1),
                            Ok(v1) => match v1 {
                                ValueV::Bytes(mb) => match crate::ip_subnet::ip_subnet_compute_spec(
                                    ab,
                                    mb,
                                ) {
                                    Ok(out) => (Ok(ValueV::Bytes(out)), m1),
                                    Err(e) => (Err(e), m1),
                                },
                                _ => (
                                    Err(
                                        RuntimeError::Value(
                                            ValueError { expected: Kind::Bytes, got: kind_of(v1) },
                                        ),
                                    ),
                                    m1,
                                ),
                            },
                        }
                    },
                    _ => (
                        Err(
                            RuntimeError::Value(
                                ValueError { expected: Kind::Bytes, got: kind_of(v0) },
                            ),
                        ),
                        m0,
                    ),
                },
            }
        },
        Expr::OnlyFieldsFn(f) => (
            Ok(ValueV::Null),
            crate::only_fields::only_fields_map(obj, paths_view(f.paths@)),
        ),
    }
}

/// The compile-time descriptor of `e`.
pub open spec fn type_def_spec(e: Expr) -> TypeDef
    decreases e,
{
    match e {
        Expr::Literal(v) => TypeDef {
            fallible: false,
            optional: false,
            kind: KindSet::exactly_as_spec(kind_of(v@)),
        },
        Expr::Lookup(_) => TypeDef { fallible: false, optional: true, kind: KindSet::any_spec() },
        Expr::Noop => TypeDef {
            fallible: false,
            optional: false,
            kind: KindSet::exactly_as_spec(Kind::Null),
        },
        Expr::Not(_) => TypeDef {
            fallible: true,
            optional: true,
            kind: KindSet::exactly_as_spec(Kind::Boolean),
        },
        Expr::OnlyFieldsFn(_) => TypeDef {
            fallible: false,
            optional: false,
            kind: KindSet::exactly_as_spec(Kind::Null),
        },
        Expr::IpSubnetFn(f) => crate::typedef::with_constraint_spec(
            crate::typedef::merge_spec(
                crate::typedef::fallible_unless_spec(type_def_spec(*f.value), Kind::Bytes),
                crate::typedef::fallible_unless_spec(type_def_spec(*f.subnet), Kind::Bytes),
            ),
            Kind::Bytes,
        ),
    }
}

impl Expr {
    /// Performs this node's effect against `object` and returns its value or
    /// a typed failure, exactly as `eval_spec` describes.
    pub fn execute<O: Object>(&self, state: &mut Program, object: &mut O) -> (r: Result<
        Value,
        RuntimeError,
    >)
        ensures
            final(object).contents() == eval_spec(*self, old(object).contents()).1,
            match r {
                Ok(v) => eval_spec(*self, old(object).contents()).0 == Ok::<ValueV, RuntimeError>(
                    v@,
                ),
                Err(e) => eval_spec(*self, old(object).contents()).0 == Err::<ValueV, RuntimeError>(
                    e,
                ),
            },
        decreases *self,
    {
        match self {
            Expr::Literal(v) => Ok(v.duplicate()),
            Expr::Lookup(p) => match object.get(p) {
                Some(v) => Ok(v),
                None => Ok(Value::Null),
            },
            Expr::Noop => Ok(Value::Null),
            Expr::Not(n) => {
                let v = n.expression.execute(state, object)?;
                match v.try_boolean() {
                    Ok(b) => Ok(Value::Boolean(!b)),
                    Err(e) => Err(crate::not::Error::Value(e).into_runtime()),
                }
            },
            Expr::IpSubnetFn(f) => {
                let av = f.value.execute(state, object)?;
                let ab = match av.try_bytes() {
                    Ok(b) => b,
                    Err(e) => {
                        return Err(RuntimeError::Value(e));
                    },
                };
                let sv = f.subnet.execute(state, object)?;
                let mb = match sv.try_bytes() {
                    Ok(b) => b,
                    Err(e) => {
                        return Err(RuntimeError::Value(e));
                    },
                };
                match crate::ip_subnet::ip_subnet_compute(ab, mb) {
                    Ok(out) => Ok(Value::Bytes(out)),
                    Err(e) => Err(e),
                }
            },
            Expr::OnlyFieldsFn(f) => {
                let ghost m0 = object.contents();
                let ghost retv = paths_view(f.paths@);
                let ps = object.paths();
                let ghost psv = paths_view(ps@);
                let n = ps.len();
                proof {
                    assert(object.contents() =~= crate::only_fields::pruned_upto(m0, retv, psv, 0));
                    assert forall|idx: int| 0 <= idx < psv.len() implies m0.dom().contains(
                        #[trigger] psv[idx],
                    ) by {
                        assert(psv[idx] == ps@[idx]@);
                    }
                    assert forall|k: Seq<u8>| #[trigger] m0.dom().contains(k) implies exists|
                        idx: int,
                    | 0 <= idx < psv.len() && psv[idx] == k by {
                        let idx = choose|idx: int| 0 <= idx < ps@.len() && ps@[idx]@ == k;
                        assert(psv[idx] == k);
                    }
                }
                let mut i: usize = 0;
                while i < n
                    invariant
                        i <= n,
                        n == ps@.len(),
                        psv == paths_view(ps@),
                        retv == paths_view(f.paths@),
                        forall|idx: int| 0 <= idx < psv.len() ==> m0.dom().contains(
                            #[trigger] psv[idx],
                        ),
                        forall|k: Seq<u8>| #[trigger] m0.dom().contains(k) ==> exists|idx: int|
                            0 <= idx < psv.len() && psv[idx] == k,
                        object.contents() == crate::only_fields::pruned_upto(
                            m0,
                            retv,
                            psv,
                            i as int,
                        ),
                    decreases n - i,
                {
                    let ghost pre = object.contents();
                    let keep = crate::only_fields::is_retained_exec(&f.paths, &ps[i]);
                    proof {
                        assert(psv[i as int] == ps@[i as int]@);
                        crate::path::lemma_prefix_reflexive(psv[i as int]);
                    }
                    if !keep {
                        object.remove(&ps[i], true);
                        proof {
                            assert(object.contents() =~= crate::only_fields::pruned_upto(
                                m0,
                                retv,
                                psv,
                                i as int + 1,
                            ));
                        }
                    } else {
                        proof {
                            assert(object.contents() =~= crate::only_fields::pruned_upto(
                                m0,
                                retv,
                                psv,
                                i as int + 1,
                            ));
                        }
                    }
                    i += 1;
                }
                proof {
                    let pruned = crate::only_fields::pruned_upto(m0, retv, psv, n as int);
                    let target = crate::only_fields::only_fields_map(m0, retv);
                    assert forall|k: Seq<u8>| pruned.dom().contains(k) implies target.dom().contains(
                        k,
                    ) by {
                        assert forall|p: Seq<u8>|
                            m0.dom().contains(p) && !crate::only_fields::retained(
                                retv,
                                p,
                            ) implies !crate::path::is_prefix(p, k) by {
                            let idx = choose|idx: int| 0 <= idx < psv.len() && psv[idx] == p;
                            assert(0 <= idx < n && !crate::only_fields::retained(retv, psv[idx]));
                        }
                    }
                    assert forall|k: Seq<u8>| target.dom().contains(k) implies pruned.dom().contains(
                        k,
                    ) by {
                        assert forall|j: int|
                            0 <= j < n && !crate::only_fields::retained(
                                retv,
                                #[trigger] psv[j],
                            ) implies !crate::path::is_prefix(psv[j], k) by {
                            assert(m0.dom().contains(psv[j]));
                        }
                    }
                    assert(object.contents() =~= target);
                }
                Ok(Value::Null)
            },
        }
    }

    /// Computes this node's compile-time descriptor. It executes nothing and
    /// is referentially stable: the same node always yields the same
    /// descriptor.
    pub fn type_def(&self, state: &Compiler) -> (t: TypeDef)
        ensures
            t == type_def_spec(*self),
        decreases *self,
    {
        match self {
            Expr::Literal(v) => TypeDef {
                fallible: false,
                optional: false,
                kind: KindSet::exactly(v.kind()),
            },
            Expr::Lookup(_) => TypeDef { fallible: false, optional: true, kind: KindSet::any() },
            Expr::Noop => TypeDef {
                fallible: false,
                optional: false,
                kind: KindSet::exactly(Kind::Null),
            },
            Expr::Not(n) => n.type_def(state),
            Expr::IpSubnetFn(f) => f.value.type_def(state).fallible_unless(Kind::Bytes).merge(
                f.subnet.type_def(state).fallible_unless(Kind::Bytes),
            ).with_constraint(Kind::Bytes),
            Expr::OnlyFieldsFn(_) => TypeDef {
                fallible: false,
                optional: false,
                kind: KindSet::exactly(Kind::Null),
            },
        }
    }
}

} // verus!
