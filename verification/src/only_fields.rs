//! The `only_fields` function: pruning a record down to chosen fields.
//!
//! The function takes one required and up to fifteen optional path-literal
//! arguments. Executing it enumerates every path in the record and removes,
//! with its subtree, each one that is not a descendant-or-self of a retained
//! path. It never fails and produces the null value.

use vstd::prelude::*;
use vstd::string::*;
use crate::expression::Expr;
use crate::function::ArgumentList;
use crate::function::CompileError;
use crate::function::Parameter;
use crate::function::take_spec;
use crate::path::Path;
use crate::path::is_prefix;
use crate::value::KindSet;
use crate::value::ValueV;

verus! {

/// Whether `k` is a descendant-or-self of some retained path, under the
/// string-prefix reading.
pub open spec fn retained(ret: Seq<Seq<u8>>, k: Seq<u8>) -> bool {
    exists|i: int| 0 <= i < ret.len() && is_prefix(#[trigger] ret[i], k)
}

/// The record contents after pruning `m` to the retained paths `ret`: a key
/// survives when it is retained and lies under no removed path.
pub open spec fn only_fields_map(m: Map<Seq<u8>, ValueV>, ret: Seq<Seq<u8>>) -> Map<
    Seq<u8>,
    ValueV,
> {
    Map::new(
        |k: Seq<u8>|
            m.dom().contains(k) && (forall|p: Seq<u8>|
                m.dom().contains(p) && !retained(ret, p) ==> !is_prefix(p, k)),
        |k: Seq<u8>| m[k],
    )
}

/// Pruning is idempotent: pruning a record already pruned to `ret` with the
/// same `ret` changes nothing.
pub proof fn lemma_only_fields_idempotent(m: Map<Seq<u8>, ValueV>, ret: Seq<Seq<u8>>)
    ensures
        only_fields_map(only_fields_map(m, ret), ret) == only_fields_map(m, ret),
{
    let m1 = only_fields_map(m, ret);
    assert forall|k: Seq<u8>| m1.dom().contains(k) implies retained(ret, k) by {
        crate::path::lemma_prefix_reflexive(k);
        if !retained(ret, k) {
            assert(m.dom().contains(k) && !retained(ret, k) ==> !is_prefix(k, k));
        }
    }
    assert(only_fields_map(m1, ret) =~= m1);
}

/// Running a pruning node a second time on its own output is a no-op: the
/// node succeeds with null both times and the second run leaves the record
/// exactly as the first run left it.
pub proof fn lemma_only_fields_rerun(f: OnlyFieldsFn, m: Map<Seq<u8>, ValueV>)
    ensures
        ({
            let (r1, m1) = crate::expression::eval_spec(Expr::OnlyFieldsFn(f), m);
            let (r2, m2) = crate::expression::eval_spec(Expr::OnlyFieldsFn(f), m1);
            r1 == Ok::<ValueV, crate::expression::RuntimeError>(ValueV::Null) && r2 == r1 && m2
                == m1
        }),
{
    lemma_only_fields_idempotent(m, crate::expression::paths_view(f.paths@));
}

/// The record contents after the first `i` enumerated paths have been
/// examined: each non-retained one among them is gone with its subtree.
pub open spec fn pruned_upto(
    m: Map<Seq<u8>, ValueV>,
    ret: Seq<Seq<u8>>,
    ps: Seq<Seq<u8>>,
    i: int,
) -> Map<Seq<u8>, ValueV> {
    Map::new(
        |k: Seq<u8>|
            m.dom().contains(k) && (forall|j: int|
                0 <= j < i && !retained(ret, #[trigger] ps[j]) ==> !is_prefix(ps[j], k)),
        |k: Seq<u8>| m[k],
    )
}

/// Whether the path `p` is a descendant-or-self of one of `paths`.
pub fn is_retained_exec(paths: &Vec<Path>, p: &Path) -> (r: bool)
    ensures
        r == retained(crate::expression::paths_view(paths@), p@),
{
    let n = paths.len();
    let mut i: usize = 0;
    while i < n
        invariant
            i <= n,
            n == paths@.len(),
            forall|j: int| 0 <= j < i ==> !is_prefix((#[trigger] paths@[j])@, p@),
        decreases n - i,
    {
        if p.starts_with(&paths[i]) {
            proof {
                let ghost rv = crate::expression::paths_view(paths@);
                assert(rv[i as int] == paths@[i as int]@);
                assert(is_prefix(rv[i as int], p@));
            }
            return true;
        }
        i += 1;
    }
    proof {
        let ghost rv = crate::expression::paths_view(paths@);
        assert forall|j: int| 0 <= j < rv.len() implies !is_prefix(#[trigger] rv[j], p@) by {
            assert(rv[j] == paths@[j]@);
        }
    }
    false
}

/// The keywords of the fifteen optional arguments.
pub open spec fn opt_keywords() -> Seq<Seq<u8>> {
    seq![
        "2".spec_bytes(),
        "3".spec_bytes(),
        "4".spec_bytes(),
        "5".spec_bytes(),
        "6".spec_bytes(),
        "7".spec_bytes(),
        "8".spec_bytes(),
        "9".spec_bytes(),
        "10".spec_bytes(),
        "11".spec_bytes(),
        "12".spec_bytes(),
        "13".spec_bytes(),
        "14".spec_bytes(),
        "15".spec_bytes(),
        "16".spec_bytes(),
    ]
}

/// Resolving the optional path arguments under the keywords `kws`, in
/// keyword order, against the argument list `s`: the paths gathered so far
/// are `acc`; a supplied argument that is not a path literal aborts.
pub open spec fn collect_spec(
    s: Seq<(Vec<u8>, Expr)>,
    kws: Seq<Seq<u8>>,
    acc: Seq<Path>,
) -> Result<Seq<Path>, CompileError>
    decreases kws.len(),
{
    if kws.len() == 0 {
        Ok(acc)
    } else {
        match take_spec(s, kws[0]) {
            None => collect_spec(s, kws.drop_first(), acc),
            Some((e, rest)) => match e {
                Expr::Lookup(p) => collect_spec(rest, kws.drop_first(), acc.push(p)),
                _ => Err(CompileError::NotAPath),
            },
        }
    }
}

/// What compiling an `only_fields` call yields from its argument list: the
/// retained paths in keyword order, or the failure that aborts compilation.
pub open spec fn compile_spec(s: Seq<(Vec<u8>, Expr)>) -> Result<Seq<Path>, CompileError> {
    match take_spec(s, "1".spec_bytes()) {
        None => Err(CompileError::MissingArgument),
        Some((e, rest)) => match e {
            Expr::Lookup(p) => collect_spec(rest, opt_keywords(), seq![p]),
            _ => Err(CompileError::NotAPath),
        },
    }
}

/// The keyword of the optional argument at position `idx`.
fn opt_keyword(idx: usize) -> (r: &'static str)
    requires
        idx < 15,
    ensures
        r.spec_bytes() == opt_keywords()[idx as int],
{
    match idx {
        0 => "2",
        1 => "3",
        2 => "4",
        3 => "5",
        4 => "6",
        5 => "7",
        6 => "8",
        7 => "9",
        8 => "10",
        9 => "11",
        10 => "12",
        11 => "13",
        12 => "14",
        13 => "15",
        _ => "16",
    }
}

/// The `only_fields` function descriptor.
#[derive(Clone, Copy, Debug)]
pub struct OnlyFields;

/// The compiled `only_fields` node: the paths to retain.
#[derive(Debug)]
pub struct OnlyFieldsFn {
    pub paths: Vec<Path>,
}

impl OnlyFields {
    /// The identifier the compiler looks this function up under.
    pub fn identifier(&self) -> (r: &'static str)
        ensures
            r@ == "only_fields"@,
    {
        "only_fields"
    }

    /// The declared parameters: sixteen positional keywords, each accepting
    /// any value and none required by declaration; compilation itself insists
    /// on the first.
    pub fn parameters(&self) -> (r: Vec<Parameter>)
        ensures
            r@.len() == 16,
            forall|i: int|
                0 <= i < 16 ==> (#[trigger] r@[i]).accepts == KindSet::any_spec() && !r@[i].required,
            r@[0].keyword.spec_bytes() == "1".spec_bytes(),
            forall|i: int|
                1 <= i < 16 ==> (#[trigger] r@[i]).keyword.spec_bytes() == opt_keywords()[i - 1],
    {
        let mut r: Vec<Parameter> = Vec::new();
        r.push(Parameter { keyword: "1", accepts: KindSet::any(), required: false });
        let mut i: usize = 0;
        while i < 15
            invariant
                i <= 15,
                r@.len() == i + 1,
                r@[0].keyword.spec_bytes() == "1".spec_bytes(),
                forall|j: int|
                    1 <= j < i + 1 ==> (#[trigger] r@[j]).keyword.spec_bytes() == opt_keywords()[j
                        - 1],
                forall|j: int|
                    0 <= j < i + 1 ==> (#[trigger] r@[j]).accepts == KindSet::any_spec()
                        && !r@[j].required,
            decreases 15 - i,
        {
            let kw = opt_keyword(i);
            r.push(Parameter { keyword: kw, accepts: KindSet::any(), required: false });
            i += 1;
        }
        r
    }

    /// Resolves the retained paths, the required first and then each
    /// supplied optional one in keyword order, and closes over them in an
    /// `only_fields` node.
    #[verifier::loop_isolation(false)]
    pub fn compile(&self, arguments: ArgumentList) -> (r: Result<Expr, CompileError>)
        ensures
            match compile_spec(arguments@) {
                Err(e) => r == Err::<Expr, CompileError>(e),
                Ok(ps) => match r {
                    Ok(e) => e matches Expr::OnlyFieldsFn(f) && f.paths@ == ps,
                    Err(_) => false,
                },
            },
    {
        let ghost args0 = arguments@;
        let mut args = arguments;
        let mut paths: Vec<Path> = Vec::new();
        match args.required_path("1") {
            Err(e) => {
                return Err(e);
            },
            Ok(p) => {
                paths.push(p);
                proof {
                    assert(paths@ =~= seq![p]);
                    assert(opt_keywords().skip(0) =~= opt_keywords());
                }
            },
        }
        let mut idx: usize = 0;
        while idx < 15
            invariant
                idx <= 15,
                collect_spec(args@, opt_keywords().skip(idx as int), paths@) == compile_spec(
                    args0,
                ),
            decreases 15 - idx,
        {
            let ghost pre_args = args@;
            let ghost pre_paths = paths@;
            let kw = opt_keyword(idx);
            proof {
                assert(opt_keywords().skip(idx as int)[0] == opt_keywords()[idx as int]);
                assert(opt_keywords().skip(idx as int).drop_first() =~= opt_keywords().skip(
                    idx as int + 1,
                ));
            }
            match args.optional_path(kw) {
                Err(e) => {
                    proof {
                        assert(take_spec(pre_args, opt_keywords().skip(idx as int)[0]) is Some);
                        assert(collect_spec(pre_args, opt_keywords().skip(idx as int), pre_paths)
                            == Err::<Seq<Path>, CompileError>(CompileError::NotAPath));
                        assert(e == CompileError::NotAPath);
                        assert(compile_spec(args0) == Err::<Seq<Path>, CompileError>(e));
                    }
                    return Err(e);
                },
                Ok(Some(p)) => {
                    paths.push(p);
                    proof {
                        assert(paths@ =~= pre_paths.push(p));
                    }
                },
                Ok(None) => {},
            }
            idx += 1;
        }
        proof {
            assert(opt_keywords().skip(15).len() == 0);
        }
        Ok(Expr::OnlyFieldsFn(OnlyFieldsFn { paths }))
    }
}

} // verus!
