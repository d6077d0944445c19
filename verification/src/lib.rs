use vstd::prelude::*;

pub mod ast;
pub mod errors;
pub mod names;
pub mod directives;
pub mod plan;
pub mod emit;
pub mod semantics;

verus! {

use crate::ast::{inspect_decl, TypeDecl, TypeDeclKindV, TypeDeclV, UnionV, VariantV};
use crate::directives::{
    parse_enum_is_attrs, spec_parse, view_raw_attrs, DirectivesV, VariantDirectives,
};
use crate::errors::{GenError, GenErrorV};
use crate::emit::{emit, spec_render};
use crate::plan::{build_plan, spec_plan, view_dirs, Plan};

/// The directives of every variant, or the first rejection: variant
/// order decides which rejection is first.
pub open spec fn spec_parse_all(vs: Seq<VariantV>) -> Result<Seq<DirectivesV>, GenErrorV>
    decreases vs.len(),
{
    if vs.len() == 0 {
        Ok(Seq::empty())
    } else {
        match spec_parse_all(vs.drop_last()) {
            Err(e) => Err(e),
            Ok(ds) => match spec_parse(vs.last().attrs) {
                Err(e) => Err(e),
                Ok(d) => Ok(ds.push(d)),
            },
        }
    }
}

/// The first three stages as a function of the declaration: inspect the
/// declaration, parse every variant's directives, plan the methods.
pub open spec fn spec_plan_decl(d: TypeDeclV) -> Result<crate::plan::PlanV, GenErrorV> {
    match d.kind {
        TypeDeclKindV::Union(vs) => match spec_parse_all(vs) {
            Err(e) => Err(e),
            Ok(ds) => spec_plan(UnionV { name: d.name, variants: vs }, ds),
        },
        TypeDeclKindV::Record => Err(GenErrorV::NotAUnion { name: d.name }),
        TypeDeclKindV::Primitive => Err(GenErrorV::NotAUnion { name: d.name }),
    }
}

/// The whole generation pass as a function of the declaration: the plan
/// of `spec_plan_decl`, rendered.
pub open spec fn spec_generate(d: TypeDeclV) -> Result<Seq<char>, GenErrorV> {
    match spec_plan_decl(d) {
        Err(e) => Err(e),
        Ok(p) => Ok(spec_render(p)),
    }
}

/// Generation is a pure function of the declaration: running it again on
/// an unchanged input yields the identical output, names and all.
pub proof fn lemma_generation_deterministic(d1: TypeDeclV, d2: TypeDeclV)
    requires
        d1 == d2,
    ensures
        spec_generate(d1) == spec_generate(d2),
{
}

/// A rejection of an early variant stands whatever follows it.
proof fn lemma_parse_all_err_stable(vs: Seq<VariantV>, i: int)
    requires
        0 <= i <= vs.len(),
        spec_parse_all(vs.take(i)) is Err,
    ensures
        spec_parse_all(vs) == spec_parse_all(vs.take(i)),
    decreases vs.len() - i,
{
    if i < vs.len() {
        assert(vs.take(i + 1).drop_last() =~= vs.take(i));
        lemma_parse_all_err_stable(vs, i + 1);
    } else {
        assert(vs.take(i) =~= vs);
    }
}

/// The pipeline up to the plan: inspect the declaration, parse each
/// variant's directives in order, and plan the methods, exactly as
/// `spec_plan_decl` has it.
#[verifier::loop_isolation(false)]
pub fn plan_decl(decl: TypeDecl) -> (r: Result<Plan, GenError>)
    ensures
        match r {
            Ok(p) => spec_plan_decl(decl@) == Ok::<crate::plan::PlanV, GenErrorV>(p@),
            Err(e) => spec_plan_decl(decl@) == Err::<crate::plan::PlanV, GenErrorV>(e@),
        },
{
    let u = match inspect_decl(decl) {
        Ok(u) => u,
        Err(e) => {
            return Err(e);
        },
    };
    let ghost vsv = u@.variants;
    let mut dirs: Vec<VariantDirectives> = Vec::new();
    let mut i: usize = 0;
    proof {
        assert(vsv.take(0) =~= Seq::<VariantV>::empty());
        assert(view_dirs(dirs@) =~= Seq::<DirectivesV>::empty());
    }
    while i < u.variants.len()
        invariant
            i <= vsv.len(),
            vsv == u@.variants,
            dirs@.len() == i,
            spec_parse_all(vsv.take(i as int)) == Ok::<Seq<DirectivesV>, GenErrorV>(
                view_dirs(dirs@),
            ),
        decreases vsv.len() - i,
    {
        proof {
            assert(vsv.take(i + 1).drop_last() =~= vsv.take(i as int));
            assert(vsv.take(i + 1).last() == vsv[i as int]);
            assert(vsv[i as int] == u.variants@[i as int]@);
            assert(view_raw_attrs(u.variants@[i as int].attrs@) == vsv[i as int].attrs);
        }
        match parse_enum_is_attrs(&u.variants[i].attrs) {
            Ok(d) => {
                dirs.push(d);
                proof {
                    assert(view_dirs(dirs@) =~= spec_parse_all(vsv.take(i + 1))->Ok_0);
                }
            },
            Err(e) => {
                proof {
                    lemma_parse_all_err_stable(vsv, i + 1);
                }
                return Err(e);
            },
        }
        i += 1;
    }
    proof {
        assert(vsv.take(vsv.len() as int) =~= vsv);
    }
    build_plan(&u, &dirs)
}

/// The generator: one tagged-union declaration in, the generated methods
/// out as source text, or the first diagnostic, exactly as
/// `spec_generate` has it.
pub fn derive_enum_is(decl: TypeDecl) -> (r: Result<String, GenError>)
    ensures
        match r {
            Ok(s) => spec_generate(decl@) == Ok::<Seq<char>, GenErrorV>(s@),
            Err(e) => spec_generate(decl@) == Err::<Seq<char>, GenErrorV>(e@),
        },
{
    match plan_decl(decl) {
        Ok(p) => Ok(emit(&p)),
        Err(e) => Err(e),
    }
}


} // verus!
