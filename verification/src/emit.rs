use vstd::prelude::*;
use vstd::string::StringExecFns;
use crate::ast::Shape;
use crate::plan::{GroupEntryV, Pattern, PatternV, Plan, PlanV, PredicateEntryV};

verus! {

/// The text of one match pattern: the variant behind `Self::`, with a
/// wildcard that fits its payload shape.
pub open spec fn render_pattern(p: PatternV) -> Seq<char> {
    "Self::"@ + p.variant + (match p.shape {
        Shape::NoPayload => Seq::<char>::empty(),
        Shape::PositionalPayload => "(..)"@,
        Shape::NamedPayload => " { .. }"@,
    })
}

/// Member patterns joined into one match pattern by `|`.
pub open spec fn render_patterns(pats: Seq<PatternV>) -> Seq<char>
    decreases pats.len(),
{
    if pats.len() == 0 {
        Seq::empty()
    } else if pats.len() == 1 {
        render_pattern(pats[0])
    } else {
        render_patterns(pats.drop_last()) + " | "@ + render_pattern(pats.last())
    }
}

/// The text of one generated method: a membership test of the value
/// against the pattern or patterns.
pub open spec fn render_method(name: Seq<char>, pats: Seq<PatternV>) -> Seq<char> {
    "    #[inline]\n    pub fn "@ + name + "(&self) -> bool {\n        matches!(self, "@
        + render_patterns(pats) + ")\n    }\n"@
}

/// The per-variant methods, in declaration order.
pub open spec fn render_pred_methods(preds: Seq<PredicateEntryV>) -> Seq<char>
    decreases preds.len(),
{
    if preds.len() == 0 {
        Seq::empty()
    } else {
        render_pred_methods(preds.drop_last()) + render_method(
            preds.last().name,
            seq![preds.last().pattern],
        )
    }
}

/// The group methods, in the plan's order.
pub open spec fn render_group_methods(groups: Seq<GroupEntryV>) -> Seq<char>
    decreases groups.len(),
{
    if groups.len() == 0 {
        Seq::empty()
    } else {
        render_group_methods(groups.drop_last()) + render_method(
            groups.last().name,
            groups.last().patterns,
        )
    }
}

/// The whole emitted fragment: one inherent-impl block on the union,
/// holding every generated method.
pub open spec fn spec_render(plan: PlanV) -> Seq<char> {
    "impl "@ + plan.union_name + " {\n"@ + render_pred_methods(plan.predicates)
        + render_group_methods(plan.groups) + "}\n"@
}

/// One pattern's text, appended.
fn append_pattern(out: &mut String, p: &Pattern)
    ensures
        final(out)@ == old(out)@ + render_pattern(p@),
{
    out.append("Self::");
    out.append(p.variant.as_str());
    match p.shape {
        Shape::NoPayload => {},
        Shape::PositionalPayload => {
            out.append("(..)");
        },
        Shape::NamedPayload => {
            out.append(" { .. }");
        },
    }
    proof {
        assert(out@ =~= old(out)@ + render_pattern(p@));
    }
}

/// The joined patterns' text, appended.
#[verifier::loop_isolation(false)]
fn append_patterns(out: &mut String, pats: &Vec<Pattern>)
    requires
        pats@.len() > 0,
    ensures
        final(out)@ == old(out)@ + render_patterns(pats@.map_values(|p: Pattern| p@)),
{
    let ghost pv = pats@.map_values(|p: Pattern| p@);
    let mut i: usize = 0;
    proof {
        assert(out@ + render_patterns(pv.take(0)) =~= out@);
    }
    while i < pats.len()
        invariant
            i <= pats@.len(),
            out@ == old(out)@ + render_patterns(pv.take(i as int)),
        decreases pats@.len() - i,
    {
        let ghost entered = out@;
        if i > 0 {
            out.append(" | ");
        }
        append_pattern(out, &pats[i]);
        proof {
            assert(pv.take(i + 1).drop_last() =~= pv.take(i as int));
            assert(pv.take(i + 1).last() == pv[i as int]);
            if i == 0 {
                assert(render_patterns(pv.take(1)) == render_pattern(pv.take(1)[0]));
                assert(out@ =~= old(out)@ + render_patterns(pv.take(1)));
            } else {
                assert(render_patterns(pv.take(i + 1)) == render_patterns(pv.take(i as int))
                    + " | "@ + render_pattern(pv[i as int]));
                assert(out@ =~= old(out)@ + render_patterns(pv.take(i + 1)));
            }
        }
        i += 1;
    }
    proof {
        assert(pv.take(pats@.len() as int) =~= pv);
    }
}

/// One whole method's text, appended.
fn append_method(out: &mut String, name: &String, pats: &Vec<Pattern>)
    requires
        pats@.len() > 0,
    ensures
        final(out)@ == old(out)@ + render_method(name@, pats@.map_values(|p: Pattern| p@)),
{
    out.append("    #[inline]\n    pub fn ");
    out.append(name.as_str());
    out.append("(&self) -> bool {\n        matches!(self, ");
    append_patterns(out, pats);
    out.append(")\n    }\n");
    proof {
        assert(out@ =~= old(out)@ + render_method(name@, pats@.map_values(|p: Pattern| p@)));
    }
}

/// The emitter: a plan rendered as source text, exactly as `spec_render`
/// has it.  Under a valid plan this stage cannot fail.
#[verifier::loop_isolation(false)]
pub fn emit(plan: &Plan) -> (s: String)
    ensures
        s@ == spec_render(plan@),
{
    let mut out = String::new();
    out.append("impl ");
    out.append(plan.union_name.as_str());
    out.append(" {\n");
    let ghost head = "impl "@ + plan@.union_name + " {\n"@;
    proof {
        assert(out@ =~= head);
    }
    let ghost predsv = plan@.predicates;
    let mut i: usize = 0;
    proof {
        assert(out@ + render_pred_methods(predsv.take(0)) =~= out@);
    }
    while i < plan.predicates.len()
        invariant
            i <= predsv.len(),
            predsv == plan@.predicates,
            out@ == head + render_pred_methods(predsv.take(i as int)),
        decreases predsv.len() - i,
    {
        let e = &plan.predicates[i];
        let single: Vec<Pattern> = vec![e.pattern.duplicate()];
        append_method(&mut out, &e.name, &single);
        proof {
            assert(predsv.take(i + 1).drop_last() =~= predsv.take(i as int));
            assert(predsv.take(i + 1).last() == predsv[i as int]);
            assert(single@.map_values(|p: Pattern| p@) =~= seq![predsv[i as int].pattern]);
            assert(out@ =~= head + render_pred_methods(predsv.take(i + 1)));
        }
        i += 1;
    }
    proof {
        assert(predsv.take(predsv.len() as int) =~= predsv);
    }
    let ghost mid = head + render_pred_methods(predsv);
    let ghost groupsv = plan@.groups;
    let mut j: usize = 0;
    proof {
        assert(out@ + render_group_methods(groupsv.take(0)) =~= out@);
    }
    while j < plan.groups.len()
        invariant
            j <= groupsv.len(),
            groupsv == plan@.groups,
            out@ == mid + render_group_methods(groupsv.take(j as int)),
        decreases groupsv.len() - j,
    {
        let e = &plan.groups[j];
        // a group never arises without at least one member pattern, but the
        // renderer does not lean on that: an empty member list renders as an
        // empty pattern list
        if e.patterns.len() > 0 {
            append_method(&mut out, &e.name, &e.patterns);
        } else {
            out.append("    #[inline]\n    pub fn ");
            out.append(e.name.as_str());
            out.append("(&self) -> bool {\n        matches!(self, ");
            out.append(")\n    }\n");
        }
        proof {
            assert(groupsv.take(j + 1).drop_last() =~= groupsv.take(j as int));
            assert(groupsv.take(j + 1).last() == groupsv[j as int]);
            assert(e.patterns@.map_values(|p: Pattern| p@) == groupsv[j as int].patterns);
            if e.patterns@.len() == 0 {
                assert(render_patterns(groupsv[j as int].patterns) =~= Seq::<char>::empty());
            }
            assert(out@ =~= mid + render_group_methods(groupsv.take(j + 1)));
        }
        j += 1;
    }
    proof {
        assert(groupsv.take(groupsv.len() as int) =~= groupsv);
    }
    out.append("}\n");
    proof {
        assert(out@ =~= spec_render(plan@));
    }
    out
}

} // verus!
