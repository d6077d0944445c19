use vstd::prelude::*;
use crate::ast::{distinct_idents, VariantV};
use crate::directives::{empty_directives, DirectivesV};
use crate::names::{spec_default_name, str_eq};
use crate::plan::{
    insert_all, pats_for_variant, spec_group_members, spec_group_names, spec_pattern,
    spec_pred_entry, spec_predicates, GroupEntryV, Pattern, PatternV, Plan, PlanV,
    PredicateEntryV,
};

verus! {

/// A named field of a constructed value.
pub struct FieldValue {
    pub name: String,
    pub value: i64,
}

/// The mathematical image of a `FieldValue`.
pub struct FieldValueV {
    pub name: Seq<char>,
    pub value: i64,
}

impl View for FieldValue {
    type V = FieldValueV;

    open spec fn view(&self) -> FieldValueV {
        FieldValueV { name: self.name@, value: self.value }
    }
}

/// The payload a constructed value carries: none, positional fields, or
/// named fields.
pub enum PayloadValue {
    NoPayload,
    Positional(Vec<i64>),
    Named(Vec<FieldValue>),
}

/// The mathematical image of a `PayloadValue`.
pub enum PayloadValueV {
    NoPayload,
    Positional(Seq<i64>),
    Named(Seq<FieldValueV>),
}

impl View for PayloadValue {
    type V = PayloadValueV;

    open spec fn view(&self) -> PayloadValueV {
        match self {
            PayloadValue::NoPayload => PayloadValueV::NoPayload,
            PayloadValue::Positional(xs) => PayloadValueV::Positional(xs@),
            PayloadValue::Named(fs) => (PayloadValueV::Named(
                fs@.map_values(|f: FieldValue| f@),
            )),
        }
    }
}

/// One constructed value of a union: its active variant and its payload.
pub struct UnionValue {
    pub variant: String,
    pub payload: PayloadValue,
}

/// The mathematical image of a `UnionValue`.
pub struct UnionValueV {
    pub variant: Seq<char>,
    pub payload: PayloadValueV,
}

impl View for UnionValue {
    type V = UnionValueV;

    open spec fn view(&self) -> UnionValueV {
        UnionValueV { variant: self.variant@, payload: self.payload@ }
    }
}

/// What a generated pattern means: it matches a value exactly when the
/// value's active variant is the pattern's variant, whatever the payload
/// holds.
pub open spec fn spec_matches(p: PatternV, w: UnionValueV) -> bool {
    w.variant == p.variant
}

/// Whether a pattern matches a value.
pub fn pattern_matches(p: &Pattern, w: &UnionValue) -> (r: bool)
    ensures
        r == spec_matches(p@, w@),
{
    str_eq(w.variant.as_str(), p.variant.as_str())
}

/// What a group method means: the or over its member patterns.
pub open spec fn spec_any_matches(pats: Seq<PatternV>, w: UnionValueV) -> bool {
    exists|i: int| 0 <= i < pats.len() && spec_matches(pats[i], w)
}

/// Whether any of the patterns matches the value.
#[verifier::loop_isolation(false)]
pub fn any_matches(pats: &Vec<Pattern>, w: &UnionValue) -> (r: bool)
    ensures
        r == spec_any_matches(pats@.map_values(|p: Pattern| p@), w@),
{
    let ghost pv = pats@.map_values(|p: Pattern| p@);
    let mut i: usize = 0;
    while i < pats.len()
        invariant
            i <= pv.len(),
            forall|j: int| 0 <= j < i ==> !spec_matches(pv[j], w@),
        decreases pv.len() - i,
    {
        if pattern_matches(&pats[i], w) {
            proof {
                assert(pv[i as int] == pats@[i as int]@);
                assert(spec_any_matches(pv, w@));
            }
            return true;
        }
        i += 1;
    }
    false
}

/// The pattern of the first per-variant predicate under a name.
pub open spec fn find_pred(preds: Seq<PredicateEntryV>, name: Seq<char>) -> Option<PatternV>
    decreases preds.len(),
{
    if preds.len() == 0 {
        None
    } else if preds[0].name == name {
        Some(preds[0].pattern)
    } else {
        find_pred(preds.drop_first(), name)
    }
}

/// The member patterns of the first group under a name.
pub open spec fn find_group(groups: Seq<GroupEntryV>, name: Seq<char>) -> Option<Seq<PatternV>>
    decreases groups.len(),
{
    if groups.len() == 0 {
        None
    } else if groups[0].name == name {
        Some(groups[0].patterns)
    } else {
        find_group(groups.drop_first(), name)
    }
}

/// What a plan answers when the method under a name is called on a
/// value: per-variant predicates are looked up first, then groups; an
/// absent name has no answer.
pub open spec fn spec_eval(plan: PlanV, name: Seq<char>, w: UnionValueV) -> Option<bool> {
    match find_pred(plan.predicates, name) {
        Some(p) => Some(spec_matches(p, w)),
        None => match find_group(plan.groups, name) {
            Some(pats) => Some(spec_any_matches(pats, w)),
            None => None,
        },
    }
}

/// Run the method a plan generates under a name against a value.
#[verifier::loop_isolation(false)]
pub fn eval_predicate(plan: &Plan, name: &str, w: &UnionValue) -> (r: Option<bool>)
    ensures
        r == spec_eval(plan@, name@, w@),
{
    let ghost predsv = plan@.predicates;
    let mut i: usize = 0;
    proof {
        assert(predsv.skip(0) =~= predsv);
    }
    while i < plan.predicates.len()
        invariant
            i <= predsv.len(),
            find_pred(predsv, name@) == find_pred(predsv.skip(i as int), name@),
        decreases predsv.len() - i,
    {
        proof {
            assert(predsv.skip(i as int)[0] == predsv[i as int]);
            assert(predsv.skip(i as int).drop_first() =~= predsv.skip(i + 1));
        }
        let e = &plan.predicates[i];
        if str_eq(e.name.as_str(), name) {
            return Some(pattern_matches(&e.pattern, w));
        }
        i += 1;
    }
    proof {
        assert(predsv.skip(predsv.len() as int) =~= Seq::<PredicateEntryV>::empty());
    }
    let ghost groupsv = plan@.groups;
    let mut j: usize = 0;
    proof {
        assert(groupsv.skip(0) =~= groupsv);
    }
    while j < plan.groups.len()
        invariant
            j <= groupsv.len(),
            find_group(groupsv, name@) == find_group(groupsv.skip(j as int), name@),
        decreases groupsv.len() - j,
    {
        proof {
            assert(groupsv.skip(j as int)[0] == groupsv[j as int]);
            assert(groupsv.skip(j as int).drop_first() =~= groupsv.skip(j + 1));
        }
        let e = &plan.groups[j];
        if str_eq(e.name.as_str(), name) {
            return Some(any_matches(&e.patterns, w));
        }
        j += 1;
    }
    proof {
        assert(groupsv.skip(groupsv.len() as int) =~= Seq::<GroupEntryV>::empty());
    }
    None
}

/// Every planned predicate belongs to some kept variant.
proof fn lemma_predicates_from_kept(vs: Seq<VariantV>, ds: Seq<DirectivesV>)
    requires
        vs.len() == ds.len(),
    ensures
        forall|j: int| 0 <= j < spec_predicates(vs, ds).len() ==> exists|t: int|
            0 <= t < vs.len() && !ds[t].excluded && (#[trigger] spec_predicates(vs, ds)[j])
                == #[trigger] spec_pred_entry(vs[t], ds[t]),
    decreases vs.len(),
{
    if vs.len() > 0 {
        lemma_predicates_from_kept(vs.drop_last(), ds.drop_last());
        let rest = spec_predicates(vs.drop_last(), ds.drop_last());
        let whole = spec_predicates(vs, ds);
        assert forall|j: int| 0 <= j < whole.len() implies exists|t: int|
            0 <= t < vs.len() && !ds[t].excluded && (#[trigger] whole[j]) == #[trigger]
            spec_pred_entry(vs[t], ds[t]) by {
            if j < rest.len() {
                let t = choose|t: int|
                    0 <= t < vs.drop_last().len() && !ds.drop_last()[t].excluded && (#[trigger]
                    rest[j]) == #[trigger] spec_pred_entry(
                        vs.drop_last()[t],
                        ds.drop_last()[t],
                    );
                assert(vs.drop_last()[t] == vs[t] && ds.drop_last()[t] == ds[t]);
                assert(whole[j] == rest[j]);
                assert(whole[j] == spec_pred_entry(vs[t], ds[t]));
            } else {
                assert(!ds.last().excluded);
                assert(whole[j] == spec_pred_entry(vs[vs.len() - 1], ds[ds.len() - 1]));
            }
        }
    }
}

/// Each kept variant owns a planned predicate whose test answers true on
/// values of that variant and false on values of any other variant,
/// whatever payload they carry.
pub proof fn lemma_variant_predicate_exact(
    vs: Seq<VariantV>,
    ds: Seq<DirectivesV>,
    k: int,
    w: UnionValueV,
)
    requires
        vs.len() == ds.len(),
        0 <= k < vs.len(),
        !ds[k].excluded,
    ensures
        exists|j: int|
            0 <= j < spec_predicates(vs, ds).len() && spec_predicates(vs, ds)[j]
                == spec_pred_entry(vs[k], ds[k]) && (spec_matches(
                spec_predicates(vs, ds)[j].pattern,
                w,
            ) <==> w.variant == vs[k].ident),
    decreases vs.len(),
{
    let whole = spec_predicates(vs, ds);
    if k == vs.len() - 1 {
        let j = whole.len() - 1;
        assert(whole[j] == spec_pred_entry(vs[k], ds[k]));
        assert(spec_matches(whole[j].pattern, w) <==> w.variant == vs[k].ident);
    } else {
        lemma_variant_predicate_exact(vs.drop_last(), ds.drop_last(), k, w);
        let rest = spec_predicates(vs.drop_last(), ds.drop_last());
        let j = choose|j: int|
            0 <= j < rest.len() && rest[j] == spec_pred_entry(
                vs.drop_last()[k],
                ds.drop_last()[k],
            ) && (spec_matches(rest[j].pattern, w) <==> w.variant == vs.drop_last()[k].ident);
        assert(vs.drop_last()[k] == vs[k] && ds.drop_last()[k] == ds[k]);
        assert(whole[j] == rest[j]);
    }
}

/// An excluded variant gets no predicate of its own: no planned pattern
/// tests for it, so a value of it makes every per-variant predicate
/// false — it is matched only negatively.
pub proof fn lemma_excluded_variant(
    vs: Seq<VariantV>,
    ds: Seq<DirectivesV>,
    k: int,
    w: UnionValueV,
)
    requires
        vs.len() == ds.len(),
        distinct_idents(vs),
        0 <= k < vs.len(),
        ds[k].excluded,
        w.variant == vs[k].ident,
    ensures
        forall|j: int| 0 <= j < spec_predicates(vs, ds).len() ==> spec_predicates(
            vs,
            ds,
        )[j].pattern.variant != vs[k].ident,
        forall|j: int| 0 <= j < spec_predicates(vs, ds).len() ==> !spec_matches(
            spec_predicates(vs, ds)[j].pattern,
            w,
        ),
{
    lemma_predicates_from_kept(vs, ds);
    let whole = spec_predicates(vs, ds);
    assert forall|j: int| 0 <= j < whole.len() implies whole[j].pattern.variant
        != vs[k].ident by {
        let t = choose|t: int|
            0 <= t < vs.len() && !ds[t].excluded && whole[j] == spec_pred_entry(vs[t], ds[t]);
        assert(t != k);
        assert(whole[j].pattern.variant == vs[t].ident);
    }
}

/// One variant's contribution to a group matches a value exactly when the
/// variant names the group and the value is of that variant.
proof fn lemma_pats_for_variant_matches(
    gs: Seq<Seq<char>>,
    g: Seq<char>,
    p: PatternV,
    w: UnionValueV,
)
    ensures
        spec_any_matches(pats_for_variant(gs, g, p), w) <==> (gs.contains(g) && spec_matches(
            p,
            w,
        )),
    decreases gs.len(),
{
    if gs.len() > 0 {
        lemma_pats_for_variant_matches(gs.drop_last(), g, p, w);
        let rest = pats_for_variant(gs.drop_last(), g, p);
        let whole = pats_for_variant(gs, g, p);
        if gs.last() == g {
            assert(gs.contains(g));
            if spec_matches(p, w) {
                assert(whole[whole.len() - 1] == p);
                assert(spec_any_matches(whole, w));
            } else {
                if spec_any_matches(whole, w) {
                    let i = choose|i: int| 0 <= i < whole.len() && spec_matches(whole[i], w);
                    assert(i < rest.len() && whole[i] == rest[i]);
                    assert(spec_any_matches(rest, w));
                    assert(gs.drop_last().contains(g));
                }
            }
        } else {
            assert(whole == rest);
            assert forall|i: int| 0 <= i < gs.len() && gs[i] == g implies i
                < gs.drop_last().len() by {}
            if gs.contains(g) {
                let i = choose|i: int| 0 <= i < gs.len() && gs[i] == g;
                assert(gs.drop_last()[i] == g);
                assert(gs.drop_last().contains(g));
            }
            if gs.drop_last().contains(g) {
                let i = choose|i: int| 0 <= i < gs.drop_last().len() && gs.drop_last()[i] == g;
                assert(gs[i] == g);
                assert(gs.contains(g));
            }
        }
    }
}

/// An or over joined pattern lists is the or of the two ors.
proof fn lemma_any_matches_concat(a: Seq<PatternV>, b: Seq<PatternV>, w: UnionValueV)
    ensures
        spec_any_matches(a + b, w) <==> (spec_any_matches(a, w) || spec_any_matches(b, w)),
{
    if spec_any_matches(a + b, w) {
        let i = choose|i: int| 0 <= i < (a + b).len() && spec_matches((a + b)[i], w);
        if i < a.len() {
            assert((a + b)[i] == a[i]);
            assert(spec_any_matches(a, w));
        } else {
            assert((a + b)[i] == b[i - a.len()]);
            assert(spec_any_matches(b, w));
        }
    }
    if spec_any_matches(a, w) {
        let i = choose|i: int| 0 <= i < a.len() && spec_matches(a[i], w);
        assert((a + b)[i] == a[i]);
        assert(spec_any_matches(a + b, w));
    }
    if spec_any_matches(b, w) {
        let i = choose|i: int| 0 <= i < b.len() && spec_matches(b[i], w);
        assert((a + b)[a.len() + i] == b[i]);
        assert(spec_any_matches(a + b, w));
    }
}

/// A group's synthesized test holds of a value exactly when the value's
/// active variant is a kept member of the group, and of no other value:
/// true for one member, all members, and nothing outside the group.
pub proof fn lemma_group_predicate_exact(
    vs: Seq<VariantV>,
    ds: Seq<DirectivesV>,
    g: Seq<char>,
    w: UnionValueV,
)
    requires
        vs.len() == ds.len(),
    ensures
        spec_any_matches(spec_group_members(vs, ds, g), w) <==> exists|t: int|
            0 <= t < vs.len() && !ds[t].excluded && ds[t].groups.contains(g) && w.variant
                == vs[t].ident,
    decreases vs.len(),
{
    if vs.len() > 0 {
        lemma_group_predicate_exact(vs.drop_last(), ds.drop_last(), g, w);
        let rest = spec_group_members(vs.drop_last(), ds.drop_last(), g);
        let n = vs.len() - 1;
        if ds.last().excluded {
            assert(spec_group_members(vs, ds, g) == rest);
            assert forall|t: int|
                0 <= t < vs.len() && !ds[t].excluded && ds[t].groups.contains(g) && w.variant
                    == vs[t].ident implies t < n by {}
            assert(forall|t: int| 0 <= t < n ==> vs.drop_last()[t] == vs[t]
                && ds.drop_last()[t] == ds[t]);
        } else {
            let own = pats_for_variant(ds.last().groups, g, spec_pattern(vs.last()));
            lemma_any_matches_concat(rest, own, w);
            lemma_pats_for_variant_matches(ds.last().groups, g, spec_pattern(vs.last()), w);
            assert(forall|t: int| 0 <= t < n ==> vs.drop_last()[t] == vs[t]
                && ds.drop_last()[t] == ds[t]);
            if spec_any_matches(own, w) {
                assert(ds[n].groups.contains(g) && w.variant == vs[n].ident);
            }
        }
    }
}

/// With no directives at all, the plan holds exactly one predicate per
/// variant, in order and under its default name, and no group at all.
pub proof fn lemma_no_directives(vs: Seq<VariantV>, ds: Seq<DirectivesV>)
    requires
        vs.len() == ds.len(),
        forall|t: int| 0 <= t < ds.len() ==> ds[t] == empty_directives(),
    ensures
        spec_predicates(vs, ds).len() == vs.len(),
        forall|t: int| 0 <= t < vs.len() ==> spec_predicates(vs, ds)[t] == (PredicateEntryV {
            name: spec_default_name(vs[t].ident),
            pattern: spec_pattern(vs[t]),
        }),
        spec_group_names(ds) == Seq::<Seq<char>>::empty(),
    decreases vs.len(),
{
    if vs.len() > 0 {
        assert(forall|t: int| 0 <= t < ds.drop_last().len() ==> ds.drop_last()[t] == ds[t]);
        lemma_no_directives(vs.drop_last(), ds.drop_last());
        assert(!ds.last().excluded);
        assert(ds.last().groups.len() == 0);
        assert(insert_all(spec_group_names(ds.drop_last()), ds.last().groups)
            == spec_group_names(ds.drop_last()));
        assert(forall|t: int| 0 <= t < vs.drop_last().len() ==> vs.drop_last()[t] == vs[t]);
        assert(crate::plan::spec_planned_name(vs.last(), ds.last()) == spec_default_name(
            vs.last().ident,
        ));
    }
}

} // verus!
