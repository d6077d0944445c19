use vstd::prelude::*;
use crate::ast::{Shape, UnionType, UnionV, VariantV};
use crate::directives::{DirectivesV, VariantDirectives};
use crate::errors::{GenError, GenErrorV};
use crate::names::{
    default_name, lemma_lex_lt_total, lemma_lex_lt_trans, lex_lt, spec_default_name, str_eq,
    str_lex_lt,
};

verus! {

/// A match pattern for one variant: enough to write the variant's name
/// with a shape-fitting wildcard for its payload.
pub struct Pattern {
    pub variant: String,
    pub shape: Shape,
}

/// The mathematical image of a `Pattern`.
pub struct PatternV {
    pub variant: Seq<char>,
    pub shape: Shape,
}

impl View for Pattern {
    type V = PatternV;

    open spec fn view(&self) -> PatternV {
        PatternV { variant: self.variant@, shape: self.shape }
    }
}

impl Pattern {
    /// A copy of this pattern.
    pub fn duplicate(&self) -> (r: Pattern)
        ensures
            r@ == self@,
    {
        Pattern { variant: self.variant.clone(), shape: self.shape }
    }
}

/// One generated per-variant predicate: its method name and the pattern
/// its body tests.
pub struct PredicateEntry {
    pub name: String,
    pub pattern: Pattern,
}

/// The mathematical image of a `PredicateEntry`.
pub struct PredicateEntryV {
    pub name: Seq<char>,
    pub pattern: PatternV,
}

impl View for PredicateEntry {
    type V = PredicateEntryV;

    open spec fn view(&self) -> PredicateEntryV {
        PredicateEntryV { name: self.name@, pattern: self.pattern@ }
    }
}

/// One generated group predicate: its method name and the patterns whose
/// union its body tests.
pub struct GroupEntry {
    pub name: String,
    pub patterns: Vec<Pattern>,
}

/// The mathematical image of a `GroupEntry`.
pub struct GroupEntryV {
    pub name: Seq<char>,
    pub patterns: Seq<PatternV>,
}

impl View for GroupEntry {
    type V = GroupEntryV;

    open spec fn view(&self) -> GroupEntryV {
        GroupEntryV { name: self.name@, patterns: self.patterns@.map_values(|p: Pattern| p@) }
    }
}

/// Everything the emitter needs: the union's name, the per-variant
/// predicates in declaration order, and the group predicates in
/// lexicographic order of their names.
pub struct Plan {
    pub union_name: String,
    pub predicates: Vec<PredicateEntry>,
    pub groups: Vec<GroupEntry>,
}

/// The mathematical image of a `Plan`.
pub struct PlanV {
    pub union_name: Seq<char>,
    pub predicates: Seq<PredicateEntryV>,
    pub groups: Seq<GroupEntryV>,
}

impl View for Plan {
    type V = PlanV;

    open spec fn view(&self) -> PlanV {
        PlanV {
            union_name: self.union_name@,
            predicates: self.predicates@.map_values(|e: PredicateEntry| e@),
            groups: self.groups@.map_values(|e: GroupEntry| e@),
        }
    }
}

/// The image of a sequence of parsed directives.
pub open spec fn view_dirs(s: Seq<VariantDirectives>) -> Seq<DirectivesV> {
    s.map_values(|d: VariantDirectives| d@)
}

/// The match pattern of a variant.
pub open spec fn spec_pattern(v: VariantV) -> PatternV {
    PatternV { variant: v.ident, shape: v.shape }
}

/// The name planned for a variant's predicate: the rename verbatim when
/// one was given, else the derived default.
pub open spec fn spec_planned_name(v: VariantV, d: DirectivesV) -> Seq<char> {
    match d.rename {
        Some(r) => r,
        None => spec_default_name(v.ident),
    }
}

/// The whole predicate entry planned for one kept variant.
pub open spec fn spec_pred_entry(v: VariantV, d: DirectivesV) -> PredicateEntryV {
    PredicateEntryV { name: spec_planned_name(v, d), pattern: spec_pattern(v) }
}

/// The per-variant predicate entries: one per kept variant, in
/// declaration order; an excluded variant contributes nothing.
pub open spec fn spec_predicates(vs: Seq<VariantV>, ds: Seq<DirectivesV>) -> Seq<PredicateEntryV>
    decreases vs.len(),
{
    if vs.len() == 0 {
        Seq::empty()
    } else {
        let rest = spec_predicates(vs.drop_last(), ds.drop_last());
        if ds.last().excluded {
            rest
        } else {
            rest.push(spec_pred_entry(vs.last(), ds.last()))
        }
    }
}

/// The patterns one variant contributes to group `g`: its own pattern,
/// once per mention of `g` among its group directives.
pub open spec fn pats_for_variant(gs: Seq<Seq<char>>, g: Seq<char>, p: PatternV) -> Seq<PatternV>
    decreases gs.len(),
{
    if gs.len() == 0 {
        Seq::empty()
    } else {
        let rest = pats_for_variant(gs.drop_last(), g, p);
        if gs.last() == g {
            rest.push(p)
        } else {
            rest
        }
    }
}

/// The member patterns of group `g`: the contributions of the kept
/// variants, in declaration order, then directive order within a variant.
pub open spec fn spec_group_members(
    vs: Seq<VariantV>,
    ds: Seq<DirectivesV>,
    g: Seq<char>,
) -> Seq<PatternV>
    decreases vs.len(),
{
    if vs.len() == 0 {
        Seq::empty()
    } else {
        let rest = spec_group_members(vs.drop_last(), ds.drop_last(), g);
        if ds.last().excluded {
            rest
        } else {
            rest + pats_for_variant(ds.last().groups, g, spec_pattern(vs.last()))
        }
    }
}

/// Whether some kept variant names group `g`.
pub open spec fn group_used(ds: Seq<DirectivesV>, g: Seq<char>) -> bool {
    exists|i: int| 0 <= i < ds.len() && !ds[i].excluded && ds[i].groups.contains(g)
}

/// Strictly ascending in the lexicographic order; in particular, no name
/// repeats.
pub open spec fn strictly_sorted(names: Seq<Seq<char>>) -> bool {
    forall|i: int, j: int| 0 <= i < j < names.len() ==> lex_lt(names[i], names[j])
}

/// A name put into its place in a sorted name list; a name already
/// present is not doubled.
pub open spec fn sorted_insert(names: Seq<Seq<char>>, g: Seq<char>) -> Seq<Seq<char>>
    decreases names.len(),
{
    if names.len() == 0 {
        seq![g]
    } else if lex_lt(names.last(), g) {
        names.push(g)
    } else if names.last() == g {
        names
    } else {
        sorted_insert(names.drop_last(), g).push(names.last())
    }
}

/// A list of names put one after the other into a sorted name list.
pub open spec fn insert_all(names: Seq<Seq<char>>, gs: Seq<Seq<char>>) -> Seq<Seq<char>>
    decreases gs.len(),
{
    if gs.len() == 0 {
        names
    } else {
        sorted_insert(insert_all(names, gs.drop_last()), gs.last())
    }
}

/// The plan's group names: every group named by a kept variant, each
/// once, in lexicographic order.
pub open spec fn spec_group_names(ds: Seq<DirectivesV>) -> Seq<Seq<char>>
    decreases ds.len(),
{
    if ds.len() == 0 {
        Seq::empty()
    } else {
        let prev = spec_group_names(ds.drop_last());
        if ds.last().excluded {
            prev
        } else {
            insert_all(prev, ds.last().groups)
        }
    }
}

/// The names of the per-variant predicates, in declaration order.
pub open spec fn pred_names(vs: Seq<VariantV>, ds: Seq<DirectivesV>) -> Seq<Seq<char>> {
    spec_predicates(vs, ds).map_values(|e: PredicateEntryV| e.name)
}

/// Every would-be method name in one namespace: per-variant predicate
/// names first, then group names in their emission order.
pub open spec fn spec_all_names(vs: Seq<VariantV>, ds: Seq<DirectivesV>) -> Seq<Seq<char>> {
    pred_names(vs, ds) + spec_group_names(ds)
}

/// The first name, in namespace order, that repeats an earlier one.
pub open spec fn spec_first_dup(names: Seq<Seq<char>>) -> Option<Seq<char>>
    decreases names.len(),
{
    if names.len() == 0 {
        None
    } else {
        match spec_first_dup(names.drop_last()) {
            Some(n) => Some(n),
            None => if names.drop_last().contains(names.last()) {
                Some(names.last())
            } else {
                None
            },
        }
    }
}

/// The predicate planner's whole result: the plan, unless two method
/// names collide, in which case the first repeated name is reported.
pub open spec fn spec_plan(u: UnionV, ds: Seq<DirectivesV>) -> Result<PlanV, GenErrorV> {
    match spec_first_dup(spec_all_names(u.variants, ds)) {
        Some(n) => Err(GenErrorV::NameCollision { name: n }),
        None => Ok(
            PlanV {
                union_name: u.name,
                predicates: spec_predicates(u.variants, ds),
                groups: spec_group_names(ds).map_values(
                    |g: Seq<char>| GroupEntryV {
                        name: g,
                        patterns: spec_group_members(u.variants, ds, g),
                    },
                ),
            },
        ),
    }
}

/// The image of a vector of strings.
pub open spec fn view_strings(s: Seq<String>) -> Seq<Seq<char>> {
    s.map_values(|x: String| x@)
}

/// A name list without a repetition holds pairwise distinct names.
proof fn lemma_no_dup_distinct(names: Seq<Seq<char>>)
    requires
        spec_first_dup(names) is None,
    ensures
        forall|i: int, j: int| 0 <= i < j < names.len() ==> names[i] != names[j],
    decreases names.len(),
{
    if names.len() > 0 {
        lemma_no_dup_distinct(names.drop_last());
        assert(forall|i: int| 0 <= i < names.len() - 1 ==> names.drop_last()[i] == names[i]);
        assert forall|i: int, j: int| 0 <= i < j < names.len() implies names[i] != names[j] by {
            if j == names.len() - 1 {
                if names[i] == names[j] {
                    assert(names.drop_last()[i] == names.last());
                    assert(names.drop_last().contains(names.last()));
                }
            }
        }
    }
}

/// Two would-be method names that coincide doom the whole plan: the
/// planner reports a collision and emits nothing, never one method for
/// two sources.
pub proof fn lemma_collision_is_fatal(u: UnionV, ds: Seq<DirectivesV>, i: int, j: int)
    requires
        0 <= i < j < spec_all_names(u.variants, ds).len(),
        spec_all_names(u.variants, ds)[i] == spec_all_names(u.variants, ds)[j],
    ensures
        spec_plan(u, ds) is Err,
{
    if spec_first_dup(spec_all_names(u.variants, ds)) is None {
        lemma_no_dup_distinct(spec_all_names(u.variants, ds));
    }
}

/// A sorted insertion keeps the name list strictly sorted.
proof fn lemma_sorted_insert_sorted(names: Seq<Seq<char>>, g: Seq<char>)
    requires
        strictly_sorted(names),
    ensures
        strictly_sorted(sorted_insert(names, g)),
    decreases names.len(),
{
    let res = sorted_insert(names, g);
    if names.len() == 0 {
    } else if lex_lt(names.last(), g) {
        assert forall|i: int, j: int| 0 <= i < j < res.len() implies lex_lt(res[i], res[j]) by {
            if j == res.len() - 1 && i < names.len() - 1 {
                lemma_lex_lt_trans(names[i], names.last(), g);
            }
        }
    } else if names.last() == g {
    } else {
        lemma_lex_lt_total(names.last(), g);
        assert(forall|i: int, j: int|
            0 <= i < j < names.drop_last().len() ==> lex_lt(
                names.drop_last()[i],
                names.drop_last()[j],
            ));
        lemma_sorted_insert_sorted(names.drop_last(), g);
        let rec = sorted_insert(names.drop_last(), g);
        assert forall|i: int, j: int| 0 <= i < j < res.len() implies lex_lt(res[i], res[j]) by {
            if j == res.len() - 1 {
                lemma_sorted_insert_contains(names.drop_last(), g, rec[i]);
                assert(rec.contains(rec[i]));
                if names.drop_last().contains(rec[i]) {
                    let k = choose|k: int|
                        0 <= k < names.drop_last().len() && names.drop_last()[k] == rec[i];
                    assert(lex_lt(names[k], names.last()));
                } else {
                    assert(rec[i] == g);
                    assert(lex_lt(g, names.last()));
                }
            }
        }
    }
}

/// What a sorted insertion holds: exactly the old names and the new one.
proof fn lemma_sorted_insert_contains(names: Seq<Seq<char>>, g: Seq<char>, x: Seq<char>)
    ensures
        sorted_insert(names, g).contains(x) <==> (names.contains(x) || x == g),
    decreases names.len(),
{
    let res = sorted_insert(names, g);
    if names.len() == 0 {
        assert(res[0] == g);
        if res.contains(x) {
            let i = choose|i: int| 0 <= i < res.len() && res[i] == x;
            assert(i == 0);
        }
    } else if lex_lt(names.last(), g) {
        if res.contains(x) {
            let i = choose|i: int| 0 <= i < res.len() && res[i] == x;
            if i < names.len() {
                assert(names[i] == x);
            }
        }
        if names.contains(x) {
            let i = choose|i: int| 0 <= i < names.len() && names[i] == x;
            assert(res[i] == x);
        }
        assert(res[names.len() as int] == g);
    } else if names.last() == g {
        assert(names[names.len() - 1] == g);
    } else {
        lemma_sorted_insert_contains(names.drop_last(), g, x);
        let rec = sorted_insert(names.drop_last(), g);
        if res.contains(x) {
            let i = choose|i: int| 0 <= i < res.len() && res[i] == x;
            if i < rec.len() {
                assert(rec[i] == x);
                if names.drop_last().contains(x) {
                    let k = choose|k: int|
                        0 <= k < names.drop_last().len() && names.drop_last()[k] == x;
                    assert(names[k] == x);
                }
            } else {
                assert(names[names.len() - 1] == x);
            }
        }
        if names.contains(x) {
            let i = choose|i: int| 0 <= i < names.len() && names[i] == x;
            if i < names.len() - 1 {
                assert(names.drop_last()[i] == x);
                assert(rec.contains(x));
                let k = choose|k: int| 0 <= k < rec.len() && rec[k] == x;
                assert(res[k] == x);
            } else {
                assert(res[res.len() - 1] == x);
            }
        }
        if x == g {
            assert(rec.contains(x));
            let k = choose|k: int| 0 <= k < rec.len() && rec[k] == x;
            assert(res[k] == x);
        }
    }
}

/// Inserting a list of names keeps the list sorted.
proof fn lemma_insert_all_sorted(names: Seq<Seq<char>>, gs: Seq<Seq<char>>)
    requires
        strictly_sorted(names),
    ensures
        strictly_sorted(insert_all(names, gs)),
    decreases gs.len(),
{
    if gs.len() > 0 {
        lemma_insert_all_sorted(names, gs.drop_last());
        lemma_sorted_insert_sorted(insert_all(names, gs.drop_last()), gs.last());
    }
}

/// What inserting a list of names holds: the old names and the new ones.
proof fn lemma_insert_all_contains(names: Seq<Seq<char>>, gs: Seq<Seq<char>>, x: Seq<char>)
    ensures
        insert_all(names, gs).contains(x) <==> (names.contains(x) || gs.contains(x)),
    decreases gs.len(),
{
    if gs.len() > 0 {
        lemma_insert_all_contains(names, gs.drop_last(), x);
        lemma_sorted_insert_contains(insert_all(names, gs.drop_last()), gs.last(), x);
        if gs.drop_last().contains(x) {
            let i = choose|i: int| 0 <= i < gs.drop_last().len() && gs.drop_last()[i] == x;
            assert(gs[i] == x);
        }
        if gs.contains(x) && x != gs.last() {
            let i = choose|i: int| 0 <= i < gs.len() && gs[i] == x;
            assert(gs.drop_last()[i] == x);
        }
    }
}

/// The plan's group names come out strictly sorted: the emission order is
/// fixed by the names alone, never by any traversal order.
pub proof fn lemma_group_names_sorted(ds: Seq<DirectivesV>)
    ensures
        strictly_sorted(spec_group_names(ds)),
    decreases ds.len(),
{
    if ds.len() > 0 {
        lemma_group_names_sorted(ds.drop_last());
        if !ds.last().excluded {
            lemma_insert_all_sorted(spec_group_names(ds.drop_last()), ds.last().groups);
        }
    }
}

/// The plan holds a group name exactly when some kept variant names that
/// group.
pub proof fn lemma_group_names_exactly_used(ds: Seq<DirectivesV>, g: Seq<char>)
    ensures
        spec_group_names(ds).contains(g) <==> group_used(ds, g),
    decreases ds.len(),
{
    if ds.len() > 0 {
        lemma_group_names_exactly_used(ds.drop_last(), g);
        assert(forall|t: int| 0 <= t < ds.drop_last().len() ==> ds.drop_last()[t] == ds[t]);
        if !ds.last().excluded {
            lemma_insert_all_contains(spec_group_names(ds.drop_last()), ds.last().groups, g);
        }
        if group_used(ds.drop_last(), g) {
            let t = choose|t: int|
                0 <= t < ds.drop_last().len() && !ds.drop_last()[t].excluded && ds.drop_last()[
                    t
                ].groups.contains(g);
            assert(!ds[t].excluded && ds[t].groups.contains(g));
            assert(group_used(ds, g));
        }
        if group_used(ds, g) {
            let t = choose|t: int|
                0 <= t < ds.len() && !ds[t].excluded && ds[t].groups.contains(g);
            if t < ds.len() - 1 {
                assert(!ds.drop_last()[t].excluded && ds.drop_last()[t].groups.contains(g));
                assert(group_used(ds.drop_last(), g));
            }
        }
    }
}

/// Where the first strictly smaller prefix ends, the sorted insertion
/// lands: on the equal name already present, or right at that place.
proof fn lemma_sorted_insert_shape(names: Seq<Seq<char>>, g: Seq<char>, k: int)
    requires
        strictly_sorted(names),
        0 <= k <= names.len(),
        forall|j: int| 0 <= j < k ==> lex_lt(names[j], g),
        k < names.len() ==> !lex_lt(names[k], g),
    ensures
        sorted_insert(names, g) == if k < names.len() && names[k] == g {
            names
        } else {
            names.insert(k, g)
        },
    decreases names.len(),
{
    if names.len() == 0 {
        assert(sorted_insert(names, g) =~= names.insert(0, g));
    } else {
        let last = names.last();
        let n = names.len() as int;
        if lex_lt(last, g) {
            if k < n {
                if k < n - 1 {
                    lemma_lex_lt_trans(names[k], last, g);
                }
                assert(false);
            }
            assert(sorted_insert(names, g) =~= names.insert(n, g));
        } else if last == g {
            if k < n - 1 {
                assert(lex_lt(names[k], last));
                lemma_lex_lt_total(names[k], g);
                assert(false);
            }
            assert(k == n - 1);
            assert(names[k] == g);
        } else {
            lemma_lex_lt_total(last, g);
            assert(lex_lt(g, last));
            if k == n {
                lemma_lex_lt_total(last, g);
                assert(false);
            }
            assert(forall|i: int, j: int|
                0 <= i < j < names.drop_last().len() ==> lex_lt(
                    names.drop_last()[i],
                    names.drop_last()[j],
                ));
            if k == n - 1 {
                lemma_lex_lt_total(last, g);
                assert(!lex_lt(names[k], g) && names[k] != g ==> lex_lt(g, names[k]));
            }
            lemma_sorted_insert_shape(names.drop_last(), g, if k < n - 1 {
                k
            } else {
                n - 1
            });
            if k < n - 1 && names[k] == g {
                assert(names.drop_last()[k] == g);
                assert(sorted_insert(names, g) =~= names);
            } else {
                assert(sorted_insert(names, g) =~= names.insert(k, g));
            }
        }
    }
}

/// A name found by a scan that skipped only strictly smaller names is in
/// its sorted place; inserting keeps the list sorted.
#[verifier::loop_isolation(false)]
fn insert_group_name(names: &mut Vec<String>, g: &String)
    requires
        strictly_sorted(view_strings(old(names)@)),
    ensures
        view_strings(final(names)@) == sorted_insert(view_strings(old(names)@), g@),
        strictly_sorted(view_strings(final(names)@)),
{
    let ghost nv = view_strings(names@);
    let mut k: usize = 0;
    loop
        invariant
            k <= names@.len(),
            names@ == old(names)@,
            forall|j: int| 0 <= j < k ==> lex_lt(nv[j], g@),
        decreases names@.len() - k,
    {
        if k == names.len() {
            break;
        }
        if !str_lex_lt(names[k].as_str(), g.as_str()) {
            break;
        }
        k += 1;
    }
    proof {
        lemma_sorted_insert_shape(nv, g@, k as int);
    }
    if k < names.len() && str_eq(names[k].as_str(), g.as_str()) {
        return;
    }
    names.insert(k, g.clone());
    proof {
        assert(view_strings(names@) =~= nv.insert(k as int, g@));
        let out = view_strings(names@);
        assert forall|i: int, j: int| 0 <= i < j < out.len() implies lex_lt(out[i], out[j]) by {
            if k < nv.len() {
                lemma_lex_lt_total(nv[k as int], g@);
            }
            if i < k && j == k {
            } else if i == k && j > k {
                assert(out[j] == nv[j - 1]);
                if j - 1 > k {
                    assert(lex_lt(nv[k as int], nv[j - 1]));
                    lemma_lex_lt_trans(g@, nv[k as int], nv[j - 1]);
                }
            } else if i < k && j > k {
                assert(out[i] == nv[i] && out[j] == nv[j - 1]);
            } else if i > k && j > k {
                assert(out[i] == nv[i - 1] && out[j] == nv[j - 1]);
            }
        }
    }
}

/// An early repetition in the name list stands whatever follows it.
proof fn lemma_first_dup_stable(names: Seq<Seq<char>>, i: int)
    requires
        0 <= i <= names.len(),
        spec_first_dup(names.take(i)) is Some,
    ensures
        spec_first_dup(names) == spec_first_dup(names.take(i)),
    decreases names.len() - i,
{
    if i < names.len() {
        assert(names.take(i + 1).drop_last() =~= names.take(i));
        lemma_first_dup_stable(names, i + 1);
    } else {
        assert(names.take(i) =~= names);
    }
}

/// The predicate planner: per-variant predicates, group membership, and
/// the one-namespace collision check, exactly as `spec_plan` has it.
#[verifier::loop_isolation(false)]
#[verifier::rlimit(60)]
pub fn build_plan(u: &UnionType, dirs: &Vec<VariantDirectives>) -> (r: Result<Plan, GenError>)
    requires
        dirs@.len() == u@.variants.len(),
    ensures
        match r {
            Ok(p) => spec_plan(u@, view_dirs(dirs@)) == Ok::<PlanV, GenErrorV>(p@),
            Err(e) => spec_plan(u@, view_dirs(dirs@)) == Err::<PlanV, GenErrorV>(e@),
        },
{
    let ghost vsv = u@.variants;
    let ghost dsv = view_dirs(dirs@);
    let n = u.variants.len();

    // Per-variant predicates, in declaration order.
    let mut preds: Vec<PredicateEntry> = Vec::new();
    proof {
        assert(vsv.take(0) =~= Seq::<VariantV>::empty());
        assert(preds@.map_values(|e: PredicateEntry| e@) =~= Seq::<PredicateEntryV>::empty());
    }
    let mut i: usize = 0;
    while i < n
        invariant
            i <= n,
            preds@.map_values(|e: PredicateEntry| e@) == spec_predicates(
                vsv.take(i as int),
                dsv.take(i as int),
            ),
        decreases n - i,
    {
        proof {
            assert(vsv.take(i + 1).drop_last() =~= vsv.take(i as int));
            assert(dsv.take(i + 1).drop_last() =~= dsv.take(i as int));
            assert(vsv.take(i + 1).last() == vsv[i as int]);
            assert(dsv.take(i + 1).last() == dsv[i as int]);
        }
        let v = &u.variants[i];
        let d = &dirs[i];
        if !d.excluded {
            let name: String = match &d.rename {
                Some(r) => r.clone(),
                None => default_name(v.ident.as_str()),
            };
            let entry = PredicateEntry {
                name,
                pattern: Pattern { variant: v.ident.clone(), shape: v.shape },
            };
            preds.push(entry);
            proof {
                assert(preds@.map_values(|e: PredicateEntry| e@) =~= spec_predicates(
                    vsv.take(i + 1),
                    dsv.take(i + 1),
                ));
            }
        }
        i += 1;
    }
    proof {
        assert(vsv.take(n as int) =~= vsv);
        assert(dsv.take(n as int) =~= dsv);
    }

    // Group names, kept sorted and without repetition as they arrive.
    let mut gnames: Vec<String> = Vec::new();
    proof {
        assert(dsv.take(0) =~= Seq::<DirectivesV>::empty());
        assert(view_strings(gnames@) =~= Seq::<Seq<char>>::empty());
    }
    let mut i2: usize = 0;
    while i2 < n
        invariant
            i2 <= n,
            view_strings(gnames@) == spec_group_names(dsv.take(i2 as int)),
            strictly_sorted(view_strings(gnames@)),
        decreases n - i2,
    {
        proof {
            assert(dsv.take(i2 + 1).drop_last() =~= dsv.take(i2 as int));
            assert(dsv.take(i2 + 1).last() == dsv[i2 as int]);
        }
        let d = &dirs[i2];
        if !d.excluded {
            let ghost gsv = dsv[i2 as int].groups;
            proof {
                assert(gsv.take(0) =~= Seq::<Seq<char>>::empty());
            }
            let mut j: usize = 0;
            while j < d.groups.len()
                invariant
                    j <= d.groups@.len(),
                    gsv == dsv[i2 as int].groups,
                    view_strings(gnames@) == insert_all(
                        spec_group_names(dsv.take(i2 as int)),
                        gsv.take(j as int),
                    ),
                    strictly_sorted(view_strings(gnames@)),
                decreases d.groups@.len() - j,
            {
                proof {
                    assert(gsv.take(j + 1).drop_last() =~= gsv.take(j as int));
                    assert(gsv.take(j + 1).last() == gsv[j as int]);
                }
                insert_group_name(&mut gnames, &d.groups[j]);
                j += 1;
            }
            proof {
                assert(gsv.take(d.groups@.len() as int) =~= gsv);
            }
        }
        i2 += 1;
    }

    // The collision check over the one shared namespace.
    let mut all: Vec<String> = Vec::new();
    let mut i3: usize = 0;
    proof {
        assert(view_strings(all@) =~= Seq::<Seq<char>>::empty());
    }
    while i3 < preds.len()
        invariant
            i3 <= preds@.len(),
            view_strings(all@) == pred_names(vsv, dsv).take(i3 as int),
        decreases preds@.len() - i3,
    {
        all.push(preds[i3].name.clone());
        proof {
            assert(view_strings(all@) =~= pred_names(vsv, dsv).take(i3 + 1));
        }
        i3 += 1;
    }
    let mut i4: usize = 0;
    proof {
        assert(pred_names(vsv, dsv).take(preds@.len() as int) =~= pred_names(vsv, dsv));
        assert(view_strings(all@) =~= pred_names(vsv, dsv) + view_strings(gnames@).take(0));
    }
    while i4 < gnames.len()
        invariant
            i4 <= gnames@.len(),
            view_strings(all@) == pred_names(vsv, dsv) + view_strings(gnames@).take(i4 as int),
        decreases gnames@.len() - i4,
    {
        let ghost before = view_strings(all@);
        all.push(gnames[i4].clone());
        proof {
            assert(view_strings(all@) =~= before.push(view_strings(gnames@)[i4 as int]));
            assert(before.push(view_strings(gnames@)[i4 as int]) =~= pred_names(vsv, dsv)
                + view_strings(gnames@).take(i4 + 1));
        }
        i4 += 1;
    }
    proof {
        assert(view_strings(gnames@).take(gnames@.len() as int) =~= view_strings(gnames@));
        assert(view_strings(all@) == spec_all_names(vsv, dsv));
    }
    let ghost allv = view_strings(all@);
    let mut j2: usize = 0;
    proof {
        assert(allv.take(0) =~= Seq::<Seq<char>>::empty());
    }
    while j2 < all.len()
        invariant
            j2 <= all@.len(),
            spec_first_dup(allv.take(j2 as int)) is None,
        decreases all@.len() - j2,
    {
        proof {
            assert(allv.take(j2 + 1).drop_last() =~= allv.take(j2 as int));
            assert(allv.take(j2 + 1).last() == allv[j2 as int]);
        }
        let mut k2: usize = 0;
        while k2 < j2
            invariant
                k2 <= j2,
                forall|m: int| 0 <= m < k2 ==> allv[m] != allv[j2 as int],
            decreases j2 - k2,
        {
            if str_eq(all[k2].as_str(), all[j2].as_str()) {
                proof {
                    assert(allv.take(j2 as int)[k2 as int] == allv[k2 as int]);
                    assert(allv.take(j2 as int).contains(allv[j2 as int]));
                    assert(spec_first_dup(allv.take(j2 + 1)) == Some(allv[j2 as int]));
                    lemma_first_dup_stable(allv, j2 + 1);
                }
                return Err(GenError::NameCollision { name: all[j2].clone() });
            }
            k2 += 1;
        }
        proof {
            assert forall|m: int| 0 <= m < j2 implies allv.take(j2 as int)[m] != allv[
                j2 as int
            ] by {}
            assert(!allv.take(j2 as int).contains(allv[j2 as int]));
        }
        j2 += 1;
    }
    proof {
        assert(allv.take(all@.len() as int) =~= allv);
        assert(spec_first_dup(spec_all_names(vsv, dsv)) is None);
    }

    // Member patterns for each group, in its emission order.
    let mut groups: Vec<GroupEntry> = Vec::new();
    let ghost gn = view_strings(gnames@);
    let mut m: usize = 0;
    proof {
        assert(groups@.map_values(|e: GroupEntry| e@) =~= Seq::<GroupEntryV>::empty());
        assert(gn.take(0) =~= Seq::<Seq<char>>::empty());
    }
    while m < gnames.len()
        invariant
            m <= gnames@.len(),
            gn == view_strings(gnames@),
            groups@.len() == m,
            forall|t: int| 0 <= t < m ==> groups@[t]@ == (GroupEntryV {
                name: gn[t],
                patterns: spec_group_members(vsv, dsv, gn[t]),
            }),
        decreases gnames@.len() - m,
    {
        let gname = &gnames[m];
        let mut pats: Vec<Pattern> = Vec::new();
        proof {
            assert(pats@.map_values(|p: Pattern| p@) =~= Seq::<PatternV>::empty());
            assert(vsv.take(0) =~= Seq::<VariantV>::empty());
            assert(dsv.take(0) =~= Seq::<DirectivesV>::empty());
        }
        let mut i5: usize = 0;
        while i5 < n
            invariant
                i5 <= n,
                pats@.map_values(|p: Pattern| p@) == spec_group_members(
                    vsv.take(i5 as int),
                    dsv.take(i5 as int),
                    gname@,
                ),
            decreases n - i5,
        {
            proof {
                assert(vsv.take(i5 + 1).drop_last() =~= vsv.take(i5 as int));
                assert(dsv.take(i5 + 1).drop_last() =~= dsv.take(i5 as int));
                assert(vsv.take(i5 + 1).last() == vsv[i5 as int]);
                assert(dsv.take(i5 + 1).last() == dsv[i5 as int]);
            }
            let d = &dirs[i5];
            let v = &u.variants[i5];
            if !d.excluded {
                let ghost gsv = dsv[i5 as int].groups;
                proof {
                    assert(gsv.take(0) =~= Seq::<Seq<char>>::empty());
                    assert(pats@.map_values(|p: Pattern| p@) + pats_for_variant(
                        gsv.take(0),
                        gname@,
                        spec_pattern(vsv[i5 as int]),
                    ) =~= pats@.map_values(|p: Pattern| p@));
                }
                let mut j5: usize = 0;
                while j5 < d.groups.len()
                    invariant
                        j5 <= d.groups@.len(),
                        gsv == dsv[i5 as int].groups,
                        pats@.map_values(|p: Pattern| p@) == spec_group_members(
                            vsv.take(i5 as int),
                            dsv.take(i5 as int),
                            gname@,
                        ) + pats_for_variant(
                            gsv.take(j5 as int),
                            gname@,
                            spec_pattern(vsv[i5 as int]),
                        ),
                    decreases d.groups@.len() - j5,
                {
                    proof {
                        assert(gsv.take(j5 + 1).drop_last() =~= gsv.take(j5 as int));
                        assert(gsv.take(j5 + 1).last() == gsv[j5 as int]);
                        assert(dsv[i5 as int] == d@);
                        assert(gsv[j5 as int] == d.groups@[j5 as int]@);
                        assert(vsv[i5 as int] == v@);
                    }
                    let ghost beforep = pats@.map_values(|p: Pattern| p@);
                    if str_eq(d.groups[j5].as_str(), gname.as_str()) {
                        pats.push(Pattern { variant: v.ident.clone(), shape: v.shape });
                        proof {
                            assert(pats@.map_values(|p: Pattern| p@) =~= beforep.push(
                                spec_pattern(vsv[i5 as int]),
                            ));
                            assert(pats@.map_values(|p: Pattern| p@) =~= spec_group_members(
                                vsv.take(i5 as int),
                                dsv.take(i5 as int),
                                gname@,
                            ) + pats_for_variant(
                                gsv.take(j5 + 1),
                                gname@,
                                spec_pattern(vsv[i5 as int]),
                            ));
                        }
                    } else {
                        proof {
                            assert(pats@.map_values(|p: Pattern| p@) =~= spec_group_members(
                                vsv.take(i5 as int),
                                dsv.take(i5 as int),
                                gname@,
                            ) + pats_for_variant(
                                gsv.take(j5 + 1),
                                gname@,
                                spec_pattern(vsv[i5 as int]),
                            ));
                        }
                    }
                    j5 += 1;
                }
                proof {
                    assert(gsv.take(d.groups@.len() as int) =~= gsv);
                }
            } else {
                proof {
                    assert(spec_group_members(vsv.take(i5 + 1), dsv.take(i5 + 1), gname@)
                        == spec_group_members(vsv.take(i5 as int), dsv.take(i5 as int), gname@));
                }
            }
            i5 += 1;
        }
        let entry = GroupEntry { name: gname.clone(), patterns: pats };
        proof {
            assert(vsv.take(n as int) =~= vsv);
            assert(dsv.take(n as int) =~= dsv);
            assert(entry@.patterns == spec_group_members(vsv, dsv, gn[m as int]));
        }
        groups.push(entry);
        m += 1;
    }

    let plan = Plan { union_name: u.name.clone(), predicates: preds, groups };
    proof {
        assert(plan@.predicates =~= spec_predicates(vsv, dsv));
        assert(plan@.groups =~= spec_group_names(dsv).map_values(
            |g: Seq<char>| GroupEntryV { name: g, patterns: spec_group_members(vsv, dsv, g) },
        ));
        assert(spec_plan(u@, dsv) == Ok::<PlanV, GenErrorV>(plan@));
    }
    Ok(plan)
}

} // verus!
