use vstd::prelude::*;
use crate::ast::{RawAttr, RawAttrV};
use crate::errors::{GenError, GenErrorV};
use crate::names::{chars_eq_str, chars_to_string, str_eq, str_to_chars};

verus! {

/// The directives parsed off one variant: whether it is left out, an
/// optional replacement for its predicate name, and the groups it joins.
pub struct VariantDirectives {
    pub excluded: bool,
    pub rename: Option<String>,
    pub groups: Vec<String>,
}

/// The mathematical image of a `VariantDirectives`.
pub struct DirectivesV {
    pub excluded: bool,
    pub rename: Option<Seq<char>>,
    pub groups: Seq<Seq<char>>,
}

impl View for VariantDirectives {
    type V = DirectivesV;

    open spec fn view(&self) -> DirectivesV {
        DirectivesV {
            excluded: self.excluded,
            rename: match &self.rename {
                Some(s) => Some(s@),
                None => None,
            },
            groups: self.groups@.map_values(|g: String| g@),
        }
    }
}

/// The directives of a variant that carries none.
pub open spec fn empty_directives() -> DirectivesV {
    DirectivesV { excluded: false, rename: None, groups: Seq::empty() }
}

/// Where the directive scanner stands between two characters.
#[derive(Clone, Copy, PartialEq, Eq, Structural, Debug)]
pub enum ScanMode {
    BetweenItems,
    InKey,
    AfterKey,
    AfterEquals,
    InValue,
    AfterValue,
}

/// The two ways directive text can be ill-formed: junk where the grammar
/// wants a key or a separator, or a missing or unusable string value.
#[derive(Clone, Copy, PartialEq, Eq, Structural, Debug)]
pub enum ScanErrKind {
    Invalid,
    Malformed,
}

/// A scanner failure: its kind and the offset of the offending place.
#[derive(Clone, Copy, PartialEq, Eq, Structural, Debug)]
pub struct ScanErr {
    pub kind: ScanErrKind,
    pub off: usize,
}

/// One scanned item, `key` bare or `key = "value"`, with the offset of its
/// key in the attribute body.
pub struct ScanItemV {
    pub key: Seq<char>,
    pub value: Option<Seq<char>>,
    pub off: usize,
}

/// The scanner state: mode, the items emitted so far, the pending key and
/// value, and the failure once one occurred.
pub struct ScanV {
    pub mode: ScanMode,
    pub items: Seq<ScanItemV>,
    pub key: Seq<char>,
    pub key_off: usize,
    pub val: Seq<char>,
    pub err: Option<ScanErr>,
}

/// Blank characters between tokens of the directive grammar.
pub open spec fn is_space_char(c: char) -> bool {
    c == ' ' || c == '\t' || c == '\n' || c == '\r'
}

/// Characters a directive key may start with.
pub open spec fn is_key_start(c: char) -> bool {
    ('a' <= c && c <= 'z') || ('A' <= c && c <= 'Z') || c == '_'
}

/// Characters a directive key may continue with.
pub open spec fn is_key_char(c: char) -> bool {
    is_key_start(c) || ('0' <= c && c <= '9')
}

/// The scanner before it has seen any character.
pub open spec fn scan_init() -> ScanV {
    ScanV {
        mode: ScanMode::BetweenItems,
        items: Seq::empty(),
        key: Seq::empty(),
        key_off: 0,
        val: Seq::empty(),
        err: None,
    }
}

/// One step of the directive scanner.  The grammar it walks is a
/// comma-separated list of items, an item being a bare key or
/// `key = "value"`; a value runs to the next double quote, with no escape
/// sequences.  A failure, once recorded, is kept.
pub open spec fn scan_step(st: ScanV, c: char, pos: usize) -> ScanV {
    if st.err is Some {
        st
    } else {
        match st.mode {
            ScanMode::BetweenItems => if is_space_char(c) {
                st
            } else if is_key_start(c) {
                ScanV { mode: ScanMode::InKey, key: seq![c], key_off: pos, ..st }
            } else {
                ScanV { err: Some(ScanErr { kind: ScanErrKind::Invalid, off: pos }), ..st }
            },
            ScanMode::InKey => if is_key_char(c) {
                ScanV { key: st.key.push(c), ..st }
            } else if is_space_char(c) {
                ScanV { mode: ScanMode::AfterKey, ..st }
            } else if c == ',' {
                ScanV {
                    mode: ScanMode::BetweenItems,
                    items: st.items.push(ScanItemV { key: st.key, value: None, off: st.key_off }),
                    key: Seq::empty(),
                    ..st
                }
            } else if c == '=' {
                ScanV { mode: ScanMode::AfterEquals, ..st }
            } else {
                ScanV { err: Some(ScanErr { kind: ScanErrKind::Invalid, off: pos }), ..st }
            },
            ScanMode::AfterKey => if is_space_char(c) {
                st
            } else if c == ',' {
                ScanV {
                    mode: ScanMode::BetweenItems,
                    items: st.items.push(ScanItemV { key: st.key, value: None, off: st.key_off }),
                    key: Seq::empty(),
                    ..st
                }
            } else if c == '=' {
                ScanV { mode: ScanMode::AfterEquals, ..st }
            } else {
                ScanV { err: Some(ScanErr { kind: ScanErrKind::Invalid, off: pos }), ..st }
            },
            ScanMode::AfterEquals => if is_space_char(c) {
                st
            } else if c == '"' {
                ScanV { mode: ScanMode::InValue, val: Seq::empty(), ..st }
            } else {
                ScanV { err: Some(ScanErr { kind: ScanErrKind::Malformed, off: pos }), ..st }
            },
            ScanMode::InValue => if c == '"' {
                ScanV {
                    mode: ScanMode::AfterValue,
                    items: st.items.push(
                        ScanItemV { key: st.key, value: Some(st.val), off: st.key_off },
                    ),
                    key: Seq::empty(),
                    val: Seq::empty(),
                    ..st
                }
            } else {
                ScanV { val: st.val.push(c), ..st }
            },
            ScanMode::AfterValue => if is_space_char(c) {
                st
            } else if c == ',' {
                ScanV { mode: ScanMode::BetweenItems, ..st }
            } else {
                ScanV { err: Some(ScanErr { kind: ScanErrKind::Invalid, off: pos }), ..st }
            },
        }
    }
}

/// The scanner state after reading a whole body.
pub open spec fn spec_scan(s: Seq<char>) -> ScanV
    decreases s.len(),
{
    if s.len() == 0 {
        scan_init()
    } else {
        scan_step(spec_scan(s.drop_last()), s.last(), (s.len() - 1) as usize)
    }
}

/// The items a directive body scans to, or the failure.  A body may be
/// empty, and a trailing comma is allowed; a key at the end of the body
/// ends a bare item; a body ending after `=` or inside a value fails.
pub open spec fn scan_result(s: Seq<char>) -> Result<Seq<ScanItemV>, ScanErr> {
    let st = spec_scan(s);
    match st.err {
        Some(e) => Err(e),
        None => match st.mode {
            ScanMode::BetweenItems => Ok(st.items),
            ScanMode::AfterValue => Ok(st.items),
            ScanMode::InKey => Ok(
                st.items.push(ScanItemV { key: st.key, value: None, off: st.key_off }),
            ),
            ScanMode::AfterKey => Ok(
                st.items.push(ScanItemV { key: st.key, value: None, off: st.key_off }),
            ),
            ScanMode::AfterEquals => Err(
                ScanErr { kind: ScanErrKind::Malformed, off: s.len() as usize },
            ),
            ScanMode::InValue => Err(
                ScanErr { kind: ScanErrKind::Malformed, off: s.len() as usize },
            ),
        },
    }
}

/// A recorded failure stays for the rest of the body.
proof fn lemma_scan_err_stable(s: Seq<char>, i: int)
    requires
        0 <= i <= s.len(),
        spec_scan(s.take(i)).err is Some,
    ensures
        spec_scan(s).err == spec_scan(s.take(i)).err,
    decreases s.len() - i,
{
    if i < s.len() {
        assert(s.take(i + 1).drop_last() =~= s.take(i));
        lemma_scan_err_stable(s, i + 1);
    } else {
        assert(s.take(i) =~= s);
    }
}

/// One scanned item in executable form.
pub struct ScanItem {
    pub key: Vec<char>,
    pub value: Option<Vec<char>>,
    pub off: usize,
}

impl View for ScanItem {
    type V = ScanItemV;

    open spec fn view(&self) -> ScanItemV {
        ScanItemV {
            key: self.key@,
            value: match &self.value {
                Some(v) => Some(v@),
                None => None,
            },
            off: self.off,
        }
    }
}

/// The image of a sequence of scanned items.
pub open spec fn view_items(s: Seq<ScanItem>) -> Seq<ScanItemV> {
    s.map_values(|it: ScanItem| it@)
}

fn is_space(c: char) -> (r: bool)
    ensures
        r == is_space_char(c),
{
    c == ' ' || c == '\t' || c == '\n' || c == '\r'
}

fn key_start(c: char) -> (r: bool)
    ensures
        r == is_key_start(c),
{
    ('a' <= c && c <= 'z') || ('A' <= c && c <= 'Z') || c == '_'
}

fn key_char(c: char) -> (r: bool)
    ensures
        r == is_key_char(c),
{
    key_start(c) || ('0' <= c && c <= '9')
}

/// Scan one attribute body into its items, or fail where the grammar does.
fn scan_chars(s: &Vec<char>) -> (r: Result<Vec<ScanItem>, ScanErr>)
    ensures
        match r {
            Ok(items) => scan_result(s@) == Ok::<Seq<ScanItemV>, ScanErr>(view_items(items@)),
            Err(e) => scan_result(s@) == Err::<Seq<ScanItemV>, ScanErr>(e),
        },
{
    let mut mode = ScanMode::BetweenItems;
    let mut items: Vec<ScanItem> = Vec::new();
    let mut key: Vec<char> = Vec::new();
    let mut key_off: usize = 0;
    let mut val: Vec<char> = Vec::new();
    let mut i: usize = 0;
    proof {
        assert(s@.take(0) =~= Seq::<char>::empty());
        assert(view_items(items@) =~= Seq::<ScanItemV>::empty());
        assert(key@ =~= Seq::<char>::empty());
        assert(val@ =~= Seq::<char>::empty());
    }
    while i < s.len()
        invariant
            i <= s@.len(),
            spec_scan(s@.take(i as int)) == (ScanV {
                mode,
                items: view_items(items@),
                key: key@,
                key_off,
                val: val@,
                err: None::<ScanErr>,
            }),
        decreases s@.len() - i,
    {
        let c = s[i];
        proof {
            assert(s@.take(i + 1).drop_last() =~= s@.take(i as int));
            assert(s@.take(i + 1).last() == s@[i as int]);
        }
        let ghost pre = spec_scan(s@.take(i as int));
        let ghost post = scan_step(pre, c, i);
        proof {
            assert(spec_scan(s@.take(i + 1)) == post);
        }
        match mode {
            ScanMode::BetweenItems => {
                if is_space(c) {
                } else if key_start(c) {
                    mode = ScanMode::InKey;
                    key = Vec::new();
                    key.push(c);
                    key_off = i;
                    proof {
                        assert(key@ =~= seq![c]);
                    }
                } else {
                    let e = ScanErr { kind: ScanErrKind::Invalid, off: i };
                    proof {
                        lemma_scan_err_stable(s@, i + 1);
                    }
                    return Err(e);
                }
            },
            ScanMode::InKey => {
                if key_char(c) {
                    key.push(c);
                } else if is_space(c) {
                    mode = ScanMode::AfterKey;
                } else if c == ',' {
                    let item_key = key;
                    key = Vec::new();
                    items.push(ScanItem { key: item_key, value: None, off: key_off });
                    mode = ScanMode::BetweenItems;
                    proof {
                        assert(view_items(items@) =~= post.items);
                    }
                } else if c == '=' {
                    mode = ScanMode::AfterEquals;
                } else {
                    let e = ScanErr { kind: ScanErrKind::Invalid, off: i };
                    proof {
                        lemma_scan_err_stable(s@, i + 1);
                    }
                    return Err(e);
                }
            },
            ScanMode::AfterKey => {
                if is_space(c) {
                } else if c == ',' {
                    let item_key = key;
                    key = Vec::new();
                    items.push(ScanItem { key: item_key, value: None, off: key_off });
                    mode = ScanMode::BetweenItems;
                    proof {
                        assert(view_items(items@) =~= post.items);
                    }
                } else if c == '=' {
                    mode = ScanMode::AfterEquals;
                } else {
                    let e = ScanErr { kind: ScanErrKind::Invalid, off: i };
                    proof {
                        lemma_scan_err_stable(s@, i + 1);
                    }
                    return Err(e);
                }
            },
            ScanMode::AfterEquals => {
                if is_space(c) {
                } else if c == '"' {
                    mode = ScanMode::InValue;
                    val = Vec::new();
                } else {
                    let e = ScanErr { kind: ScanErrKind::Malformed, off: i };
                    proof {
                        lemma_scan_err_stable(s@, i + 1);
                    }
                    return Err(e);
                }
            },
            ScanMode::InValue => {
                if c == '"' {
                    let item_key = key;
                    key = Vec::new();
                    let item_val = val;
                    val = Vec::new();
                    items.push(ScanItem { key: item_key, value: Some(item_val), off: key_off });
                    mode = ScanMode::AfterValue;
                    proof {
                        assert(view_items(items@) =~= post.items);
                    }
                } else {
                    val.push(c);
                }
            },
            ScanMode::AfterValue => {
                if is_space(c) {
                } else if c == ',' {
                    mode = ScanMode::BetweenItems;
                } else {
                    let e = ScanErr { kind: ScanErrKind::Invalid, off: i };
                    proof {
                        lemma_scan_err_stable(s@, i + 1);
                    }
                    return Err(e);
                }
            },
        }
        i += 1;
    }
    proof {
        assert(s@.take(i as int) =~= s@);
    }
    match mode {
        ScanMode::BetweenItems => Ok(items),
        ScanMode::AfterValue => Ok(items),
        ScanMode::InKey => {
            items.push(ScanItem { key, value: None, off: key_off });
            proof {
                assert(view_items(items@) =~= spec_scan(s@).items.push(
                    ScanItemV {
                        key: spec_scan(s@).key,
                        value: None,
                        off: spec_scan(s@).key_off,
                    },
                ));
            }
            Ok(items)
        },
        ScanMode::AfterKey => {
            items.push(ScanItem { key, value: None, off: key_off });
            proof {
                assert(view_items(items@) =~= spec_scan(s@).items.push(
                    ScanItemV {
                        key: spec_scan(s@).key,
                        value: None,
                        off: spec_scan(s@).key_off,
                    },
                ));
            }
            Ok(items)
        },
        ScanMode::AfterEquals => Err(ScanErr { kind: ScanErrKind::Malformed, off: s.len() }),
        ScanMode::InValue => Err(ScanErr { kind: ScanErrKind::Malformed, off: s.len() }),
    }
}

/// How one scanned item changes a variant's directives, or why it is
/// rejected: `ignore` is bare; `rename` takes a non-empty string and the
/// last one written wins; `group` takes a string and repeats; any other
/// key inside the namespace is unsupported.
pub open spec fn spec_apply_item(d: DirectivesV, it: ScanItemV, loc: usize) -> Result<
    DirectivesV,
    GenErrorV,
> {
    if it.key == "ignore"@ {
        match it.value {
            None => Ok(DirectivesV { excluded: true, ..d }),
            Some(_) => Err(GenErrorV::InvalidDirective { loc, offset: it.off }),
        }
    } else if it.key == "rename"@ {
        match it.value {
            Some(v) => if v.len() == 0 {
                Err(GenErrorV::MalformedArgument { loc, offset: it.off })
            } else {
                Ok(DirectivesV { rename: Some(v), ..d })
            },
            None => Err(GenErrorV::MalformedArgument { loc, offset: it.off }),
        }
    } else if it.key == "group"@ {
        match it.value {
            Some(v) => Ok(DirectivesV { groups: d.groups.push(v), ..d }),
            None => Err(GenErrorV::MalformedArgument { loc, offset: it.off }),
        }
    } else {
        Err(GenErrorV::UnsupportedDirective { key: it.key, loc, offset: it.off })
    }
}

/// Scanned items applied left to right; the first rejection wins.
pub open spec fn spec_apply_items(d: DirectivesV, items: Seq<ScanItemV>, loc: usize) -> Result<
    DirectivesV,
    GenErrorV,
>
    decreases items.len(),
{
    if items.len() == 0 {
        Ok(d)
    } else {
        match spec_apply_items(d, items.drop_last(), loc) {
            Ok(d2) => spec_apply_item(d2, items.last(), loc),
            Err(e) => Err(e),
        }
    }
}

/// One attribute folded into a variant's directives.  An attribute outside
/// the recognized namespace is left alone; one inside it is scanned and
/// its items applied.
pub open spec fn spec_parse_attr(d: DirectivesV, a: RawAttrV) -> Result<DirectivesV, GenErrorV> {
    if a.namespace != "enum_is"@ {
        Ok(d)
    } else {
        match scan_result(a.body) {
            Err(se) => Err(
                match se.kind {
                    ScanErrKind::Invalid => (GenErrorV::InvalidDirective {
                        loc: a.loc,
                        offset: se.off,
                    }),
                    ScanErrKind::Malformed => (GenErrorV::MalformedArgument {
                        loc: a.loc,
                        offset: se.off,
                    }),
                },
            ),
            Ok(items) => spec_apply_items(d, items, a.loc),
        }
    }
}

/// All of a variant's attributes folded left to right.
pub open spec fn spec_fold_attrs(attrs: Seq<RawAttrV>) -> Result<DirectivesV, GenErrorV>
    decreases attrs.len(),
{
    if attrs.len() == 0 {
        Ok(empty_directives())
    } else {
        match spec_fold_attrs(attrs.drop_last()) {
            Ok(d) => spec_parse_attr(d, attrs.last()),
            Err(e) => Err(e),
        }
    }
}

/// The location of the first attribute inside the recognized namespace.
pub open spec fn first_tagged_loc(attrs: Seq<RawAttrV>) -> Option<usize>
    decreases attrs.len(),
{
    if attrs.len() == 0 {
        None
    } else {
        match first_tagged_loc(attrs.drop_last()) {
            Some(l) => Some(l),
            None => if attrs.last().namespace == "enum_is"@ {
                Some(attrs.last().loc)
            } else {
                None
            },
        }
    }
}

/// The annotation parser's whole result for one variant: the fold of all
/// attributes, rejected as a conflict when `ignore` stands beside a rename
/// or a group, with the diagnostic at the first recognized attribute.
pub open spec fn spec_parse(attrs: Seq<RawAttrV>) -> Result<DirectivesV, GenErrorV> {
    match spec_fold_attrs(attrs) {
        Err(e) => Err(e),
        Ok(d) => if d.excluded && (d.rename is Some || d.groups.len() > 0) {
            Err(
                GenErrorV::IgnoreConflict {
                    loc: match first_tagged_loc(attrs) {
                        Some(l) => l,
                        None => 0,
                    },
                },
            )
        } else {
            Ok(d)
        },
    }
}

/// The image of a sequence of raw attributes.
pub open spec fn view_raw_attrs(s: Seq<RawAttr>) -> Seq<RawAttrV> {
    s.map_values(|a: RawAttr| a@)
}

/// An early rejection in the item list stands whatever follows it.
proof fn lemma_apply_err_stable(d: DirectivesV, items: Seq<ScanItemV>, loc: usize, j: int)
    requires
        0 <= j <= items.len(),
        spec_apply_items(d, items.take(j), loc) is Err,
    ensures
        spec_apply_items(d, items, loc) == spec_apply_items(d, items.take(j), loc),
    decreases items.len() - j,
{
    if j < items.len() {
        assert(items.take(j + 1).drop_last() =~= items.take(j));
        lemma_apply_err_stable(d, items, loc, j + 1);
    } else {
        assert(items.take(j) =~= items);
    }
}

/// An early rejection in the attribute list stands whatever follows it.
proof fn lemma_fold_err_stable(attrs: Seq<RawAttrV>, i: int)
    requires
        0 <= i <= attrs.len(),
        spec_fold_attrs(attrs.take(i)) is Err,
    ensures
        spec_fold_attrs(attrs) == spec_fold_attrs(attrs.take(i)),
    decreases attrs.len() - i,
{
    if i < attrs.len() {
        assert(attrs.take(i + 1).drop_last() =~= attrs.take(i));
        lemma_fold_err_stable(attrs, i + 1);
    } else {
        assert(attrs.take(i) =~= attrs);
    }
}

/// One scanned item applied to the directives being built; on rejection
/// the directives are left as they were.
fn apply_item(d: &mut VariantDirectives, it: &ScanItem, loc: usize) -> (r: Result<(), GenError>)
    ensures
        match r {
            Ok(_) => spec_apply_item(old(d)@, it@, loc) == Ok::<DirectivesV, GenErrorV>(
                final(d)@,
            ),
            Err(e) => {
                &&& spec_apply_item(old(d)@, it@, loc) == Err::<DirectivesV, GenErrorV>(e@)
                &&& final(d)@ == old(d)@
            },
        },
{
    if chars_eq_str(&it.key, "ignore") {
        match &it.value {
            None => {
                d.excluded = true;
                Ok(())
            },
            Some(_) => Err(GenError::InvalidDirective { loc, offset: it.off }),
        }
    } else if chars_eq_str(&it.key, "rename") {
        match &it.value {
            Some(v) => {
                if v.len() == 0 {
                    Err(GenError::MalformedArgument { loc, offset: it.off })
                } else {
                    d.rename = Some(chars_to_string(v));
                    Ok(())
                }
            },
            None => Err(GenError::MalformedArgument { loc, offset: it.off }),
        }
    } else if chars_eq_str(&it.key, "group") {
        match &it.value {
            Some(v) => {
                d.groups.push(chars_to_string(v));
                proof {
                    assert(d@.groups =~= old(d)@.groups.push(v@));
                }
                Ok(())
            },
            None => Err(GenError::MalformedArgument { loc, offset: it.off }),
        }
    } else {
        Err(GenError::UnsupportedDirective { key: chars_to_string(&it.key), loc, offset: it.off })
    }
}

/// The annotation parser: one variant's attributes to its directives, or
/// the first rejection, exactly as `spec_parse` has it.
#[verifier::loop_isolation(false)]
pub fn parse_enum_is_attrs(attrs: &Vec<RawAttr>) -> (r: Result<VariantDirectives, GenError>)
    ensures
        match r {
            Ok(d) => spec_parse(view_raw_attrs(attrs@)) == Ok::<DirectivesV, GenErrorV>(d@),
            Err(e) => spec_parse(view_raw_attrs(attrs@)) == Err::<DirectivesV, GenErrorV>(e@),
        },
{
    let ghost av = view_raw_attrs(attrs@);
    let mut d = VariantDirectives { excluded: false, rename: None, groups: Vec::new() };
    let mut first_loc: Option<usize> = None;
    proof {
        assert(d@.groups =~= empty_directives().groups);
        assert(av.take(0) =~= Seq::<RawAttrV>::empty());
    }
    let mut i: usize = 0;
    while i < attrs.len()
        invariant
            av == view_raw_attrs(attrs@),
            i <= attrs@.len(),
            spec_fold_attrs(av.take(i as int)) == Ok::<DirectivesV, GenErrorV>(d@),
            first_loc == first_tagged_loc(av.take(i as int)),
        decreases attrs@.len() - i,
    {
        let a = &attrs[i];
        proof {
            assert(av.take(i + 1).drop_last() =~= av.take(i as int));
            assert(av.take(i + 1).last() == a@);
        }
        if str_eq(a.namespace.as_str(), "enum_is") {
            if first_loc.is_none() {
                first_loc = Some(a.loc);
            }
            let chars = str_to_chars(a.body.as_str());
            match scan_chars(&chars) {
                Err(se) => {
                    proof {
                        lemma_fold_err_stable(av, i + 1);
                    }
                    let ge = match se.kind {
                        ScanErrKind::Invalid => (GenError::InvalidDirective {
                            loc: a.loc,
                            offset: se.off,
                        }),
                        ScanErrKind::Malformed => (GenError::MalformedArgument {
                            loc: a.loc,
                            offset: se.off,
                        }),
                    };
                    return Err(ge);
                },
                Ok(items) => {
                    let ghost d0 = d@;
                    let ghost itemsv = view_items(items@);
                    proof {
                        assert(itemsv.take(0) =~= Seq::<ScanItemV>::empty());
                    }
                    let mut j: usize = 0;
                    while j < items.len()
                        invariant
                            itemsv == view_items(items@),
                            j <= items@.len(),
                            spec_apply_items(d0, itemsv.take(j as int), a@.loc) == Ok::<
                                DirectivesV,
                                GenErrorV,
                            >(d@),
                        decreases items@.len() - j,
                    {
                        let it = &items[j];
                        proof {
                            assert(itemsv[j as int] == it@);
                            assert(itemsv.take(j + 1).drop_last() =~= itemsv.take(j as int));
                            assert(itemsv.take(j + 1).last() == itemsv[j as int]);
                        }
                        match apply_item(&mut d, it, a.loc) {
                            Ok(_) => {},
                            Err(e) => {
                                proof {
                                    lemma_apply_err_stable(d0, itemsv, a@.loc, j + 1);
                                    lemma_fold_err_stable(av, i + 1);
                                }
                                return Err(e);
                            },
                        }
                        j += 1;
                    }
                    proof {
                        assert(itemsv.take(items@.len() as int) =~= itemsv);
                    }
                },
            }
        }
        i += 1;
    }
    proof {
        assert(av.take(i as int) =~= av);
    }
    if d.excluded && (d.rename.is_some() || d.groups.len() > 0) {
        let l: usize = match first_loc {
            Some(l) => l,
            None => 0,
        };
        return Err(GenError::IgnoreConflict { loc: l });
    }
    Ok(d)
}

} // verus!
