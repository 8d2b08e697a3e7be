//! Adaptation of vCard 3.0 to vCard 4.0 semantics.
use vstd::prelude::*;

use crate::source::lowered;
use crate::text::{
    chars_eq, chars_of, eq_ignore_ascii_case, eq_ignore_case, string_views, to_lowercase,
    to_uppercase, unicode_lower, unicode_upper,
};
use crate::vcard::{ParsedVCard, RawParam, RawProperty, RawTypedValue};

verus! {

/// Properties of vCard 3.0 that vCard 4.0 drops.
pub open spec fn is_obsolete(name: Seq<char>) -> bool {
    let u = unicode_upper(name);
    u == "AGENT"@ || u == "LABEL"@ || u == "MAILER"@
}

/// The properties that survive, in order.
pub open spec fn kept(ps: Seq<RawProperty>) -> Seq<RawProperty>
    decreases ps.len(),
{
    if ps.len() == 0 {
        Seq::<RawProperty>::empty()
    } else {
        let k = kept(ps.drop_last());
        if is_obsolete(ps.last().name@) { k } else { k.push(ps.last()) }
    }
}

/// vCard 3.0 types, lowercased, without the `pref` marker.
pub open spec fn norm_types(types: Seq<Seq<char>>) -> Seq<Seq<char>>
    decreases types.len(),
{
    if types.len() == 0 {
        Seq::<Seq<char>>::empty()
    } else {
        let k = norm_types(types.drop_last());
        let l = unicode_lower(types.last());
        if l == "pref"@ { k } else { k.push(l) }
    }
}

/// Some type of the list is `pref` in any case.
pub open spec fn has_pref(types: Seq<Seq<char>>) -> bool {
    exists|i: int| 0 <= i < types.len() && unicode_lower(#[trigger] types[i]) == "pref"@
}

/// The values of a `TYPE` parameter are lowercased; other parameters are unchanged.
pub open spec fn param_adapted(new: RawParam, old: RawParam) -> bool {
    &&& new.name == old.name
    &&& string_views(new.values@) == if eq_ignore_ascii_case(old.name@, "TYPE"@) {
        lowered(string_views(old.values@))
    } else {
        string_views(old.values@)
    }
}

pub open spec fn prop_adapted(new: RawProperty, old: RawProperty) -> bool {
    &&& new.group == old.group
    &&& new.name == old.name
    &&& new.value == old.value
    &&& new.params@.len() == old.params@.len()
    &&& forall|j: int|
        0 <= j < new.params@.len() ==> param_adapted(#[trigger] new.params@[j], old.params@[j])
}

pub open spec fn typed_adapted(new: RawTypedValue, old: RawTypedValue) -> bool {
    &&& new.value == old.value
    &&& string_views(new.types@) == norm_types(string_views(old.types@))
    &&& new.pref == if has_pref(string_views(old.types@)) { 1u8 } else { old.pref }
}

pub open spec fn typed_list_adapted(new: Seq<RawTypedValue>, old: Seq<RawTypedValue>) -> bool {
    new.len() == old.len() && forall|i: int|
        0 <= i < new.len() ==> typed_adapted(#[trigger] new[i], old[i])
}

fn is_literal(c: &[char], lit: &str) -> (b: bool)
    ensures
        b == (c@ == lit@),
{
    let l = chars_of(lit);
    chars_eq(c, &l)
}

fn is_obsolete_exec(name: &String) -> (b: bool)
    ensures
        b == is_obsolete(name@),
{
    let u = to_uppercase(name.as_str());
    let c = chars_of(u.as_str());
    is_literal(&c, "AGENT") || is_literal(&c, "LABEL") || is_literal(&c, "MAILER")
}

/// In vCard 3.0 `PREF` is a value of `TYPE`: it is taken out of the types (which are
/// lowercased) and turned into `pref = 1`.
pub fn normalize_types_v3(types: &mut Vec<String>, pref: &mut u8)
    ensures
        string_views(final(types)@) == norm_types(string_views(old(types)@)),
        *final(pref) == if has_pref(string_views(old(types)@)) { 1u8 } else { *old(pref) },
{
    let ghost ts = string_views(types@);
    let mut new_types: Vec<String> = Vec::new();
    let mut i: usize = 0;
    while i < types.len()
        invariant
            i <= types@.len(),
            ts == string_views(types@),
            string_views(new_types@) == norm_types(ts.take(i as int)),
            *pref == if has_pref(ts.take(i as int)) { 1u8 } else { *old(pref) },
        decreases types.len() - i,
    {
        let lower = to_lowercase(types[i].as_str());
        let lc = chars_of(lower.as_str());
        assert(ts.take(i + 1).drop_last() =~= ts.take(i as int));
        assert(ts.take(i + 1).last() == types@[i as int]@);
        assert(has_pref(ts.take(i + 1)) == (has_pref(ts.take(i as int)) || lower@ == "pref"@))
            by {
            if lower@ == "pref"@ {
                assert(unicode_lower(ts.take(i + 1)[i as int]) == "pref"@);
            }
            if has_pref(ts.take(i + 1)) {
                let k = choose|k: int|
                    0 <= k < ts.take(i + 1).len() && unicode_lower(#[trigger] ts.take(i + 1)[k])
                        == "pref"@;
                if k < i {
                    assert(ts.take(i as int)[k] == ts.take(i + 1)[k]);
                }
            }
            if has_pref(ts.take(i as int)) {
                let k = choose|k: int|
                    0 <= k < ts.take(i as int).len() && unicode_lower(
                        #[trigger] ts.take(i as int)[k],
                    ) == "pref"@;
                assert(ts.take(i + 1)[k] == ts.take(i as int)[k]);
            }
        }
        if is_literal(&lc, "pref") {
            *pref = 1;
        } else {
            let ghost before = new_types@;
            new_types.push(lower);
            assert(string_views(new_types@) =~= string_views(before).push(lower@));
        }
        i += 1;
    }
    assert(ts.take(types@.len() as int) =~= ts);
    *types = new_types;
}

fn adapt_typed_list(list: &mut Vec<RawTypedValue>)
    ensures
        typed_list_adapted(final(list)@, old(list)@),
{
    let ghost orig = list@;
    let mut i: usize = 0;
    while i < list.len()
        invariant
            i <= list@.len(),
            list@.len() == orig.len(),
            forall|k: int| 0 <= k < i ==> typed_adapted(#[trigger] list@[k], orig[k]),
            forall|k: int| i <= k < list@.len() ==> list@[k] == orig[k],
        decreases list.len() - i,
    {
        let mut item = RawTypedValue { value: String::new(), types: Vec::new(), pref: 0 };
        list.set_and_swap(i, &mut item);
        assert(item == orig[i as int]);
        normalize_types_v3(&mut item.types, &mut item.pref);
        list.set_and_swap(i, &mut item);
        i += 1;
    }
}


fn adapt_param(p: &mut RawParam)
    ensures
        param_adapted(*final(p), *old(p)),
{
    let ty = chars_of("TYPE");
    let nc = chars_of(p.name.as_str());
    if eq_ignore_case(&nc, &ty) {
        let ghost vs = string_views(p.values@);
        let mut out: Vec<String> = Vec::new();
        let mut i: usize = 0;
        while i < p.values.len()
            invariant
                i <= p.values@.len(),
                vs == string_views(p.values@),
                string_views(out@) == lowered(vs).take(i as int),
            decreases p.values.len() - i,
        {
            let l = to_lowercase(p.values[i].as_str());
            let ghost before = out@;
            out.push(l);
            assert(string_views(out@) =~= string_views(before).push(l@));
            assert(lowered(vs).take(i + 1) =~= lowered(vs).take(i as int).push(
                unicode_lower(vs[i as int]),
            ));
            i += 1;
        }
        assert(lowered(vs).take(vs.len() as int) =~= lowered(vs));
        p.values = out;
    }
}

fn adapt_property(p: &mut RawProperty)
    ensures
        prop_adapted(*final(p), *old(p)),
{
    let ghost orig = p.params@;
    let mut j: usize = 0;
    while j < p.params.len()
        invariant
            j <= p.params@.len(),
            p.params@.len() == orig.len(),
            p.group == old(p).group,
            p.name == old(p).name,
            p.value == old(p).value,
            orig == old(p).params@,
            forall|k: int| 0 <= k < j ==> param_adapted(#[trigger] p.params@[k], orig[k]),
            forall|k: int| j <= k < p.params@.len() ==> p.params@[k] == orig[k],
        decreases p.params.len() - j,
    {
        let mut item = RawParam { name: String::new(), values: Vec::new() };
        p.params.set_and_swap(j, &mut item);
        adapt_param(&mut item);
        p.params.set_and_swap(j, &mut item);
        j += 1;
    }
}

/// Adapts a vCard 3.0 to vCard 4.0 semantics: drops AGENT, LABEL and MAILER, lowercases
/// types and turns a `PREF` type into `pref = 1`, lowercases `TYPE` parameter values, and
/// sets the version to 4.0.
pub fn adapt_v3(vcard: &mut ParsedVCard)
    ensures
        final(vcard).raw_properties@.len() == kept(old(vcard).raw_properties@).len(),
        forall|i: int|
            0 <= i < final(vcard).raw_properties@.len() ==> prop_adapted(
                #[trigger] final(vcard).raw_properties@[i],
                kept(old(vcard).raw_properties@)[i],
            ),
        typed_list_adapted(final(vcard).emails_raw@, old(vcard).emails_raw@),
        typed_list_adapted(final(vcard).tels_raw@, old(vcard).tels_raw@),
        final(vcard).version matches Some(v) && v@ == "4.0"@,
{
    let mut old_props: Vec<RawProperty> = Vec::new();
    core::mem::swap(&mut old_props, &mut vcard.raw_properties);
    let ghost orig = old_props@;
    let mut props: Vec<RawProperty> = Vec::new();
    let mut i: usize = 0;
    while i < old_props.len()
        invariant
            i <= old_props@.len(),
            old_props@.len() == orig.len(),
            forall|k: int| i <= k < old_props@.len() ==> old_props@[k] == orig[k],
            props@.len() == kept(orig.take(i as int)).len(),
            forall|k: int|
                0 <= k < props@.len() ==> prop_adapted(
                    #[trigger] props@[k],
                    kept(orig.take(i as int))[k],
                ),
        decreases old_props.len() - i,
    {
        let mut p = RawProperty {
            group: None,
            name: String::new(),
            params: Vec::new(),
            value: String::new(),
        };
        old_props.set_and_swap(i, &mut p);
        assert(p == orig[i as int]);
        assert(orig.take(i + 1).drop_last() =~= orig.take(i as int));
        assert(orig.take(i + 1).last() == orig[i as int]);
        if !is_obsolete_exec(&p.name) {
            let ghost pre = p;
            adapt_property(&mut p);
            props.push(p);
            assert(kept(orig.take(i + 1)) == kept(orig.take(i as int)).push(pre));
        }
        i += 1;
    }
    assert(orig.take(orig.len() as int) =~= orig);
    vcard.raw_properties = props;
    adapt_typed_list(&mut vcard.emails_raw);
    adapt_typed_list(&mut vcard.tels_raw);
    vcard.version = Some(String::from_str("4.0"));
}


/// After adaptation no AGENT, LABEL or MAILER property remains (the kept properties
/// keep their names).
pub proof fn law_no_obsolete_property_kept(ps: Seq<RawProperty>)
    ensures
        forall|i: int| 0 <= i < kept(ps).len() ==> !is_obsolete(#[trigger] kept(ps)[i].name@),
    decreases ps.len(),
{
    if ps.len() > 0 {
        law_no_obsolete_property_kept(ps.drop_last());
    }
}

/// After adaptation no type is `pref`, and every type is a lowercase mapping.
pub proof fn law_no_pref_type_kept(types: Seq<Seq<char>>)
    ensures
        forall|i: int| 0 <= i < norm_types(types).len() ==> #[trigger] norm_types(types)[i] != "pref"@,
        forall|i: int|
            0 <= i < norm_types(types).len() ==> exists|j: int|
                0 <= j < types.len() && #[trigger] norm_types(types)[i] == unicode_lower(
                    #[trigger] types[j],
                ),
    decreases types.len(),
{
    if types.len() > 0 {
        law_no_pref_type_kept(types.drop_last());
        let k = norm_types(types.drop_last());
        assert forall|i: int| 0 <= i < norm_types(types).len() implies exists|j: int|
            0 <= j < types.len() && #[trigger] norm_types(types)[i] == unicode_lower(
                #[trigger] types[j],
            ) by {
            if i < k.len() {
                let j = choose|j: int|
                    0 <= j < types.drop_last().len() && #[trigger] k[i] == unicode_lower(
                        #[trigger] types.drop_last()[j],
                    );
                assert(types[j] == types.drop_last()[j]);
            } else {
                assert(norm_types(types)[i] == unicode_lower(types[types.len() - 1]));
            }
        }
    }
}

} // verus!
