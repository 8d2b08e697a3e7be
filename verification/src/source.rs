//! Detection of the exporting application (Proton, Google, Apple) and of the vCard version.
use vstd::prelude::*;

use crate::text::{
    chars_eq, chars_of, contains, contains_chars, occurs_at, string_views, to_lowercase, trim, trim_chars,
    unicode_lower,
};

verus! {

/// The application that exported a VCF file.
#[derive(Debug, Clone, PartialEq, Eq)]
pub enum SourceDetail {
    ProtonAutosave,
    ProtonImport,
    ProtonWeb,
    Google,
    Apple,
    Unknown(String),
}

/// `SourceDetail` with the text of `Unknown` as characters.
pub enum SourceView {
    ProtonAutosave,
    ProtonImport,
    ProtonWeb,
    Google,
    Apple,
    Unknown(Seq<char>),
}

impl View for SourceDetail {
    type V = SourceView;

    open spec fn view(&self) -> SourceView {
        match self {
            SourceDetail::ProtonAutosave => SourceView::ProtonAutosave,
            SourceDetail::ProtonImport => SourceView::ProtonImport,
            SourceDetail::ProtonWeb => SourceView::ProtonWeb,
            SourceDetail::Google => SourceView::Google,
            SourceDetail::Apple => SourceView::Apple,
            SourceDetail::Unknown(s) => SourceView::Unknown(s@),
        }
    }
}

/// What one lowercased UID reveals, if anything.
pub open spec fn uid_class(l: Seq<char>) -> Option<SourceView> {
    if contains(l, "proton-autosave"@) {
        Some(SourceView::ProtonAutosave)
    } else if contains(l, "proton-import"@) {
        Some(SourceView::ProtonImport)
    } else if contains(l, "proton-web"@) {
        Some(SourceView::ProtonWeb)
    } else if contains(l, "proton"@) {
        Some(SourceView::ProtonAutosave)
    } else {
        None
    }
}

/// The first UID (lowercased) that reveals a Proton flavour decides; otherwise unknown.
pub open spec fn spec_detect_from_uids(lower_uids: Seq<Seq<char>>) -> SourceView
    decreases lower_uids.len(),
{
    if lower_uids.len() == 0 {
        SourceView::Unknown(Seq::<char>::empty())
    } else {
        match uid_class(lower_uids[0]) {
            Some(d) => d,
            None => spec_detect_from_uids(lower_uids.drop_first()),
        }
    }
}

/// The first PRODID (lowercased) that names Proton, Google or Apple decides; Proton is
/// refined by the UIDs; with no such PRODID the UIDs decide.
pub open spec fn spec_detect_source(
    lower_prodids: Seq<Seq<char>>,
    lower_uids: Seq<Seq<char>>,
) -> SourceView
    decreases lower_prodids.len(),
{
    if lower_prodids.len() == 0 {
        spec_detect_from_uids(lower_uids)
    } else {
        let l = lower_prodids[0];
        if contains(l, "protonmail"@) || contains(l, "proton ag"@) {
            match spec_detect_from_uids(lower_uids) {
                SourceView::Unknown(_) => SourceView::ProtonAutosave,
                d => d,
            }
        } else if contains(l, "google"@) {
            SourceView::Google
        } else if contains(l, "apple"@) {
            SourceView::Apple
        } else {
            spec_detect_source(lower_prodids.drop_first(), lower_uids)
        }
    }
}

/// The Unicode lowercase forms of a list of texts.
pub open spec fn lowered(v: Seq<Seq<char>>) -> Seq<Seq<char>> {
    v.map_values(|s: Seq<char>| unicode_lower(s))
}

fn has(l: &[char], pat: &str) -> (b: bool)
    ensures
        b == contains(l@, pat@),
{
    let p = chars_of(pat);
    contains_chars(l, &p)
}

fn uid_class_exec(l: &[char]) -> (r: Option<SourceDetail>)
    ensures
        match uid_class(l@) {
            None => r is None,
            Some(d) => r matches Some(x) && x@ == d,
        },
{
    if has(l, "proton-autosave") {
        Some(SourceDetail::ProtonAutosave)
    } else if has(l, "proton-import") {
        Some(SourceDetail::ProtonImport)
    } else if has(l, "proton-web") {
        Some(SourceDetail::ProtonWeb)
    } else if has(l, "proton") {
        Some(SourceDetail::ProtonAutosave)
    } else {
        None
    }
}

fn detect_from_uids(lower_uids: &[String]) -> (r: SourceDetail)
    ensures
        r@ == spec_detect_from_uids(string_views(lower_uids@)),
{
    let ghost u = string_views(lower_uids@);
    let mut i: usize = 0;
    assert(u.skip(0) =~= u);
    while i < lower_uids.len()
        invariant
            i <= lower_uids@.len(),
            u == string_views(lower_uids@),
            spec_detect_from_uids(u) == spec_detect_from_uids(u.skip(i as int)),
        decreases lower_uids.len() - i,
    {
        let l = chars_of(lower_uids[i].as_str());
        assert(u.skip(i as int)[0] == l@);
        assert(u.skip(i as int).drop_first() =~= u.skip(i + 1));
        if let Some(d) = uid_class_exec(&l) {
            return d;
        }
        i += 1;
    }
    assert(u.skip(i as int).len() == 0);
    SourceDetail::Unknown(String::new())
}

/// Source detection on PRODIDs and UIDs that are already lowercased.
pub fn detect_source_lowered(lower_prodids: &[String], lower_uids: &[String]) -> (r: SourceDetail)
    ensures
        r@ == spec_detect_source(string_views(lower_prodids@), string_views(lower_uids@)),
{
    let ghost p = string_views(lower_prodids@);
    let ghost u = string_views(lower_uids@);
    let mut i: usize = 0;
    assert(p.skip(0) =~= p);
    while i < lower_prodids.len()
        invariant
            i <= lower_prodids@.len(),
            p == string_views(lower_prodids@),
            u == string_views(lower_uids@),
            spec_detect_source(p, u) == spec_detect_source(p.skip(i as int), u),
        decreases lower_prodids.len() - i,
    {
        let l = chars_of(lower_prodids[i].as_str());
        assert(p.skip(i as int)[0] == l@);
        assert(p.skip(i as int).drop_first() =~= p.skip(i + 1));
        if has(&l, "protonmail") || has(&l, "proton ag") {
            let from_uid = detect_from_uids(lower_uids);
            if let SourceDetail::Unknown(_) = from_uid {
                return SourceDetail::ProtonAutosave;
            }
            return from_uid;
        }
        if has(&l, "google") {
            return SourceDetail::Google;
        }
        if has(&l, "apple") {
            return SourceDetail::Apple;
        }
        i += 1;
    }
    assert(p.skip(i as int).len() == 0);
    detect_from_uids(lower_uids)
}

fn lower_all(v: &[String]) -> (r: Vec<String>)
    ensures
        string_views(r@) == lowered(string_views(v@)),
{
    let mut r: Vec<String> = Vec::new();
    let mut i: usize = 0;
    while i < v.len()
        invariant
            i <= v@.len(),
            string_views(r@) == lowered(string_views(v@)).take(i as int),
        decreases v.len() - i,
    {
        let l = to_lowercase(v[i].as_str());
        let ghost before = r@;
        r.push(l);
        assert(string_views(r@) =~= string_views(before).push(l@));
        assert(lowered(string_views(v@)).take(i + 1) =~= lowered(string_views(v@)).take(
            i as int,
        ).push(unicode_lower(v@[i as int]@)));
        i += 1;
    }
    assert(lowered(string_views(v@)).take(v@.len() as int) =~= lowered(string_views(v@)));
    r
}

/// Detects the exporting application from the PRODIDs and UIDs of a VCF file,
/// comparing case-insensitively (Unicode lowercase).
pub fn detect_source(prodids: &[String], uids: &[String]) -> (r: SourceDetail)
    ensures
        r@ == spec_detect_source(lowered(string_views(prodids@)), lowered(string_views(uids@))),
{
    let lp = lower_all(prodids);
    let lu = lower_all(uids);
    detect_source_lowered(&lp, &lu)
}

/// How many of the texts are, once trimmed, exactly `target`.
pub open spec fn count_trimmed(vs: Seq<Seq<char>>, target: Seq<char>) -> nat
    decreases vs.len(),
{
    if vs.len() == 0 {
        0
    } else {
        count_trimmed(vs.drop_last(), target) + if trim(vs.last()) == target { 1nat } else { 0nat }
    }
}

/// The predominant vCard version: `"4.0"` unless strictly more entries say `"3.0"`.
pub open spec fn spec_detect_version(vs: Seq<Seq<char>>) -> Seq<char> {
    if count_trimmed(vs, "4.0"@) >= count_trimmed(vs, "3.0"@) {
        "4.0"@
    } else {
        "3.0"@
    }
}

proof fn lemma_count_trimmed_bound(vs: Seq<Seq<char>>, target: Seq<char>)
    ensures
        count_trimmed(vs, target) <= vs.len(),
    decreases vs.len(),
{
    if vs.len() > 0 {
        lemma_count_trimmed_bound(vs.drop_last(), target);
    }
}

/// Detects the predominant vCard version (3.0 or 4.0); ties go to 4.0.
pub fn detect_version(versions: &[String]) -> (r: &'static str)
    ensures
        r@ == spec_detect_version(string_views(versions@)),
{
    let four = chars_of("4.0");
    let three = chars_of("3.0");
    let ghost vs = string_views(versions@);
    let mut count_4: usize = 0;
    let mut count_3: usize = 0;
    let mut i: usize = 0;
    while i < versions.len()
        invariant
            i <= versions@.len(),
            vs == string_views(versions@),
            four@ == "4.0"@,
            three@ == "3.0"@,
            count_4 == count_trimmed(vs.take(i as int), "4.0"@),
            count_3 == count_trimmed(vs.take(i as int), "3.0"@),
        decreases versions.len() - i,
    {
        proof {
            lemma_count_trimmed_bound(vs.take(i as int), "4.0"@);
            lemma_count_trimmed_bound(vs.take(i as int), "3.0"@);
            reveal_strlit("4.0");
            reveal_strlit("3.0");
            assert("4.0"@[0] != "3.0"@[0]);
        }
        let c = chars_of(versions[i].as_str());
        let t = trim_chars(&c);
        assert(vs.take(i + 1).drop_last() =~= vs.take(i as int));
        assert(vs.take(i + 1).last() == c@);
        if chars_eq(&t, &four) {
            count_4 += 1;
        } else if chars_eq(&t, &three) {
            count_3 += 1;
        }
        i += 1;
    }
    assert(vs.take(versions@.len() as int) =~= vs);
    if count_4 >= count_3 {
        "4.0"
    } else {
        "3.0"
    }
}


/// A pattern found in a text means each prefix of the pattern is found there too.
proof fn lemma_contains_prefix(l: Seq<char>, p: Seq<char>, q: Seq<char>)
    requires
        q.len() <= p.len(),
        p.take(q.len() as int) == q,
        contains(l, p),
    ensures
        contains(l, q),
{
    let i = choose|i: int| occurs_at(l, p, i);
    assert(l.subrange(i, i + q.len()) =~= p.take(q.len() as int));
    assert(occurs_at(l, q, i));
}

proof fn lemma_uid_class_needs_proton(l: Seq<char>)
    requires
        !contains(l, "proton"@),
    ensures
        uid_class(l) is None,
{
    reveal_strlit("proton");
    reveal_strlit("proton-autosave");
    reveal_strlit("proton-import");
    reveal_strlit("proton-web");
    assert("proton-autosave"@.take(6) =~= "proton"@);
    assert("proton-import"@.take(6) =~= "proton"@);
    assert("proton-web"@.take(6) =~= "proton"@);
    if contains(l, "proton-autosave"@) {
        lemma_contains_prefix(l, "proton-autosave"@, "proton"@);
    }
    if contains(l, "proton-import"@) {
        lemma_contains_prefix(l, "proton-import"@, "proton"@);
    }
    if contains(l, "proton-web"@) {
        lemma_contains_prefix(l, "proton-web"@, "proton"@);
    }
}

proof fn lemma_uids_proton_or_unknown(lu: Seq<Seq<char>>)
    ensures
        spec_detect_from_uids(lu) is ProtonAutosave || spec_detect_from_uids(lu) is ProtonImport
            || spec_detect_from_uids(lu) is ProtonWeb || spec_detect_from_uids(lu) is Unknown,
        (forall|j: int| 0 <= j < lu.len() ==> !contains(#[trigger] lu[j], "proton"@))
            ==> spec_detect_from_uids(lu) == SourceView::Unknown(Seq::<char>::empty()),
    decreases lu.len(),
{
    if lu.len() > 0 {
        lemma_uids_proton_or_unknown(lu.drop_first());
        if forall|j: int| 0 <= j < lu.len() ==> !contains(#[trigger] lu[j], "proton"@) {
            lemma_uid_class_needs_proton(lu[0]);
            assert forall|j: int| 0 <= j < lu.drop_first().len() implies !contains(
                #[trigger] lu.drop_first()[j],
                "proton"@,
            ) by {
                assert(lu.drop_first()[j] == lu[j + 1]);
            }
        }
    }
}

/// A PRODID that names Proton (`protonmail` or `proton ag`, in lower case), with no earlier
/// PRODID that names Proton, Google or Apple, makes the source a Proton flavour, whatever
/// the UIDs; when no UID mentions Proton, that flavour is the autosave one.
pub proof fn law_proton_prodid_is_proton(lower_prodids: Seq<Seq<char>>, lower_uids: Seq<Seq<char>>, k: int)
    requires
        0 <= k < lower_prodids.len(),
        contains(lower_prodids[k], "protonmail"@) || contains(lower_prodids[k], "proton ag"@),
        forall|j: int|
            0 <= j < k ==> !contains(#[trigger] lower_prodids[j], "proton"@) && !contains(
                lower_prodids[j],
                "google"@,
            ) && !contains(lower_prodids[j], "apple"@),
    ensures
        spec_detect_source(lower_prodids, lower_uids) is ProtonAutosave || spec_detect_source(
            lower_prodids,
            lower_uids,
        ) is ProtonImport || spec_detect_source(lower_prodids, lower_uids) is ProtonWeb,
        (forall|j: int| 0 <= j < lower_uids.len() ==> !contains(#[trigger] lower_uids[j], "proton"@))
            ==> spec_detect_source(lower_prodids, lower_uids) == SourceView::ProtonAutosave,
    decreases k,
{
    lemma_uids_proton_or_unknown(lower_uids);
    if k > 0 {
        reveal_strlit("proton");
        reveal_strlit("protonmail");
        reveal_strlit("proton ag");
        assert("protonmail"@.take(6) =~= "proton"@);
        assert("proton ag"@.take(6) =~= "proton"@);
        let l = lower_prodids[0];
        assert(!contains(l, "proton"@));
        if contains(l, "protonmail"@) {
            lemma_contains_prefix(l, "protonmail"@, "proton"@);
        }
        if contains(l, "proton ag"@) {
            lemma_contains_prefix(l, "proton ag"@, "proton"@);
        }
        let rest = lower_prodids.drop_first();
        assert(rest[k - 1] == lower_prodids[k]);
        assert forall|j: int| 0 <= j < k - 1 implies !contains(#[trigger] rest[j], "proton"@)
            && !contains(rest[j], "google"@) && !contains(rest[j], "apple"@) by {
            assert(rest[j] == lower_prodids[j + 1]);
        }
        law_proton_prodid_is_proton(rest, lower_uids, k - 1);
    }
}

} // verus!
