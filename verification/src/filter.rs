//! Client-side filter by the N1/N2 taxonomy over the `CATEGORIES` of a vCard.
use vstd::prelude::*;

use crate::error::CardDavError;
use crate::text::{
    ascii_upper, lemma_trim_fixed, lemma_trim_shape, lemma_upper_keeps_ws,
    after_first, after_first_chars, chars_of, copy_range, extend_chars, is_ascii_digit,
    is_ascii_upper, lemma_split_concat, lemma_split_no_sep, lemma_split_on_nonempty, lines,
    lines_chars, split_chars, split_on, strip_cr, starts_with, starts_with_chars,
    string_of, string_views, strings_of, trim, trim_chars, trim_start, trim_start_chars, upper,
    upper_seq, views, chars_eq,
};

verus! {

/// The N1 codes of the taxonomy.
pub const TAXONOMY_N1: [&'static str; 12] = [
    "PROF", "INST", "SALUD", "FIN", "FORM", "TEC", "HOST", "TRAN", "INMO", "SERV", "ASOC", "PERS",
];

pub open spec fn is_code_char(c: char) -> bool {
    is_ascii_upper(c) || is_ascii_digit(c)
}

/// One `-`-separated part of a code: 2 to 8 ASCII capitals or digits.
pub open spec fn code_part_ok(p: Seq<char>) -> bool {
    2 <= p.len() <= 8 && forall|i: int| 0 <= i < p.len() ==> is_code_char(#[trigger] p[i])
}

/// An N1 (`PROF`), N2 (`PROF-JUD`) or N3 (`PROF-JUD-JUZ`) code.
pub open spec fn spec_is_taxonomy_code(s: Seq<char>) -> bool {
    let parts = split_on(s, '-');
    1 <= parts.len() <= 3 && forall|k: int| 0 <= k < parts.len() ==> code_part_ok(#[trigger] parts[k])
}

/// The normalised form of a category filter: trimmed and in ASCII capitals.
pub open spec fn normalize_code(raw: Seq<char>) -> Seq<char> {
    upper_seq(trim(raw))
}

/// `"\r\n"` and lone `'\r'` both become `'\n'`.
pub open spec fn normalize_newlines(s: Seq<char>) -> Seq<char>
    decreases s.len(),
{
    if s.len() == 0 {
        s
    } else if s.len() >= 2 && s[0] == '\r' && s[1] == '\n' {
        seq!['\n'] + normalize_newlines(s.skip(2))
    } else if s[0] == '\r' {
        seq!['\n'] + normalize_newlines(s.drop_first())
    } else {
        seq![s[0]] + normalize_newlines(s.drop_first())
    }
}

/// A folded continuation line (RFC 6350 3.2) starts with a space or a tab.
pub open spec fn is_continuation(l: Seq<char>) -> bool {
    l.len() > 0 && (l[0] == ' ' || l[0] == '\t')
}

/// Joins lines, appending each continuation line (without its leading whitespace)
/// to the text before it.
pub open spec fn unfold_lines(ls: Seq<Seq<char>>) -> Seq<char>
    decreases ls.len(),
{
    if ls.len() == 0 {
        Seq::<char>::empty()
    } else {
        let prev = unfold_lines(ls.drop_last());
        let l = ls.last();
        if is_continuation(l) {
            prev + trim_start(l)
        } else if prev.len() > 0 {
            prev.push('\n') + l
        } else {
            l
        }
    }
}

/// RFC 6350 unfolding of a vCard text.
pub open spec fn spec_unfold_vcard(v: Seq<char>) -> Seq<char> {
    unfold_lines(lines(normalize_newlines(v)))
}

/// The non-empty trimmed values among comma-separated parts, in capitals.
pub open spec fn category_values(parts: Seq<Seq<char>>) -> Seq<Seq<char>>
    decreases parts.len(),
{
    if parts.len() == 0 {
        Seq::<Seq<char>>::empty()
    } else {
        let prev = category_values(parts.drop_last());
        let t = trim(parts.last());
        if t.len() > 0 { prev.push(upper_seq(t)) } else { prev }
    }
}

/// The categories that one unfolded line declares.
pub open spec fn line_categories(line: Seq<char>) -> Seq<Seq<char>> {
    let t = trim(line);
    let head = upper_seq(t);
    if !(starts_with(head, "CATEGORIES:"@) || starts_with(head, "CATEGORIES;"@)) {
        Seq::<Seq<char>>::empty()
    } else {
        match after_first(t, ':') {
            None => Seq::<Seq<char>>::empty(),
            Some(rest) => category_values(split_on(rest, ',')),
        }
    }
}

pub open spec fn categories_of_lines(ls: Seq<Seq<char>>) -> Seq<Seq<char>>
    decreases ls.len(),
{
    if ls.len() == 0 {
        Seq::<Seq<char>>::empty()
    } else {
        categories_of_lines(ls.drop_last()) + line_categories(ls.last())
    }
}

/// All `CATEGORIES` values of a vCard, in order.
pub open spec fn spec_extract_categories(v: Seq<char>) -> Seq<Seq<char>> {
    categories_of_lines(lines(spec_unfold_vcard(v)))
}

/// `want` covers `have`: equal codes, or `have` lies below `want` in the taxonomy.
pub open spec fn spec_category_matches(have: Seq<char>, want: Seq<char>) -> bool {
    let h = normalize_code(have);
    let w = normalize_code(want);
    h.len() > 0 && w.len() > 0 && (h == w || starts_with(h, w.push('-')))
}

/// Some category of the vCard matches some wanted code (an empty filter keeps all).
pub open spec fn spec_vcard_matches(v: Seq<char>, wanted: Seq<Seq<char>>) -> bool {
    let have = spec_extract_categories(v);
    wanted.len() == 0 || exists|i: int, j: int|
        0 <= i < wanted.len() && 0 <= j < have.len() && spec_category_matches(
            #[trigger] have[j],
            #[trigger] wanted[i],
        )
}

fn is_code_char_exec(c: char) -> (b: bool)
    ensures
        b == is_code_char(c),
{
    ('A' <= c && c <= 'Z') || ('0' <= c && c <= '9')
}

fn code_part_ok_exec(p: &[char]) -> (b: bool)
    ensures
        b == code_part_ok(p@),
{
    if p.len() < 2 || p.len() > 8 {
        return false;
    }
    let mut i: usize = 0;
    while i < p.len()
        invariant
            i <= p@.len(),
            forall|k: int| 0 <= k < i ==> is_code_char(#[trigger] p@[k]),
        decreases p.len() - i,
    {
        if !is_code_char_exec(p[i]) {
            return false;
        }
        i += 1;
    }
    true
}

fn is_taxonomy_code_chars(s: &[char]) -> (b: bool)
    ensures
        b == spec_is_taxonomy_code(s@),
{
    let parts = split_chars(s, '-');
    if parts.len() < 1 || parts.len() > 3 {
        return false;
    }
    let mut k: usize = 0;
    while k < parts.len()
        invariant
            k <= parts@.len(),
            views(parts@) == split_on(s@, '-'),
            forall|m: int| 0 <= m < k ==> code_part_ok(#[trigger] split_on(s@, '-')[m]),
        decreases parts.len() - k,
    {
        assert(parts@[k as int]@ == split_on(s@, '-')[k as int]);
        if !code_part_ok_exec(&parts[k]) {
            return false;
        }
        k += 1;
    }
    true
}

/// `PROF`, `PROF-JUD` or `PROF-JUD-JUZ`: one to three parts of 2 to 8 ASCII capitals or digits.
pub fn is_taxonomy_code(s: &str) -> (b: bool)
    ensures
        b == spec_is_taxonomy_code(s@),
{
    let c = chars_of(s);
    is_taxonomy_code_chars(&c)
}

/// Normalises a filter code (`prof-jud` becomes `PROF-JUD`) and checks its shape.
pub fn parse_category_filter(raw: &str) -> (r: Result<String, CardDavError>)
    ensures
        spec_is_taxonomy_code(normalize_code(raw@)) ==> (r matches Ok(v) && v@ == normalize_code(
            raw@,
        )),
        !spec_is_taxonomy_code(normalize_code(raw@)) ==> (r matches Err(
            CardDavError::UnknownCategory(m),
        ) && m@ == trim(raw@)),
{
    let c = chars_of(raw);
    let trimmed = trim_chars(&c);
    let t = upper(&trimmed);
    if !is_taxonomy_code_chars(&t) {
        return Err(CardDavError::UnknownCategory(string_of(&trimmed)));
    }
    Ok(string_of(&t))
}


fn normalize_newlines_chars(s: &[char]) -> (r: Vec<char>)
    ensures
        r@ == normalize_newlines(s@),
{
    let n: usize = s.len();
    let mut out: Vec<char> = Vec::new();
    let mut i: usize = 0;
    assert(s@.skip(0) =~= s@);
    while i < n
        invariant
            n == s@.len(),
            i <= n,
            out@ + normalize_newlines(s@.skip(i as int)) == normalize_newlines(s@),
        decreases n - i,
    {
        let ghost rest = s@.skip(i as int);
        let ghost before = out@;
        if s[i] == '\r' && i + 1 < n && s[i + 1] == '\n' {
            assert(rest.skip(2) =~= s@.skip(i + 2));
            out.push('\n');
            i += 2;
        } else if s[i] == '\r' {
            assert(rest.drop_first() =~= s@.skip(i + 1));
            out.push('\n');
            i += 1;
        } else {
            assert(rest.drop_first() =~= s@.skip(i + 1));
            out.push(s[i]);
            i += 1;
        }
        assert(out@ + normalize_newlines(s@.skip(i as int)) =~= before + normalize_newlines(rest));
    }
    assert(s@.skip(n as int) =~= Seq::<char>::empty());
    assert(out@ + Seq::<char>::empty() =~= out@);
    out
}

fn unfold_vcard_chars(v: &[char]) -> (r: Vec<char>)
    ensures
        r@ == spec_unfold_vcard(v@),
{
    let norm = normalize_newlines_chars(v);
    let ls = lines_chars(&norm);
    let mut out: Vec<char> = Vec::new();
    let mut k: usize = 0;
    while k < ls.len()
        invariant
            k <= ls@.len(),
            views(ls@) == lines(normalize_newlines(v@)),
            out@ == unfold_lines(views(ls@).take(k as int)),
        decreases ls.len() - k,
    {
        let l = &ls[k];
        assert(views(ls@).take(k + 1).drop_last() =~= views(ls@).take(k as int));
        assert(views(ls@).take(k + 1).last() == l@);
        if l.len() > 0 && (l[0] == ' ' || l[0] == '\t') {
            let t = trim_start_chars(l);
            extend_chars(&mut out, &t);
        } else {
            if out.len() > 0 {
                out.push('\n');
            }
            extend_chars(&mut out, l);
        }
        k += 1;
    }
    assert(views(ls@).take(ls@.len() as int) =~= views(ls@));
    out
}

/// RFC 6350 unfolding: line endings normalised, continuation lines joined to the line before.
pub fn unfold_vcard(vcard: &str) -> (r: String)
    ensures
        r@ == spec_unfold_vcard(vcard@),
{
    let c = chars_of(vcard);
    let u = unfold_vcard_chars(&c);
    string_of(&u)
}

fn category_values_chars(parts: &Vec<Vec<char>>) -> (r: Vec<Vec<char>>)
    ensures
        views(r@) == category_values(views(parts@)),
{
    let mut out: Vec<Vec<char>> = Vec::new();
    let mut k: usize = 0;
    while k < parts.len()
        invariant
            k <= parts@.len(),
            views(out@) == category_values(views(parts@).take(k as int)),
        decreases parts.len() - k,
    {
        assert(views(parts@).take(k + 1).drop_last() =~= views(parts@).take(k as int));
        assert(views(parts@).take(k + 1).last() == parts@[k as int]@);
        let t = trim_chars(&parts[k]);
        if t.len() > 0 {
            let u = upper(&t);
            let ghost before = out@;
            out.push(u);
            assert(views(out@) =~= views(before).push(u@));
        }
        k += 1;
    }
    assert(views(parts@).take(parts@.len() as int) =~= views(parts@));
    out
}

fn line_categories_chars(line: &[char]) -> (r: Vec<Vec<char>>)
    ensures
        views(r@) == line_categories(line@),
{
    let t = trim_chars(line);
    let head = upper(&t);
    let p1 = chars_of("CATEGORIES:");
    let p2 = chars_of("CATEGORIES;");
    if !(starts_with_chars(&head, &p1) || starts_with_chars(&head, &p2)) {
        let e: Vec<Vec<char>> = Vec::new();
        assert(views(e@) =~= Seq::<Seq<char>>::empty());
        return e;
    }
    match after_first_chars(&t, ':') {
        None => {
            let e: Vec<Vec<char>> = Vec::new();
            assert(views(e@) =~= Seq::<Seq<char>>::empty());
            e
        },
        Some(rest) => {
            let parts = split_chars(&rest, ',');
            category_values_chars(&parts)
        },
    }
}

fn extend_views(out: &mut Vec<Vec<char>>, more: Vec<Vec<char>>)
    ensures
        views(final(out)@) == views(old(out)@) + views(more@),
{
    let mut i: usize = 0;
    while i < more.len()
        invariant
            i <= more@.len(),
            views(out@) == views(old(out)@) + views(more@).take(i as int),
        decreases more.len() - i,
    {
        let c = copy_range(&more[i], 0, more[i].len());
        assert(c@ =~= more@[i as int]@);
        let ghost before = out@;
        out.push(c);
        assert(views(out@) =~= views(before).push(c@));
        i += 1;
        assert(views(old(out)@) + views(more@).take(i as int) =~= views(old(out)@) + views(
            more@,
        ).take(i - 1).push(more@[i - 1]@));
    }
    assert(views(more@).take(more@.len() as int) =~= views(more@));
}

fn extract_categories_chars(v: &[char]) -> (r: Vec<Vec<char>>)
    ensures
        views(r@) == spec_extract_categories(v@),
{
    let unfolded = unfold_vcard_chars(v);
    let ls = lines_chars(&unfolded);
    let mut out: Vec<Vec<char>> = Vec::new();
    let mut k: usize = 0;
    while k < ls.len()
        invariant
            k <= ls@.len(),
            views(ls@) == lines(spec_unfold_vcard(v@)),
            views(out@) == categories_of_lines(views(ls@).take(k as int)),
        decreases ls.len() - k,
    {
        assert(views(ls@).take(k + 1).drop_last() =~= views(ls@).take(k as int));
        assert(views(ls@).take(k + 1).last() == ls@[k as int]@);
        let cats = line_categories_chars(&ls[k]);
        extend_views(&mut out, cats);
        k += 1;
    }
    assert(views(ls@).take(ls@.len() as int) =~= views(ls@));
    out
}

/// The `CATEGORIES` values of a vCard (unfolded per RFC 6350), in capitals and in order.
pub fn extract_categories(vcard: &str) -> (r: Vec<String>)
    ensures
        string_views(r@) == spec_extract_categories(vcard@),
{
    let c = chars_of(vcard);
    let cats = extract_categories_chars(&c);
    strings_of(&cats)
}

fn category_matches_chars(have: &[char], want: &[char]) -> (b: bool)
    ensures
        b == spec_category_matches(have@, want@),
{
    let ht = trim_chars(have);
    let h = upper(&ht);
    let wt = trim_chars(want);
    let w = upper(&wt);
    if h.len() == 0 || w.len() == 0 {
        return false;
    }
    if chars_eq(&h, &w) {
        return true;
    }
    let mut wd = copy_range(&w, 0, w.len());
    wd.push('-');
    assert(wd@ =~= w@.push('-'));
    starts_with_chars(&h, &wd)
}

/// `want = PROF` matches `PROF` and `PROF-JUD`; `want = PROF-JUD` matches only that code
/// (or an N3 below it).
pub fn category_matches(have: &str, want: &str) -> (b: bool)
    ensures
        b == spec_category_matches(have@, want@),
{
    let h = chars_of(have);
    let w = chars_of(want);
    category_matches_chars(&h, &w)
}

/// The vCard passes if some `CATEGORIES` value matches some wanted code (OR); an empty
/// filter passes everything.
pub fn vcard_matches_categories(vcard: &str, wanted: &[String]) -> (b: bool)
    ensures
        b == spec_vcard_matches(vcard@, string_views(wanted@)),
{
    if wanted.len() == 0 {
        return true;
    }
    let c = chars_of(vcard);
    let have = extract_categories_chars(&c);
    let ghost hv = spec_extract_categories(vcard@);
    let ghost wv = string_views(wanted@);
    let mut i: usize = 0;
    while i < wanted.len()
        invariant
            i <= wanted@.len(),
            views(have@) == hv,
            hv == spec_extract_categories(vcard@),
            wv == string_views(wanted@),
            forall|a: int, b: int|
                0 <= a < i && 0 <= b < hv.len() ==> !spec_category_matches(
                    #[trigger] hv[b],
                    #[trigger] wv[a],
                ),
        decreases wanted.len() - i,
    {
        let w = chars_of(wanted[i].as_str());
        assert(w@ == wv[i as int]);
        let mut j: usize = 0;
        while j < have.len()
            invariant
                i < wanted@.len(),
                j <= have@.len(),
                views(have@) == hv,
                hv == spec_extract_categories(vcard@),
                wv == string_views(wanted@),
                w@ == wv[i as int],
                forall|b: int| 0 <= b < j ==> !spec_category_matches(#[trigger] hv[b], wv[i as int]),
            decreases have.len() - j,
        {
            assert(have@[j as int]@ == hv[j as int]);
            if category_matches_chars(&have[j], &w) {
                assert(spec_category_matches(hv[j as int], wv[i as int]));
                return true;
            }
            j += 1;
        }
        i += 1;
    }
    false
}


/// Normalising a category code twice gives the same code as once: what
/// `parse_category_filter` returns, it accepts again unchanged.
pub proof fn law_normalize_code_idempotent(raw: Seq<char>)
    ensures
        normalize_code(normalize_code(raw)) == normalize_code(raw),
{
    let t = trim(raw);
    let u = upper_seq(t);
    lemma_trim_shape(raw);
    if u.len() > 0 {
        lemma_upper_keeps_ws(t[0]);
        lemma_upper_keeps_ws(t.last());
        assert(u[0] == ascii_upper(t[0]));
        assert(u.last() == ascii_upper(t.last()));
    }
    lemma_trim_fixed(u);
    assert(upper_seq(u) =~= u) by {
        assert forall|i: int| 0 <= i < u.len() implies upper_seq(u)[i] == u[i] by {
            assert(u[i] == ascii_upper(t[i]));
        }
    }
}

/// A code matches itself whenever it is not blank.
pub proof fn law_category_matches_reflexive(code: Seq<char>)
    requires
        normalize_code(code).len() > 0,
    ensures
        spec_category_matches(code, code),
{
}

/// A filter on a parent code matches every child below it, and a filter on a child
/// never matches its parent.
pub proof fn law_parent_matches_child_not_reverse(
    parent: Seq<char>,
    child: Seq<char>,
    tail: Seq<char>,
)
    requires
        normalize_code(parent).len() > 0,
        normalize_code(child) == normalize_code(parent).push('-') + tail,
    ensures
        spec_category_matches(child, parent),
        !spec_category_matches(parent, child),
{
    let w = normalize_code(parent);
    let h = normalize_code(child);
    assert(h.take(w.push('-').len() as int) =~= w.push('-'));
    assert(h.len() > w.len());
}

/// An empty category filter keeps every vCard.
pub proof fn law_empty_filter_keeps_all(vcard: Seq<char>)
    ensures
        spec_vcard_matches(vcard, Seq::<Seq<char>>::empty()),
{
}

/// Adding codes to a filter never drops a vCard that it kept (the codes are OR-ed).
pub proof fn law_filter_monotone(vcard: Seq<char>, wanted: Seq<Seq<char>>, more: Seq<Seq<char>>)
    requires
        wanted.len() > 0,
        spec_vcard_matches(vcard, wanted),
    ensures
        spec_vcard_matches(vcard, wanted + more),
{
    let have = spec_extract_categories(vcard);
    let (i, j) = choose|i: int, j: int|
        0 <= i < wanted.len() && 0 <= j < have.len() && spec_category_matches(
            #[trigger] have[j],
            #[trigger] wanted[i],
        );
    assert((wanted + more)[i] == wanted[i]);
    assert(spec_category_matches(have[j], (wanted + more)[i]));
}


// ---------------------------------------------------------------------------
// categories of joined texts

/// A text of whole lines joined by single `'\n'`: not empty, without `'\r'`, with no empty
/// line and no line that starts with a space or a tab (so nothing in it unfolds).
pub open spec fn plain_lines(x: Seq<char>) -> bool {
    &&& x.len() > 0
    &&& x[0] != '\n' && x[0] != ' ' && x[0] != '\t'
    &&& x.last() != '\n'
    &&& forall|i: int| 0 <= i < x.len() ==> #[trigger] x[i] != '\r'
    &&& forall|i: int|
        0 <= i < x.len() - 1 && #[trigger] x[i] == '\n' ==> x[i + 1] != '\n' && x[i + 1] != ' '
            && x[i + 1] != '\t'
}

spec fn good_line(l: Seq<char>) -> bool {
    l.len() > 0 && l.last() != '\r' && !is_continuation(l)
}

spec fn last_nl(x: Seq<char>) -> int
    decreases x.len(),
{
    if x.len() == 0 {
        -1
    } else if x.last() == '\n' {
        x.len() - 1
    } else {
        last_nl(x.drop_last())
    }
}

proof fn lemma_last_nl(x: Seq<char>)
    ensures
        -1 <= last_nl(x) < x.len(),
        last_nl(x) >= 0 ==> x[last_nl(x)] == '\n',
        forall|k: int| last_nl(x) < k < x.len() ==> x[k] != '\n',
    decreases x.len(),
{
    if x.len() > 0 && x.last() != '\n' {
        lemma_last_nl(x.drop_last());
        assert forall|k: int| last_nl(x) < k < x.len() implies x[k] != '\n' by {
            if k < x.len() - 1 {
                assert(x.drop_last()[k] == x[k]);
            }
        }
    }
}

proof fn lemma_categories_concat(a: Seq<Seq<char>>, b: Seq<Seq<char>>)
    ensures
        categories_of_lines(a + b) == categories_of_lines(a) + categories_of_lines(b),
    decreases b.len(),
{
    if b.len() == 0 {
        assert(a + b =~= a);
        assert(categories_of_lines(a) + categories_of_lines(b) =~= categories_of_lines(a));
    } else {
        assert((a + b).drop_last() =~= a + b.drop_last());
        lemma_categories_concat(a, b.drop_last());
        assert(categories_of_lines(a + b) =~= categories_of_lines(a) + categories_of_lines(b));
    }
}

proof fn lemma_normalize_no_cr(x: Seq<char>)
    requires
        forall|i: int| 0 <= i < x.len() ==> #[trigger] x[i] != '\r',
    ensures
        normalize_newlines(x) == x,
    decreases x.len(),
{
    if x.len() > 0 {
        assert(x[0] != '\r');
        let t = x.drop_first();
        assert forall|i: int| 0 <= i < t.len() implies #[trigger] t[i] != '\r' by {
            assert(t[i] == x[i + 1]);
        }
        lemma_normalize_no_cr(t);
        assert(seq![x[0]] + t =~= x);
    }
}

proof fn lemma_plain_split(x: Seq<char>)
    requires
        plain_lines(x),
    ensures
        unfold_lines(split_on(x, '\n')) == x,
        forall|i: int|
            0 <= i < split_on(x, '\n').len() ==> good_line(#[trigger] split_on(x, '\n')[i]),
    decreases x.len(),
{
    lemma_last_nl(x);
    let j = last_nl(x);
    if j < 0 {
        assert forall|i: int| 0 <= i < x.len() implies x[i] != '\n' by {}
        lemma_split_no_sep(x, '\n');
        assert(seq![x].drop_last() =~= Seq::<Seq<char>>::empty());
        assert(seq![x].last() == x);
        assert(unfold_lines(Seq::<Seq<char>>::empty()) == Seq::<char>::empty());
        assert(!is_continuation(x));
        assert(unfold_lines(seq![x]) == x);
        assert(x.last() != '\r') by {
            assert(x[x.len() - 1] != '\r');
        }
    } else {
        let y = x.take(j);
        let l = x.skip(j + 1);
        assert(x =~= y + seq!['\n'] + l);
        assert(j > 0);
        assert(j < x.len() - 1);
        assert(x[j - 1] != '\n');
        assert(plain_lines(y)) by {
            assert(y[0] == x[0]);
            assert(y.last() == x[j - 1]);
            assert forall|i: int| 0 <= i < y.len() implies #[trigger] y[i] != '\r' by {
                assert(y[i] == x[i]);
            }
            assert forall|i: int| 0 <= i < y.len() - 1 && #[trigger] y[i] == '\n' implies y[i + 1]
                != '\n' && y[i + 1] != ' ' && y[i + 1] != '\t' by {
                assert(y[i] == x[i]);
                assert(y[i + 1] == x[i + 1]);
            }
        }
        lemma_plain_split(y);
        assert forall|i: int| 0 <= i < l.len() implies l[i] != '\n' by {
            assert(l[i] == x[j + 1 + i]);
        }
        lemma_split_no_sep(l, '\n');
        lemma_split_concat(y, '\n', l);
        let sy = split_on(y, '\n');
        let sx = split_on(x, '\n');
        assert(sx =~= sy.push(l));
        assert(sx.drop_last() =~= sy);
        assert(l[0] == x[j + 1]);
        assert(x[j] == '\n');
        assert(l.last() == x[x.len() - 1]);
        assert(!is_continuation(l));
        assert(good_line(l));
        assert(unfold_lines(sx) == unfold_lines(sy).push('\n') + l);
        assert(unfold_lines(sx) =~= x);
        assert forall|i: int| 0 <= i < sx.len() implies good_line(#[trigger] sx[i]) by {
            if i < sy.len() {
                assert(sx[i] == sy[i]);
            }
        }
    }
}

proof fn lemma_extract_plain(x: Seq<char>)
    requires
        plain_lines(x),
    ensures
        spec_extract_categories(x) == categories_of_lines(split_on(x, '\n')),
{
    lemma_normalize_no_cr(x);
    lemma_plain_split(x);
    lemma_split_on_nonempty(x, '\n');
    let sx = split_on(x, '\n');
    assert(sx.drop_last().map_values(|l: Seq<char>| strip_cr(l)) =~= sx.drop_last()) by {
        assert forall|i: int| 0 <= i < sx.len() - 1 implies strip_cr(sx.drop_last()[i]) == sx.drop_last()[i] by {
            assert(good_line(sx[i]));
        }
    }
    assert(good_line(sx[sx.len() - 1]));
    assert(lines(x) =~= sx);
}

/// The categories of two texts joined by a line break are those of the first followed by
/// those of the second: every `CATEGORIES` line counts, a later one is never dropped.
pub proof fn law_categories_of_joined_texts(a: Seq<char>, b: Seq<char>)
    requires
        plain_lines(a),
        plain_lines(b),
    ensures
        spec_extract_categories(a + seq!['\n'] + b) == spec_extract_categories(a)
            + spec_extract_categories(b),
{
    let x = a + seq!['\n'] + b;
    assert(plain_lines(x)) by {
        assert(x[0] == a[0]);
        assert(x.last() == b.last());
        assert forall|i: int| 0 <= i < x.len() implies #[trigger] x[i] != '\r' by {
            if i < a.len() {
                assert(x[i] == a[i]);
            } else if i > a.len() {
                assert(x[i] == b[i - a.len() - 1]);
            }
        }
        assert forall|i: int| 0 <= i < x.len() - 1 && #[trigger] x[i] == '\n' implies x[i + 1]
            != '\n' && x[i + 1] != ' ' && x[i + 1] != '\t' by {
            if i < a.len() - 1 {
                assert(x[i] == a[i]);
                assert(x[i + 1] == a[i + 1]);
            } else if i == a.len() - 1 {
                assert(x[i] == a.last());
            } else if i == a.len() {
                assert(x[i + 1] == b[0]);
            } else {
                assert(x[i] == b[i - a.len() - 1]);
                assert(x[i + 1] == b[i - a.len()]);
            }
        }
    }
    lemma_extract_plain(x);
    lemma_extract_plain(a);
    lemma_extract_plain(b);
    lemma_split_concat(a, '\n', b);
    lemma_categories_concat(split_on(a, '\n'), split_on(b, '\n'));
}

} // verus!
