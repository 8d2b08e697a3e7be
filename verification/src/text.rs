//! Character-level text model: whitespace, ASCII case, trimming, searching and splitting.
use vstd::prelude::*;

verus! {

/// Unicode `White_Space`, the set that `char::is_whitespace` tests.
pub open spec fn is_ws(c: char) -> bool {
    ||| c == '\t' || c == '\n' || c == '\u{0B}' || c == '\u{0C}' || c == '\r' || c == ' '
    ||| c == '\u{85}' || c == '\u{A0}' || c == '\u{1680}'
    ||| ('\u{2000}' <= c && c <= '\u{200A}')
    ||| c == '\u{2028}' || c == '\u{2029}' || c == '\u{202F}' || c == '\u{205F}' || c == '\u{3000}'
}

pub open spec fn is_ascii_lower(c: char) -> bool {
    'a' <= c && c <= 'z'
}

pub open spec fn is_ascii_upper(c: char) -> bool {
    'A' <= c && c <= 'Z'
}

pub open spec fn is_ascii_digit(c: char) -> bool {
    '0' <= c && c <= '9'
}

/// `char::to_ascii_uppercase`.
pub open spec fn ascii_upper(c: char) -> char {
    if is_ascii_lower(c) { ((c as u32) - 32) as char } else { c }
}

/// `char::to_ascii_lowercase`.
pub open spec fn ascii_lower(c: char) -> char {
    if is_ascii_upper(c) { ((c as u32) + 32) as char } else { c }
}

pub open spec fn upper_seq(s: Seq<char>) -> Seq<char> {
    s.map_values(|c: char| ascii_upper(c))
}

pub open spec fn lower_seq(s: Seq<char>) -> Seq<char> {
    s.map_values(|c: char| ascii_lower(c))
}

/// `str::eq_ignore_ascii_case`.
pub open spec fn eq_ignore_ascii_case(a: Seq<char>, b: Seq<char>) -> bool {
    lower_seq(a) == lower_seq(b)
}

/// `str::trim_start`.
pub open spec fn trim_start(s: Seq<char>) -> Seq<char>
    decreases s.len(),
{
    if s.len() > 0 && is_ws(s[0]) {
        trim_start(s.drop_first())
    } else {
        s
    }
}

/// `str::trim_end`.
pub open spec fn trim_end(s: Seq<char>) -> Seq<char>
    decreases s.len(),
{
    if s.len() > 0 && is_ws(s.last()) {
        trim_end(s.drop_last())
    } else {
        s
    }
}

/// `str::trim`.
pub open spec fn trim(s: Seq<char>) -> Seq<char> {
    trim_end(trim_start(s))
}

pub open spec fn starts_with(s: Seq<char>, p: Seq<char>) -> bool {
    p.len() <= s.len() && s.take(p.len() as int) == p
}

pub open spec fn ends_with(s: Seq<char>, p: Seq<char>) -> bool {
    p.len() <= s.len() && s.skip(s.len() - p.len()) == p
}

pub open spec fn occurs_at(s: Seq<char>, p: Seq<char>, i: int) -> bool {
    0 <= i && i + p.len() <= s.len() && s.subrange(i, i + p.len()) == p
}

/// `str::contains` with a string pattern.
pub open spec fn contains(s: Seq<char>, p: Seq<char>) -> bool {
    exists|i: int| occurs_at(s, p, i)
}


/// `str::split` on one character: the pieces between the separators, in order.
pub open spec fn split_on<A>(s: Seq<A>, sep: A) -> Seq<Seq<A>>
    decreases s.len(),
{
    if s.len() == 0 {
        seq![Seq::<A>::empty()]
    } else {
        let init = split_on(s.drop_last(), sep);
        if s.last() == sep {
            init.push(Seq::<A>::empty())
        } else {
            init.update(init.len() - 1, init.last().push(s.last()))
        }
    }
}

/// `str::split_once` on one character: the text after the first separator.
pub open spec fn after_first(s: Seq<char>, c: char) -> Option<Seq<char>>
    decreases s.len(),
{
    if s.len() == 0 {
        None
    } else if s[0] == c {
        Some(s.drop_first())
    } else {
        after_first(s.drop_first(), c)
    }
}

/// Drops a trailing `'\r'`.
pub open spec fn strip_cr(l: Seq<char>) -> Seq<char> {
    if l.len() > 0 && l.last() == '\r' { l.drop_last() } else { l }
}

/// `str::lines`: split at `'\n'`, a `'\r'` right before a `'\n'` goes with it, and a
/// final empty piece is not a line.
pub open spec fn lines(s: Seq<char>) -> Seq<Seq<char>> {
    let parts = split_on(s, '\n');
    let closed = parts.drop_last().map_values(|l: Seq<char>| strip_cr(l));
    if parts.last().len() == 0 { closed } else { closed.push(parts.last()) }
}

pub proof fn lemma_split_on_nonempty<A>(s: Seq<A>, sep: A)
    ensures
        split_on(s, sep).len() >= 1,
    decreases s.len(),
{
    if s.len() > 0 {
        lemma_split_on_nonempty(s.drop_last(), sep);
    }
}

/// Splitting a text joined at one separator gives the pieces of each side, in order.
pub proof fn lemma_split_concat<A>(a: Seq<A>, sep: A, b: Seq<A>)
    ensures
        split_on(a + seq![sep] + b, sep) == split_on(a, sep) + split_on(b, sep),
    decreases b.len(),
{
    let s = a + seq![sep] + b;
    if b.len() == 0 {
        assert(s.drop_last() =~= a);
        assert(split_on(s, sep) =~= split_on(a, sep) + split_on(b, sep));
    } else {
        let b1 = b.drop_last();
        assert(s.drop_last() =~= a + seq![sep] + b1);
        lemma_split_concat(a, sep, b1);
        lemma_split_on_nonempty(b1, sep);
        lemma_split_on_nonempty(a, sep);
        if b.last() == sep {
            assert(split_on(s, sep) =~= split_on(a, sep) + split_on(b, sep));
        } else {
            let sa = split_on(a, sep);
            let sb1 = split_on(b1, sep);
            let init = sa + sb1;
            assert(init.last() == sb1.last());
            assert(init.update(init.len() - 1, init.last().push(b.last())) =~= sa + sb1.update(
                sb1.len() - 1,
                sb1.last().push(b.last()),
            ));
        }
    }
}

/// A text without the separator is one piece.
pub proof fn lemma_split_no_sep<A>(l: Seq<A>, sep: A)
    requires
        forall|i: int| 0 <= i < l.len() ==> l[i] != sep,
    ensures
        split_on(l, sep) == seq![l],
    decreases l.len(),
{
    if l.len() > 0 {
        lemma_split_no_sep(l.drop_last(), sep);
        assert(l.drop_last().push(l.last()) =~= l);
        assert(l.last() != sep) by {
            assert(l[l.len() - 1] != sep);
        }
        assert(seq![l.drop_last()].update(0, l) =~= seq![l]);
    } else {
        assert(l =~= Seq::<A>::empty());
    }
}

// ---------------------------------------------------------------------------
// std calls that vstd leaves unspecified

/// Calls `str::chars` and collects: the characters of `s`, in order.
#[verifier::external_body]
pub(crate) fn chars_of(s: &str) -> (r: Vec<char>)
    ensures
        r@ == s@,
{
    s.chars().collect()
}

/// Collects characters into a `String` (`FromIterator<char>`): the string of those characters.
#[verifier::external_body]
pub(crate) fn string_of(v: &[char]) -> (r: String)
    ensures
        r@ == v@,
{
    v.iter().collect()
}

/// The Unicode lowercase mapping of a text, as `str::to_lowercase` computes it.
pub uninterp spec fn unicode_lower(s: Seq<char>) -> Seq<char>;

/// The Unicode uppercase mapping of a text, as `str::to_uppercase` computes it.
pub uninterp spec fn unicode_upper(s: Seq<char>) -> Seq<char>;

/// Calls `str::to_lowercase`; its result is the Unicode lowercase mapping of `s`, which
/// depends on `s` alone (the mapping tables are not restated here).
#[verifier::external_body]
pub(crate) fn to_lowercase(s: &str) -> (r: String)
    ensures
        r@ == unicode_lower(s@),
{
    s.to_lowercase()
}

/// Calls `str::to_uppercase`; its result is the Unicode uppercase mapping of `s`, which
/// depends on `s` alone (the mapping tables are not restated here).
#[verifier::external_body]
pub(crate) fn to_uppercase(s: &str) -> (r: String)
    ensures
        r@ == unicode_upper(s@),
{
    s.to_uppercase()
}

// ---------------------------------------------------------------------------
// executable character operations

pub fn is_ws_char(c: char) -> (b: bool)
    ensures
        b == is_ws(c),
{
    c == '\t' || c == '\n' || c == '\u{0B}' || c == '\u{0C}' || c == '\r' || c == ' '
        || c == '\u{85}' || c == '\u{A0}' || c == '\u{1680}' || ('\u{2000}' <= c && c
        <= '\u{200A}') || c == '\u{2028}' || c == '\u{2029}' || c == '\u{202F}' || c
        == '\u{205F}' || c == '\u{3000}'
}

pub fn char_upper(c: char) -> (r: char)
    ensures
        r == ascii_upper(c),
{
    if 'a' <= c && c <= 'z' {
        let u: u32 = (c as u32) - 32;
        assert(u < 0xD800);
        char_from_ascii(u)
    } else {
        c
    }
}

pub fn char_lower(c: char) -> (r: char)
    ensures
        r == ascii_lower(c),
{
    if 'A' <= c && c <= 'Z' {
        let u: u32 = (c as u32) + 32;
        char_from_ascii(u)
    } else {
        c
    }
}

fn char_from_ascii(u: u32) -> (c: char)
    requires
        u < 128,
    ensures
        c == u as char,
{
    let b: u8 = u as u8;
    b as char
}


/// The views of a sequence of character vectors.
pub open spec fn views(v: Seq<Vec<char>>) -> Seq<Seq<char>> {
    v.map_values(|x: Vec<char>| x@)
}

pub fn copy_range(s: &[char], i: usize, j: usize) -> (r: Vec<char>)
    requires
        i <= j <= s@.len(),
    ensures
        r@ == s@.subrange(i as int, j as int),
{
    let mut r: Vec<char> = Vec::new();
    let mut k: usize = i;
    while k < j
        invariant
            i <= k <= j <= s@.len(),
            r@ == s@.subrange(i as int, k as int),
        decreases j - k,
    {
        r.push(s[k]);
        k += 1;
        assert(r@ =~= s@.subrange(i as int, k as int));
    }
    r
}

pub fn chars_eq(a: &[char], b: &[char]) -> (r: bool)
    ensures
        r == (a@ == b@),
{
    if a.len() != b.len() {
        return false;
    }
    let mut i: usize = 0;
    while i < a.len()
        invariant
            a@.len() == b@.len(),
            i <= a@.len(),
            forall|k: int| 0 <= k < i ==> a@[k] == b@[k],
        decreases a.len() - i,
    {
        if a[i] != b[i] {
            return false;
        }
        i += 1;
    }
    assert(a@ =~= b@);
    true
}

pub fn upper(s: &[char]) -> (r: Vec<char>)
    ensures
        r@ == upper_seq(s@),
{
    let mut r: Vec<char> = Vec::new();
    let mut i: usize = 0;
    while i < s.len()
        invariant
            i <= s@.len(),
            r@ == upper_seq(s@.take(i as int)),
        decreases s.len() - i,
    {
        let c = char_upper(s[i]);
        r.push(c);
        i += 1;
        assert(r@ =~= upper_seq(s@.take(i as int)));
    }
    assert(s@.take(s@.len() as int) =~= s@);
    r
}

pub fn lower(s: &[char]) -> (r: Vec<char>)
    ensures
        r@ == lower_seq(s@),
{
    let mut r: Vec<char> = Vec::new();
    let mut i: usize = 0;
    while i < s.len()
        invariant
            i <= s@.len(),
            r@ == lower_seq(s@.take(i as int)),
        decreases s.len() - i,
    {
        let c = char_lower(s[i]);
        r.push(c);
        i += 1;
        assert(r@ =~= lower_seq(s@.take(i as int)));
    }
    assert(s@.take(s@.len() as int) =~= s@);
    r
}

pub fn eq_ignore_case(a: &[char], b: &[char]) -> (r: bool)
    ensures
        r == eq_ignore_ascii_case(a@, b@),
{
    let la = lower(a);
    let lb = lower(b);
    chars_eq(&la, &lb)
}

pub proof fn lemma_trim_start_skip(s: Seq<char>, i: int)
    requires
        0 <= i < s.len(),
        is_ws(s[i]),
    ensures
        trim_start(s.skip(i)) == trim_start(s.skip(i + 1)),
{
    assert(s.skip(i).drop_first() =~= s.skip(i + 1));
}

pub proof fn lemma_trim_end_take(s: Seq<char>, j: int)
    requires
        0 < j <= s.len(),
        is_ws(s[j - 1]),
    ensures
        trim_end(s.take(j)) == trim_end(s.take(j - 1)),
{
    assert(s.take(j).drop_last() =~= s.take(j - 1));
}

pub fn trim_start_chars(s: &[char]) -> (r: Vec<char>)
    ensures
        r@ == trim_start(s@),
{
    let mut i: usize = 0;
    assert(s@.skip(0) =~= s@);
    while i < s.len() && is_ws_char(s[i])
        invariant
            i <= s@.len(),
            trim_start(s@) == trim_start(s@.skip(i as int)),
        decreases s.len() - i,
    {
        proof {
            lemma_trim_start_skip(s@, i as int);
        }
        i += 1;
    }
    let r = copy_range(s, i, s.len());
    assert(r@ =~= s@.skip(i as int));
    r
}

pub fn trim_end_chars(s: &[char]) -> (r: Vec<char>)
    ensures
        r@ == trim_end(s@),
{
    let mut j: usize = s.len();
    assert(s@.take(s@.len() as int) =~= s@);
    while j > 0 && is_ws_char(s[j - 1])
        invariant
            j <= s@.len(),
            trim_end(s@) == trim_end(s@.take(j as int)),
        decreases j,
    {
        proof {
            lemma_trim_end_take(s@, j as int);
        }
        j -= 1;
    }
    let r = copy_range(s, 0, j);
    assert(r@ =~= s@.take(j as int));
    r
}

pub fn trim_chars(s: &[char]) -> (r: Vec<char>)
    ensures
        r@ == trim(s@),
{
    let a = trim_start_chars(s);
    trim_end_chars(&a)
}

pub fn starts_with_chars(s: &[char], p: &[char]) -> (r: bool)
    ensures
        r == starts_with(s@, p@),
{
    if p.len() > s.len() {
        return false;
    }
    let mut i: usize = 0;
    while i < p.len()
        invariant
            p@.len() <= s@.len(),
            i <= p@.len(),
            forall|k: int| 0 <= k < i ==> s@[k] == p@[k],
        decreases p.len() - i,
    {
        if s[i] != p[i] {
            assert(s@.take(p@.len() as int)[i as int] != p@[i as int]);
            return false;
        }
        i += 1;
    }
    assert(s@.take(p@.len() as int) =~= p@);
    true
}

pub fn occurs_at_chars(s: &[char], p: &[char], i: usize) -> (r: bool)
    ensures
        r == occurs_at(s@, p@, i as int),
{
    if i > s.len() || p.len() > s.len() - i {
        return false;
    }
    let n: usize = s.len();
    let mut k: usize = 0;
    while k < p.len()
        invariant
            n == s@.len(),
            i + p@.len() <= s@.len(),
            k <= p@.len(),
            forall|m: int| 0 <= m < k ==> s@[i + m] == p@[m],
        decreases p.len() - k,
    {
        assert(i + k < s@.len());
        if s[i + k] != p[k] {
            assert(s@.subrange(i as int, i + p@.len())[k as int] != p@[k as int]);
            return false;
        }
        k += 1;
    }
    assert(s@.subrange(i as int, i + p@.len()) =~= p@);
    true
}

pub fn ends_with_chars(s: &[char], p: &[char]) -> (r: bool)
    ensures
        r == ends_with(s@, p@),
{
    if p.len() > s.len() {
        return false;
    }
    let i = s.len() - p.len();
    assert(s@.skip(i as int) =~= s@.subrange(i as int, i + p@.len()));
    occurs_at_chars(s, p, i)
}

pub fn contains_chars(s: &[char], p: &[char]) -> (r: bool)
    ensures
        r == contains(s@, p@),
{
    if p.len() > s.len() {
        return false;
    }
    let last: usize = s.len() - p.len();
    let mut i: usize = 0;
    loop
        invariant
            p@.len() <= s@.len(),
            last == s@.len() - p@.len(),
            i <= last,
            forall|k: int| 0 <= k < i ==> !occurs_at(s@, p@, k),
        ensures
            forall|k: int| 0 <= k <= last ==> !occurs_at(s@, p@, k),
        decreases last - i,
    {
        if occurs_at_chars(s, p, i) {
            return true;
        }
        if i == last {
            break;
        }
        i += 1;
    }
    assert forall|k: int| !occurs_at(s@, p@, k) by {
        if 0 <= k && k + p@.len() <= s@.len() {
            assert(k <= last);
        }
    }
    false
}

pub proof fn lemma_split_step<A>(s: Seq<A>, i: int, sep: A)
    requires
        0 <= i < s.len(),
    ensures
        split_on(s.take(i + 1), sep) == (if s[i] == sep {
            split_on(s.take(i), sep).push(Seq::<A>::empty())
        } else {
            let init = split_on(s.take(i), sep);
            init.update(init.len() - 1, init.last().push(s[i]))
        }),
{
    assert(s.take(i + 1).drop_last() =~= s.take(i));
}

pub fn split_chars(s: &[char], sep: char) -> (r: Vec<Vec<char>>)
    ensures
        views(r@) == split_on(s@, sep),
{
    let mut parts: Vec<Vec<char>> = Vec::new();
    let mut cur: Vec<char> = Vec::new();
    let mut i: usize = 0;
    assert(s@.take(0) =~= Seq::<char>::empty());
    assert(views(parts@).push(cur@) =~= split_on(s@.take(0), sep));
    while i < s.len()
        invariant
            i <= s@.len(),
            views(parts@).push(cur@) == split_on(s@.take(i as int), sep),
        decreases s.len() - i,
    {
        proof {
            lemma_split_step(s@, i as int, sep);
        }
        let c = s[i];
        if c == sep {
            let done = cur;
            parts.push(done);
            cur = Vec::new();
            assert(views(parts@).push(cur@) =~= split_on(s@.take(i + 1), sep));
        } else {
            let ghost before = views(parts@).push(cur@);
            cur.push(c);
            assert(views(parts@).push(cur@) =~= before.update(before.len() - 1, before.last().push(c)));
        }
        i += 1;
    }
    assert(s@.take(s@.len() as int) =~= s@);
    parts.push(cur);
    assert(views(parts@) =~= split_on(s@, sep));
    parts
}

pub fn after_first_chars(s: &[char], c: char) -> (r: Option<Vec<char>>)
    ensures
        match after_first(s@, c) {
            None => r is None,
            Some(t) => r matches Some(v) && v@ == t,
        },
{
    let mut i: usize = 0;
    assert(s@.skip(0) =~= s@);
    while i < s.len()
        invariant
            i <= s@.len(),
            after_first(s@, c) == after_first(s@.skip(i as int), c),
        decreases s.len() - i,
    {
        assert(s@.skip(i as int).drop_first() =~= s@.skip(i + 1));
        if s[i] == c {
            let r = copy_range(s, i + 1, s.len());
            assert(r@ =~= s@.skip(i as int).drop_first());
            return Some(r);
        }
        i += 1;
    }
    None
}

pub fn strip_cr_chars(l: &[char]) -> (r: Vec<char>)
    ensures
        r@ == strip_cr(l@),
{
    if l.len() > 0 && l[l.len() - 1] == '\r' {
        let r = copy_range(l, 0, l.len() - 1);
        assert(r@ =~= l@.drop_last());
        r
    } else {
        copy_range(l, 0, l.len())
    }
}

pub fn lines_chars(s: &[char]) -> (r: Vec<Vec<char>>)
    ensures
        views(r@) == lines(s@),
{
    let parts = split_chars(s, '\n');
    proof {
        lemma_split_on_nonempty(s@, '\n');
    }
    let n: usize = parts.len();
    let mut out: Vec<Vec<char>> = Vec::new();
    let mut k: usize = 0;
    let ghost closed = split_on(s@, '\n').drop_last().map_values(|l: Seq<char>| strip_cr(l));
    while k < n - 1
        invariant
            n == parts@.len() >= 1,
            views(parts@) == split_on(s@, '\n'),
            closed == split_on(s@, '\n').drop_last().map_values(|l: Seq<char>| strip_cr(l)),
            k <= n - 1,
            views(out@) == closed.take(k as int),
        decreases n - 1 - k,
    {
        let l = strip_cr_chars(&parts[k]);
        assert(parts@[k as int]@ == split_on(s@, '\n')[k as int]);
        assert(l@ == closed[k as int]);
        let ghost before = out@;
        out.push(l);
        assert(out@ == before.push(l));
        assert(views(out@) =~= views(before).push(l@));
        assert(closed.take(k + 1) =~= closed.take(k as int).push(closed[k as int]));
        k += 1;
    }
    assert(closed.take((n - 1) as int) =~= closed);
    assert(parts@[n - 1]@ == split_on(s@, '\n').last());
    if parts[n - 1].len() > 0 {
        let last = copy_range(&parts[n - 1], 0, parts[n - 1].len());
        assert(last@ =~= parts@[n - 1]@);
        out.push(last);
        assert(views(out@) =~= closed.push(split_on(s@, '\n').last()));
    }
    out
}


/// The views of a sequence of strings.
pub open spec fn string_views(v: Seq<String>) -> Seq<Seq<char>> {
    v.map_values(|x: String| x@)
}

pub fn extend_chars(out: &mut Vec<char>, t: &[char])
    ensures
        final(out)@ == old(out)@ + t@,
{
    let mut i: usize = 0;
    while i < t.len()
        invariant
            i <= t@.len(),
            out@ == old(out)@ + t@.take(i as int),
        decreases t.len() - i,
    {
        out.push(t[i]);
        i += 1;
        assert(out@ =~= old(out)@ + t@.take(i as int));
    }
    assert(t@.take(t@.len() as int) =~= t@);
}

pub fn strings_of(v: &Vec<Vec<char>>) -> (r: Vec<String>)
    ensures
        string_views(r@) == views(v@),
{
    let mut r: Vec<String> = Vec::new();
    let mut i: usize = 0;
    while i < v.len()
        invariant
            i <= v@.len(),
            string_views(r@) == views(v@).take(i as int),
        decreases v.len() - i,
    {
        let s = string_of(&v[i]);
        let ghost before = r@;
        r.push(s);
        assert(r@ == before.push(s));
        assert(string_views(r@) =~= string_views(before).push(s@));
        assert(views(v@).take(i + 1) =~= views(v@).take(i as int).push(v@[i as int]@));
        i += 1;
    }
    assert(views(v@).take(v@.len() as int) =~= views(v@));
    r
}


pub proof fn lemma_trim_start_shape(s: Seq<char>)
    ensures
        trim_start(s).len() <= s.len(),
        trim_start(s) == s.skip(s.len() - trim_start(s).len()),
        trim_start(s).len() > 0 ==> !is_ws(trim_start(s)[0]),
    decreases s.len(),
{
    if s.len() > 0 && is_ws(s[0]) {
        lemma_trim_start_shape(s.drop_first());
        let t = trim_start(s.drop_first());
        assert(s.drop_first().skip(s.drop_first().len() - t.len()) =~= s.skip(s.len() - t.len()));
    } else {
        assert(s.skip(0) =~= s);
    }
}

pub proof fn lemma_trim_end_shape(s: Seq<char>)
    ensures
        trim_end(s).len() <= s.len(),
        trim_end(s) == s.take(trim_end(s).len() as int),
        trim_end(s).len() > 0 ==> !is_ws(trim_end(s).last()),
    decreases s.len(),
{
    if s.len() > 0 && is_ws(s.last()) {
        lemma_trim_end_shape(s.drop_last());
        let t = trim_end(s.drop_last());
        assert(s.drop_last().take(t.len() as int) =~= s.take(t.len() as int));
    } else {
        assert(s.take(s.len() as int) =~= s);
    }
}

/// A text with no whitespace at either end is its own trim.
pub proof fn lemma_trim_fixed(u: Seq<char>)
    requires
        u.len() > 0 ==> !is_ws(u[0]) && !is_ws(u.last()),
    ensures
        trim(u) == u,
{
    assert(trim_start(u) == u);
    assert(trim_end(u) == u);
}

/// The trim of a text has no whitespace at either end.
pub proof fn lemma_trim_shape(s: Seq<char>)
    ensures
        trim(s).len() > 0 ==> !is_ws(trim(s)[0]) && !is_ws(trim(s).last()),
{
    lemma_trim_start_shape(s);
    let t = trim_start(s);
    lemma_trim_end_shape(t);
    if trim(s).len() > 0 {
        assert(trim(s)[0] == t[0]);
    }
}

pub proof fn lemma_upper_keeps_ws(c: char)
    ensures
        is_ws(ascii_upper(c)) == is_ws(c),
{
}


/// Lexicographic order on texts by code point, the order of `str` comparison.
pub open spec fn seq_leq(a: Seq<char>, b: Seq<char>) -> bool
    decreases a.len(),
{
    if a.len() == 0 {
        true
    } else if b.len() == 0 {
        false
    } else if a[0] < b[0] {
        true
    } else if a[0] > b[0] {
        false
    } else {
        seq_leq(a.drop_first(), b.drop_first())
    }
}

pub open spec fn text_leq() -> spec_fn(Seq<char>, Seq<char>) -> bool {
    |a: Seq<char>, b: Seq<char>| seq_leq(a, b)
}

pub proof fn lemma_seq_leq_reflexive(a: Seq<char>)
    ensures
        seq_leq(a, a),
    decreases a.len(),
{
    if a.len() > 0 {
        lemma_seq_leq_reflexive(a.drop_first());
    }
}

pub proof fn lemma_seq_leq_antisymmetric(a: Seq<char>, b: Seq<char>)
    requires
        seq_leq(a, b),
        seq_leq(b, a),
    ensures
        a == b,
    decreases a.len(),
{
    if a.len() > 0 && b.len() > 0 {
        lemma_seq_leq_antisymmetric(a.drop_first(), b.drop_first());
        assert(a =~= seq![a[0]] + a.drop_first());
        assert(b =~= seq![b[0]] + b.drop_first());
    }
}

pub proof fn lemma_seq_leq_transitive(a: Seq<char>, b: Seq<char>, c: Seq<char>)
    requires
        seq_leq(a, b),
        seq_leq(b, c),
    ensures
        seq_leq(a, c),
    decreases a.len(),
{
    if a.len() > 0 && b.len() > 0 && c.len() > 0 {
        if a[0] == b[0] && b[0] == c[0] {
            lemma_seq_leq_transitive(a.drop_first(), b.drop_first(), c.drop_first());
        }
    }
}

pub proof fn lemma_seq_leq_total(a: Seq<char>, b: Seq<char>)
    ensures
        seq_leq(a, b) || seq_leq(b, a),
    decreases a.len(),
{
    if a.len() > 0 && b.len() > 0 && a[0] == b[0] {
        lemma_seq_leq_total(a.drop_first(), b.drop_first());
    }
}

pub proof fn lemma_text_leq_total_ordering()
    ensures
        vstd::relations::total_ordering(text_leq()),
{
    assert forall|a: Seq<char>| #[trigger] text_leq()(a, a) by {
        lemma_seq_leq_reflexive(a);
    }
    assert forall|a: Seq<char>, b: Seq<char>|
        #[trigger] text_leq()(a, b) && #[trigger] text_leq()(b, a) implies a == b by {
        lemma_seq_leq_antisymmetric(a, b);
    }
    assert forall|a: Seq<char>, b: Seq<char>, c: Seq<char>|
        #[trigger] text_leq()(a, b) && #[trigger] text_leq()(b, c) implies text_leq()(a, c) by {
        lemma_seq_leq_transitive(a, b, c);
    }
    assert forall|a: Seq<char>, b: Seq<char>|
        #[trigger] text_leq()(a, b) || #[trigger] text_leq()(b, a) by {
        lemma_seq_leq_total(a, b);
    }
}

pub fn chars_leq(a: &[char], b: &[char]) -> (r: bool)
    ensures
        r == seq_leq(a@, b@),
{
    let mut i: usize = 0;
    assert(a@.skip(0) =~= a@);
    assert(b@.skip(0) =~= b@);
    while i < a.len() && i < b.len() && a[i] == b[i]
        invariant
            i <= a@.len(),
            i <= b@.len(),
            seq_leq(a@, b@) == seq_leq(a@.skip(i as int), b@.skip(i as int)),
        decreases a.len() - i,
    {
        assert(a@.skip(i as int).drop_first() =~= a@.skip(i + 1));
        assert(b@.skip(i as int).drop_first() =~= b@.skip(i + 1));
        i += 1;
    }
    if i == a.len() {
        true
    } else if i == b.len() {
        false
    } else {
        a[i] < b[i]
    }
}

/// Sorts texts in ascending code-point order (the order of `Vec<String>::sort`).
pub fn sort_strings(v: Vec<String>) -> (r: Vec<String>)
    ensures
        vstd::relations::sorted_by(string_views(r@), text_leq()),
        string_views(r@).to_multiset() == string_views(v@).to_multiset(),
{
    broadcast use vstd::seq_lib::to_multiset_insert, vstd::seq_lib::to_multiset_build;

    proof {
        lemma_text_leq_total_ordering();
    }
    let mut out: Vec<String> = Vec::new();
    let mut i: usize = 0;
    assert(string_views(out@) =~= string_views(v@).take(0));
    while i < v.len()
        invariant
            i <= v@.len(),
            vstd::relations::total_ordering(text_leq()),
            vstd::relations::sorted_by(string_views(out@), text_leq()),
            string_views(out@).to_multiset() == string_views(v@).take(i as int).to_multiset(),
        decreases v.len() - i,
    {
        let x = v[i].clone();
        let xc = chars_of(x.as_str());
        let mut p: usize = 0;
        while p < out.len() && chars_leq(&chars_of(out[p].as_str()), &xc)
            invariant
                p <= out@.len(),
                xc@ == x@,
                forall|k: int| 0 <= k < p ==> seq_leq(#[trigger] out@[k]@, x@),
            decreases out.len() - p,
        {
            p += 1;
        }
        let ghost before = string_views(out@);
        proof {
            if p < out@.len() {
                lemma_seq_leq_total(out@[p as int]@, x@);
            }
        }
        out.insert(p, x);
        assert(string_views(out@) =~= before.insert(p as int, x@));
        assert(string_views(v@).take(i + 1) =~= string_views(v@).take(i as int).push(x@));
        proof {
            vstd::seq_lib::to_multiset_insert(before, p as int, x@);
            vstd::seq_lib::to_multiset_build(string_views(v@).take(i as int), x@);
        }
        assert(vstd::relations::sorted_by(string_views(out@), text_leq())) by {
            assert forall|a: int, b: int| 0 <= a < b < string_views(out@).len() implies text_leq()(
                string_views(out@)[a],
                string_views(out@)[b],
            ) by {
                let sv = string_views(out@);
                if a < p && b == p {
                } else if a == p && b > p {
                    if b - 1 > p {
                        assert(text_leq()(before[p as int], before[b - 1]));
                        lemma_seq_leq_transitive(x@, before[p as int], before[b - 1]);
                    }
                } else if a < p && b > p {
                    assert(text_leq()(before[a], before[b - 1]));
                } else if b < p {
                    assert(text_leq()(before[a], before[b]));
                } else {
                    assert(text_leq()(before[a - 1], before[b - 1]));
                }
            }
        }
        i += 1;
    }
    assert(string_views(v@).take(v@.len() as int) =~= string_views(v@));
    out
}


/// `str::split_once` on one character: the text before the first separator.
pub open spec fn before_first(s: Seq<char>, c: char) -> Option<Seq<char>>
    decreases s.len(),
{
    if s.len() == 0 {
        None
    } else if s[0] == c {
        Some(Seq::<char>::empty())
    } else {
        match before_first(s.drop_first(), c) {
            Some(p) => Some(seq![s[0]] + p),
            None => None,
        }
    }
}

/// `str::rsplit_once` on one character: the text before the last separator.
pub open spec fn before_last(s: Seq<char>, c: char) -> Option<Seq<char>>
    decreases s.len(),
{
    if s.len() == 0 {
        None
    } else if s.last() == c {
        Some(s.drop_last())
    } else {
        before_last(s.drop_last(), c)
    }
}

proof fn lemma_before_first_at(s: Seq<char>, c: char, i: int)
    requires
        0 <= i <= s.len(),
        forall|k: int| 0 <= k < i ==> s[k] != c,
    ensures
        i < s.len() && s[i] == c ==> before_first(s, c) == Some(s.take(i)),
        i == s.len() ==> before_first(s, c) is None,
    decreases i,
{
    if i > 0 {
        lemma_before_first_at(s.drop_first(), c, i - 1);
        assert(seq![s[0]] + s.drop_first().take(i - 1) =~= s.take(i));
    } else if s.len() > 0 {
        assert(s.take(0) =~= Seq::<char>::empty());
    }
}

proof fn lemma_before_last_at(s: Seq<char>, c: char, j: int)
    requires
        0 <= j <= s.len(),
        forall|k: int| j <= k < s.len() ==> s[k] != c,
    ensures
        before_last(s, c) == before_last(s.take(j), c),
    decreases s.len() - j,
{
    if j < s.len() {
        assert(s.drop_last().take(j) =~= s.take(j));
        lemma_before_last_at(s.drop_last(), c, j);
    } else {
        assert(s.take(j) =~= s);
    }
}

pub fn before_first_chars(s: &[char], c: char) -> (r: Option<Vec<char>>)
    ensures
        match before_first(s@, c) {
            None => r is None,
            Some(t) => r matches Some(v) && v@ == t,
        },
{
    let mut i: usize = 0;
    while i < s.len()
        invariant
            i <= s@.len(),
            forall|k: int| 0 <= k < i ==> s@[k] != c,
        decreases s.len() - i,
    {
        if s[i] == c {
            proof {
                lemma_before_first_at(s@, c, i as int);
            }
            return Some(copy_range(s, 0, i));
        }
        i += 1;
    }
    proof {
        lemma_before_first_at(s@, c, i as int);
    }
    None
}

pub fn before_last_chars(s: &[char], c: char) -> (r: Option<Vec<char>>)
    ensures
        match before_last(s@, c) {
            None => r is None,
            Some(t) => r matches Some(v) && v@ == t,
        },
{
    let mut j: usize = s.len();
    while j > 0
        invariant
            j <= s@.len(),
            forall|k: int| j <= k < s@.len() ==> s@[k] != c,
        decreases j,
    {
        if s[j - 1] == c {
            proof {
                lemma_before_last_at(s@, c, j as int);
                assert(s@.take(j as int).drop_last() =~= s@.take(j - 1));
            }
            return Some(copy_range(s, 0, j - 1));
        }
        j -= 1;
    }
    proof {
        lemma_before_last_at(s@, c, 0);
    }
    None
}

pub fn skip_chars(s: &[char], n: usize) -> (r: Vec<char>)
    requires
        n <= s@.len(),
    ensures
        r@ == s@.skip(n as int),
{
    let r = copy_range(s, n, s.len());
    assert(r@ =~= s@.skip(n as int));
    r
}

pub fn lit_eq(c: &[char], lit: &str) -> (b: bool)
    ensures
        b == (c@ == lit@),
{
    let l = chars_of(lit);
    chars_eq(c, &l)
}

pub fn lit_prefix(c: &[char], lit: &str) -> (b: bool)
    ensures
        b == starts_with(c@, lit@),
{
    let l = chars_of(lit);
    starts_with_chars(c, &l)
}


pub open spec fn digit_char(d: nat) -> char {
    ((d + 48) as u32) as char
}

/// The decimal representation of `n`, as `Display` writes it.
pub open spec fn decimal(n: nat) -> Seq<char>
    decreases n,
{
    if n < 10 {
        seq![digit_char(n)]
    } else {
        decimal(n / 10).push(digit_char(n % 10))
    }
}

pub fn fmt_u64(n: u64) -> (r: Vec<char>)
    ensures
        r@ == decimal(n as nat),
{
    let mut digits: Vec<char> = Vec::new();
    let mut m: u64 = n;
    let ghost mut acc: Seq<char> = Seq::empty();
    assert(decimal(n as nat) =~= decimal(m as nat) + acc);
    while m >= 10
        invariant
            m <= n,
            decimal(n as nat) == decimal(m as nat) + acc,
            digits@ == acc.reverse(),
        decreases m,
    {
        let c = char_from_digit(m % 10);
        digits.push(c);
        proof {
            assert(decimal(m as nat) == decimal((m / 10) as nat).push(c));
            assert(decimal((m / 10) as nat).push(c) + acc =~= decimal((m / 10) as nat) + (seq![c]
                + acc));
            acc = seq![c] + acc;
            assert(digits@ =~= acc.reverse());
        }
        m = m / 10;
    }
    let c = char_from_digit(m);
    digits.push(c);
    proof {
        assert(decimal(m as nat) == seq![c]);
        acc = seq![c] + acc;
        assert(digits@ =~= acc.reverse());
    }
    let mut out: Vec<char> = Vec::new();
    let mut k: usize = digits.len();
    while k > 0
        invariant
            k <= digits@.len(),
            digits@ == acc.reverse(),
            out@ == acc.take((digits@.len() - k) as int),
            acc.len() == digits@.len(),
        decreases k,
    {
        k -= 1;
        out.push(digits[k]);
        assert(out@ =~= acc.take((digits@.len() - k) as int));
    }
    assert(acc.take(acc.len() as int) =~= acc);
    out
}

fn char_from_digit(d: u64) -> (c: char)
    requires
        d < 10,
    ensures
        c == digit_char(d as nat),
{
    let u: u32 = (d as u32) + 48;
    char_from_ascii(u)
}


/// The value of a run of decimal digits.
pub open spec fn digits_value(s: Seq<char>) -> nat
    decreases s.len(),
{
    if s.len() == 0 {
        0
    } else {
        digits_value(s.drop_last()) * 10 + ((s.last() as u32) - 48) as nat
    }
}

pub open spec fn all_digits(s: Seq<char>) -> bool {
    forall|i: int| 0 <= i < s.len() ==> is_ascii_digit(#[trigger] s[i])
}

/// `u64::from_str` / `u16::from_str`: an optional `+`, then at least one decimal digit,
/// and a value that fits below `bound`.
pub open spec fn spec_parse_uint(s: Seq<char>, bound: nat) -> Option<nat> {
    let d = if s.len() > 0 && s[0] == '+' { s.drop_first() } else { s };
    if d.len() > 0 && all_digits(d) && digits_value(d) < bound {
        Some(digits_value(d))
    } else {
        None
    }
}

proof fn lemma_digits_value_step(d: Seq<char>, i: int)
    requires
        0 <= i < d.len(),
    ensures
        digits_value(d.take(i + 1)) == digits_value(d.take(i)) * 10 + ((d[i] as u32) - 48) as nat,
{
    assert(d.take(i + 1).drop_last() =~= d.take(i));
}

proof fn lemma_digits_value_mono(d: Seq<char>, i: int, j: int)
    requires
        0 <= i <= j <= d.len(),
        all_digits(d),
    ensures
        digits_value(d.take(i)) <= digits_value(d.take(j)),
    decreases j - i,
{
    if i < j {
        lemma_digits_value_mono(d, i, j - 1);
        lemma_digits_value_step(d, j - 1);
        assert(is_ascii_digit(d[j - 1]));
        assert(digits_value(d.take(j - 1)) <= digits_value(d.take(j - 1)) * 10) by (nonlinear_arith);
    }
}

/// Parses an unsigned decimal integer below `bound` (at most `u64::MAX + 1`).
pub fn parse_uint(s: &[char], bound: u128) -> (r: Option<u64>)
    requires
        0 < bound <= u64::MAX as u128 + 1,
    ensures
        match spec_parse_uint(s@, bound as nat) {
            Some(v) => r == Some(v as u64),
            None => r is None,
        },
{
    let start: usize = if s.len() > 0 && s[0] == '+' { 1 } else { 0 };
    let ghost d = if s@.len() > 0 && s@[0] == '+' { s@.drop_first() } else { s@ };
    assert(d =~= s@.skip(start as int));
    if start >= s.len() {
        assert(d.len() == 0);
        return None;
    }
    let mut v: u128 = 0;
    let mut i: usize = start;
    assert(d.take(0) =~= Seq::<char>::empty());
    while i < s.len()
        invariant
            start <= i <= s@.len(),
            d == s@.skip(start as int),
            d == (if s@.len() > 0 && s@[0] == '+' { s@.drop_first() } else { s@ }),
            forall|k: int| 0 <= k < i - start ==> is_ascii_digit(#[trigger] d[k]),
            v as nat == digits_value(d.take(i - start)),
            v < bound,
            0 < bound <= u64::MAX as u128 + 1,
        decreases s.len() - i,
    {
        let c = s[i];
        assert(c == d[i - start]);
        if !('0' <= c && c <= '9') {
            assert(!is_ascii_digit(d[i - start]));
            assert(!all_digits(d));
            assert(spec_parse_uint(s@, bound as nat) is None);
            return None;
        }
        let digit: u128 = ((c as u32) - 48) as u128;
        proof {
            lemma_digits_value_step(d, i - start);
        }
        if digit >= bound || v > (bound - 1 - digit) / 10 {
            proof {
                assert(digits_value(d.take(i - start + 1)) >= bound) by (nonlinear_arith)
                    requires
                        digits_value(d.take(i - start + 1)) == v * 10 + digit,
                        digit >= bound || v > (bound - 1 - digit) / 10,
                        digit <= 9,
                        v >= 0,
                ;
                if all_digits(d) {
                    lemma_digits_value_mono(d, i - start + 1, d.len() as int);
                    assert(d.take(d.len() as int) =~= d);
                }
            }
            return None;
        }
        assert(v * 10 + digit < bound) by (nonlinear_arith)
            requires
                v <= (bound - 1 - digit) / 10,
                digit <= 9,
        ;
        v = v * 10 + digit;
        i += 1;
    }
    assert(d.take(d.len() as int) =~= d);
    Some(v as u64)
}

} // verus!
