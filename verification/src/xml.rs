//! Minimal reading of WebDAV/CardDAV `multistatus` documents (RFC 4918 / 6352).
//!
//! roxmltree parses the text; the document is handed over as its nodes in document
//! order, and everything read from them is done here.
use vstd::prelude::*;

use crate::error::CardDavError;
use crate::text::{
    chars_of, copy_range, eq_ignore_ascii_case, extend_chars, is_ws, is_ws_char, lit_eq,
    lower, lower_seq, parse_uint, spec_parse_uint, string_of, trim, trim_chars, contains,
    contains_chars, ends_with, ends_with_chars, eq_ignore_case,
};

verus! {

/// One node of a parsed document, in document order.
pub struct XmlNode {
    /// Position of the parent node in the list (`None` for the document root).
    pub parent: Option<usize>,
    pub is_element: bool,
    /// Local name of an element (empty for other nodes).
    pub name: String,
    /// `roxmltree::Node::text`: a text or comment node's text, or an element's first
    /// child when that child is text.
    pub text: Option<String>,
}

pub struct XmlNodeView {
    pub parent: Option<usize>,
    pub is_element: bool,
    pub name: Seq<char>,
    pub text: Option<Seq<char>>,
}

pub open spec fn opt_view(o: Option<String>) -> Option<Seq<char>> {
    match o {
        Some(s) => Some(s@),
        None => None,
    }
}

impl View for XmlNode {
    type V = XmlNodeView;

    open spec fn view(&self) -> XmlNodeView {
        XmlNodeView {
            parent: self.parent,
            is_element: self.is_element,
            name: self.name@,
            text: opt_view(self.text),
        }
    }
}

pub open spec fn nodes_view(v: Seq<XmlNode>) -> Seq<XmlNodeView> {
    v.map_values(|n: XmlNode| n@)
}

/// What `roxmltree::Document::parse` makes of a text: its nodes in document order
/// (the document root first), or the error's message.
pub uninterp spec fn xml_parse(text: Seq<char>) -> Result<Seq<XmlNodeView>, Seq<char>>;

/// Calls `roxmltree::Document::parse` and lists the document's nodes in document order
/// (`descendants` of the root); a node's parent is given by its `NodeId`, which is its
/// position in that order. The nodes, or the error's message, are named by `xml_parse`.
#[verifier::external_body]
fn parse_xml_nodes(text: &str) -> (r: Result<Vec<XmlNode>, String>)
    ensures
        match xml_parse(text@) {
            Ok(ns) => r matches Ok(v) && nodes_view(v@) == ns,
            Err(m) => r matches Err(e) && e@ == m,
        },
{
    let doc = match roxmltree::Document::parse(text) {
        Ok(doc) => doc,
        Err(e) => return Err(e.to_string()),
    };
    let mut nodes = Vec::new();
    for n in doc.descendants() {
        let parent = match n.parent() {
            Some(p) => Some(p.id().get_usize()),
            None => None,
        };
        let name = n.tag_name().name().to_string();
        nodes.push(XmlNode { parent, is_element: n.is_element(), name, text: n.text().map(str::to_string) });
    }
    Ok(nodes)
}

// ---------------------------------------------------------------------------
// the tree

/// The children of node `k` among the first `n` nodes, in document order (a child
/// always comes after its parent).
pub open spec fn kids_upto(ns: Seq<XmlNodeView>, k: int, n: int) -> Seq<usize>
    decreases n,
{
    if n <= 0 {
        Seq::empty()
    } else {
        let rest = kids_upto(ns, k, n - 1);
        if k < n - 1 && ns[n - 1].parent == Some(k as usize) {
            rest.push((n - 1) as usize)
        } else {
            rest
        }
    }
}

pub open spec fn kids(ns: Seq<XmlNodeView>, k: int) -> Seq<usize> {
    kids_upto(ns, k, ns.len() as int)
}

proof fn lemma_kids_upto_bounds(ns: Seq<XmlNodeView>, k: int, n: int)
    requires
        0 <= n <= usize::MAX,
    ensures
        forall|i: int|
            0 <= i < kids_upto(ns, k, n).len() ==> k < #[trigger] kids_upto(ns, k, n)[i] < n,
    decreases n,
{
    if n > 0 {
        lemma_kids_upto_bounds(ns, k, n - 1);
        let rest = kids_upto(ns, k, n - 1);
        if k < n - 1 && ns[n - 1].parent == Some(k as usize) {
            assert forall|i: int|
                0 <= i < kids_upto(ns, k, n).len() implies k < #[trigger] kids_upto(ns, k, n)[i]
                < n by {
                if i < rest.len() {
                    assert(kids_upto(ns, k, n)[i] == rest[i]);
                }
            }
        }
    }
}

proof fn lemma_kids_bounds(ns: Seq<XmlNodeView>, k: int)
    requires
        ns.len() <= usize::MAX,
    ensures
        forall|i: int| 0 <= i < kids(ns, k).len() ==> k < #[trigger] kids(ns, k)[i] < ns.len(),
{
    lemma_kids_upto_bounds(ns, k, ns.len() as int);
}

/// Lists the children of every node.
fn build_kids(nodes: &Vec<XmlNode>) -> (r: Vec<Vec<usize>>)
    ensures
        r.len() == nodes.len(),
        forall|k: int| 0 <= k < nodes.len() ==> #[trigger] r[k]@ == kids(nodes_view(nodes@), k),
{
    let ghost ns = nodes_view(nodes@);
    let n = nodes.len();
    let mut r: Vec<Vec<usize>> = Vec::new();
    let mut i: usize = 0;
    while i < n
        invariant
            i <= n,
            n == nodes.len(),
            r.len() == i,
            forall|k: int| 0 <= k < i ==> #[trigger] r[k]@ == Seq::<usize>::empty(),
        decreases n - i,
    {
        r.push(Vec::new());
        i += 1;
    }
    let mut j: usize = 0;
    while j < n
        invariant
            j <= n,
            n == nodes.len(),
            ns == nodes_view(nodes@),
            r.len() == n,
            forall|k: int| 0 <= k < n ==> #[trigger] r[k]@ == kids_upto(ns, k, j as int),
        decreases n - j,
    {
        assert(ns[j as int] == nodes@[j as int]@);
        match nodes[j].parent {
            Some(p) => {
                if p < j {
                    let mut item: Vec<usize> = Vec::new();
                    r.set_and_swap(p, &mut item);
                    item.push(j);
                    r.set_and_swap(p, &mut item);
                }
            },
            None => {},
        }
        assert forall|k: int| 0 <= k < n implies #[trigger] r[k]@ == kids_upto(ns, k, j + 1) by {
            assert(kids_upto(ns, k, j + 1) == {
                let rest = kids_upto(ns, k, j as int);
                if k < j && ns[j as int].parent == Some(k as usize) {
                    rest.push(j)
                } else {
                    rest
                }
            });
        }
        j += 1;
    }
    r
}

// ---------------------------------------------------------------------------
// small text helpers

/// The end of the run of non-whitespace characters that starts at `i`.
pub open spec fn word_end(s: Seq<char>, i: int) -> int
    decreases s.len() - i,
{
    if i < 0 || i >= s.len() || is_ws(s[i]) {
        i
    } else {
        word_end(s, i + 1)
    }
}

/// The first position at or after `i` that is not whitespace.
pub open spec fn skip_ws(s: Seq<char>, i: int) -> int
    decreases s.len() - i,
{
    if 0 <= i < s.len() && is_ws(s[i]) {
        skip_ws(s, i + 1)
    } else {
        i
    }
}

proof fn lemma_word_end_bounds(s: Seq<char>, i: int)
    requires
        0 <= i <= s.len(),
    ensures
        i <= word_end(s, i) <= s.len(),
    decreases s.len() - i,
{
    if i < s.len() && !is_ws(s[i]) {
        lemma_word_end_bounds(s, i + 1);
    }
}

proof fn lemma_skip_ws_bounds(s: Seq<char>, i: int)
    requires
        0 <= i <= s.len(),
    ensures
        i <= skip_ws(s, i) <= s.len(),
    decreases s.len() - i,
{
    if i < s.len() && is_ws(s[i]) {
        lemma_skip_ws_bounds(s, i + 1);
    }
}

/// The second whitespace-separated word (`split_whitespace().nth(1)`).
pub open spec fn second_word(s: Seq<char>) -> Option<Seq<char>> {
    let a = skip_ws(s, 0);
    if a >= s.len() {
        None
    } else {
        let b = skip_ws(s, word_end(s, a));
        if b >= s.len() {
            None
        } else {
            Some(s.subrange(b, word_end(s, b)))
        }
    }
}

fn skip_ws_from(s: &[char], i: usize) -> (r: usize)
    requires
        i <= s.len(),
    ensures
        r == skip_ws(s@, i as int),
{
    let mut j = i;
    while j < s.len() && is_ws_char(s[j])
        invariant
            i <= j <= s.len(),
            skip_ws(s@, i as int) == skip_ws(s@, j as int),
        decreases s.len() - j,
    {
        j += 1;
    }
    j
}

fn word_end_from(s: &[char], i: usize) -> (r: usize)
    requires
        i <= s.len(),
    ensures
        r == word_end(s@, i as int),
{
    let mut j = i;
    while j < s.len() && !is_ws_char(s[j])
        invariant
            i <= j <= s.len(),
            word_end(s@, i as int) == word_end(s@, j as int),
        decreases s.len() - j,
    {
        j += 1;
    }
    j
}

/// The status code of a `HTTP/1.1 200 OK` line: its second word, as a `u16`.
pub open spec fn spec_parse_http_status(line: Seq<char>) -> Option<u16> {
    match second_word(line) {
        None => None,
        Some(w) => match spec_parse_uint(w, 65536) {
            Some(v) => Some(v as u16),
            None => None,
        },
    }
}

pub fn parse_http_status(line: &[char]) -> (r: Option<u16>)
    ensures
        r == spec_parse_http_status(line@),
{
    let a = skip_ws_from(line, 0);
    if a >= line.len() {
        return None;
    }
    proof {
        lemma_skip_ws_bounds(line@, 0);
        lemma_word_end_bounds(line@, a as int);
    }
    let e = word_end_from(line, a);
    proof {
        lemma_skip_ws_bounds(line@, e as int);
    }
    let b = skip_ws_from(line, e);
    if b >= line.len() {
        return None;
    }
    proof {
        lemma_word_end_bounds(line@, b as int);
    }
    let f = word_end_from(line, b);
    let w = copy_range(line, b, f);
    match parse_uint(&w, 65536) {
        Some(v) => Some(v as u16),
        None => None,
    }
}

/// The first position at or after `i` that is not `c`.
pub open spec fn skip_char(s: Seq<char>, c: char, i: int) -> int
    decreases s.len() - i,
{
    if 0 <= i < s.len() && s[i] == c {
        skip_char(s, c, i + 1)
    } else {
        i
    }
}

/// Moving back from `j`, no further than `lo`, past the characters `c`.
pub open spec fn back_char(s: Seq<char>, c: char, lo: int, j: int) -> int
    decreases j - lo,
{
    if lo < j && j <= s.len() && s[j - 1] == c {
        back_char(s, c, lo, j - 1)
    } else {
        j
    }
}

/// `str::trim_matches(c)`.
pub open spec fn trim_matches(s: Seq<char>, c: char) -> Seq<char> {
    let a = skip_char(s, c, 0);
    s.subrange(a, back_char(s, c, a, s.len() as int))
}

proof fn lemma_skip_char_bounds(s: Seq<char>, c: char, i: int)
    requires
        0 <= i <= s.len(),
    ensures
        i <= skip_char(s, c, i) <= s.len(),
    decreases s.len() - i,
{
    if i < s.len() && s[i] == c {
        lemma_skip_char_bounds(s, c, i + 1);
    }
}

proof fn lemma_back_char_bounds(s: Seq<char>, c: char, lo: int, j: int)
    requires
        0 <= lo <= j <= s.len(),
    ensures
        lo <= back_char(s, c, lo, j) <= j,
    decreases j - lo,
{
    if lo < j && s[j - 1] == c {
        lemma_back_char_bounds(s, c, lo, j - 1);
    }
}

pub fn trim_matches_chars(s: &[char], c: char) -> (r: Vec<char>)
    ensures
        r@ == trim_matches(s@, c),
{
    let mut a: usize = 0;
    while a < s.len() && s[a] == c
        invariant
            a <= s.len(),
            skip_char(s@, c, 0) == skip_char(s@, c, a as int),
        decreases s.len() - a,
    {
        a += 1;
    }
    let mut b: usize = s.len();
    while a < b && s[b - 1] == c
        invariant
            a <= b <= s.len(),
            a == skip_char(s@, c, 0),
            back_char(s@, c, a as int, s.len() as int) == back_char(s@, c, a as int, b as int),
        decreases b - a,
    {
        b -= 1;
    }
    copy_range(s, a, b)
}

/// A `getetag` value: trimmed, then without its surrounding quotes.
pub open spec fn spec_unquote_etag(raw: Seq<char>) -> Seq<char> {
    trim_matches(trim(raw), '"')
}

pub fn unquote_etag(raw: &[char]) -> (r: Vec<char>)
    ensures
        r@ == spec_unquote_etag(raw@),
{
    let t = trim_chars(raw);
    trim_matches_chars(&t, '"')
}


// ---------------------------------------------------------------------------
// reading the tree

/// The nodes and, for each node, the list of its children.
pub open spec fn doc_ok(nodes: Seq<XmlNode>, ks: Seq<Vec<usize>>) -> bool {
    &&& ks.len() == nodes.len()
    &&& forall|k: int| 0 <= k < nodes.len() ==> #[trigger] ks[k]@ == kids(nodes_view(nodes), k)
}

/// An element with this local name, ASCII case aside.
pub open spec fn named(n: XmlNodeView, local: Seq<char>) -> bool {
    n.is_element && eq_ignore_ascii_case(n.name, local)
}

pub open spec fn text_or_empty(o: Option<Seq<char>>) -> Seq<char> {
    match o {
        Some(t) => t,
        None => Seq::empty(),
    }
}

/// The texts of the nodes `list[..n]`, joined.
pub open spec fn texts_upto(ns: Seq<XmlNodeView>, list: Seq<usize>, n: int) -> Seq<char>
    decreases n,
{
    if n <= 0 {
        Seq::empty()
    } else {
        texts_upto(ns, list, n - 1) + text_or_empty(ns[list[n - 1] as int].text)
    }
}

/// The trimmed text of a node; where that is empty, the trimmed join of its children's
/// texts; `None` where both are empty.
pub open spec fn spec_node_text(ns: Seq<XmlNodeView>, j: int) -> Option<Seq<char>> {
    let t = trim(text_or_empty(ns[j].text));
    if t.len() == 0 {
        let joined = trim(texts_upto(ns, kids(ns, j), kids(ns, j).len() as int));
        if joined.len() == 0 {
            None
        } else {
            Some(joined)
        }
    } else {
        Some(t)
    }
}

/// The node text of the first child named `local` (in `list[i..]`) that has one.
pub open spec fn child_text_from(ns: Seq<XmlNodeView>, list: Seq<usize>, i: int, local: Seq<char>) -> Option<Seq<char>>
    decreases list.len() - i,
{
    if i < 0 || i >= list.len() {
        None
    } else if named(ns[list[i] as int], local) && spec_node_text(ns, list[i] as int) is Some {
        spec_node_text(ns, list[i] as int)
    } else {
        child_text_from(ns, list, i + 1, local)
    }
}

/// The raw text of the first child named `local` (in `list[i..]`) that has one.
pub open spec fn child_raw_text_from(ns: Seq<XmlNodeView>, list: Seq<usize>, i: int, local: Seq<char>) -> Option<Seq<char>>
    decreases list.len() - i,
{
    if i < 0 || i >= list.len() {
        None
    } else if named(ns[list[i] as int], local) && ns[list[i] as int].text is Some {
        ns[list[i] as int].text
    } else {
        child_raw_text_from(ns, list, i + 1, local)
    }
}

pub open spec fn spec_has_child_named(ns: Seq<XmlNodeView>, c: int, local: Seq<char>) -> bool {
    exists|i: int| 0 <= i < kids(ns, c).len() && named(ns[#[trigger] kids(ns, c)[i] as int], local)
}

/// `j` is `c` or lies below it.
pub open spec fn in_subtree(ns: Seq<XmlNodeView>, c: int, j: int) -> bool
    decreases j,
{
    if j == c {
        true
    } else if j < c || j >= ns.len() {
        false
    } else {
        match ns[j].parent {
            Some(p) => c <= p && p < j && in_subtree(ns, c, p as int),
            None => false,
        }
    }
}

/// The first `href` element, in document order, among `c` and its descendants from
/// position `j` on.
pub open spec fn first_href_from(ns: Seq<XmlNodeView>, c: int, j: int) -> Option<int>
    decreases ns.len() - j,
{
    if j < 0 || j >= ns.len() {
        None
    } else if in_subtree(ns, c, j) && named(ns[j], "href"@) {
        Some(j)
    } else {
        first_href_from(ns, c, j + 1)
    }
}

/// The text of the first `href` at or below `c`.
pub open spec fn spec_nested_href(ns: Seq<XmlNodeView>, c: int) -> Option<Seq<char>> {
    match first_href_from(ns, c, c) {
        Some(j) => spec_node_text(ns, j),
        None => None,
    }
}

fn name_is(nodes: &Vec<XmlNode>, j: usize, local: &str) -> (b: bool)
    requires
        j < nodes.len(),
    ensures
        b == named(nodes_view(nodes@)[j as int], local@),
{
    let n = &nodes[j];
    if !n.is_element {
        return false;
    }
    let a = chars_of(n.name.as_str());
    let l = chars_of(local);
    eq_ignore_case(&a, &l)
}

fn node_text_at(nodes: &Vec<XmlNode>, ks: &Vec<Vec<usize>>, j: usize) -> (r: Option<Vec<char>>)
    requires
        j < nodes.len(),
        doc_ok(nodes@, ks@),
    ensures
        opt_chars(r) == spec_node_text(nodes_view(nodes@), j as int),
{
    let ghost ns = nodes_view(nodes@);
    assert(ns[j as int] == nodes@[j as int]@);
    let raw = match &nodes[j].text {
        Some(t) => chars_of(t.as_str()),
        None => Vec::new(),
    };
    assert(raw@ == text_or_empty(ns[j as int].text));
    let t = trim_chars(&raw);
    if t.len() > 0 {
        return Some(t);
    }
    let list = &ks[j];
    assert(list@ == kids(ns, j as int));
    proof {
        lemma_kids_bounds(ns, j as int);
    }
    let mut joined: Vec<char> = Vec::new();
    let mut i: usize = 0;
    while i < list.len()
        invariant
            i <= list@.len(),
            ns == nodes_view(nodes@),
            list@ == kids(ns, j as int),
            forall|m: int| 0 <= m < list@.len() ==> #[trigger] list@[m] < nodes@.len(),
            joined@ == texts_upto(ns, list@, i as int),
        decreases list.len() - i,
    {
        let c = list[i];
        assert(ns[c as int] == nodes@[c as int]@);
        match &nodes[c].text {
            Some(x) => {
                let xc = chars_of(x.as_str());
                extend_chars(&mut joined, &xc);
            },
            None => {
                assert(joined@ + Seq::<char>::empty() =~= joined@);
            },
        }
        i += 1;
    }
    let jt = trim_chars(&joined);
    if jt.len() == 0 {
        None
    } else {
        Some(jt)
    }
}

pub open spec fn opt_chars(o: Option<Vec<char>>) -> Option<Seq<char>> {
    match o {
        Some(v) => Some(v@),
        None => None,
    }
}

fn child_text(nodes: &Vec<XmlNode>, ks: &Vec<Vec<usize>>, r: usize, local: &str) -> (t: Option<Vec<char>>)
    requires
        r < nodes.len(),
        doc_ok(nodes@, ks@),
    ensures
        opt_chars(t) == child_text_from(nodes_view(nodes@), kids(nodes_view(nodes@), r as int), 0, local@),
{
    let ghost ns = nodes_view(nodes@);
    let list = &ks[r];
    proof {
        lemma_kids_bounds(ns, r as int);
    }
    let mut i: usize = 0;
    while i < list.len()
        invariant
            i <= list@.len(),
            ns == nodes_view(nodes@),
            doc_ok(nodes@, ks@),
            list@ == kids(ns, r as int),
            forall|m: int| 0 <= m < list@.len() ==> #[trigger] list@[m] < nodes@.len(),
            child_text_from(ns, list@, 0, local@) == child_text_from(ns, list@, i as int, local@),
        decreases list.len() - i,
    {
        let c = list[i];
        if name_is(nodes, c, local) {
            let t = node_text_at(nodes, ks, c);
            if t.is_some() {
                return t;
            }
        }
        i += 1;
    }
    None
}

fn child_raw_text(nodes: &Vec<XmlNode>, ks: &Vec<Vec<usize>>, r: usize, local: &str) -> (t: Option<Vec<char>>)
    requires
        r < nodes.len(),
        doc_ok(nodes@, ks@),
    ensures
        opt_chars(t) == child_raw_text_from(nodes_view(nodes@), kids(nodes_view(nodes@), r as int), 0, local@),
{
    let ghost ns = nodes_view(nodes@);
    let list = &ks[r];
    proof {
        lemma_kids_bounds(ns, r as int);
    }
    let mut i: usize = 0;
    while i < list.len()
        invariant
            i <= list@.len(),
            ns == nodes_view(nodes@),
            list@ == kids(ns, r as int),
            forall|m: int| 0 <= m < list@.len() ==> #[trigger] list@[m] < nodes@.len(),
            child_raw_text_from(ns, list@, 0, local@) == child_raw_text_from(ns, list@, i as int, local@),
        decreases list.len() - i,
    {
        let c = list[i];
        assert(ns[c as int] == nodes@[c as int]@);
        if name_is(nodes, c, local) {
            match &nodes[c].text {
                Some(x) => {
                    return Some(chars_of(x.as_str()));
                },
                None => {},
            }
        }
        i += 1;
    }
    None
}

fn has_child_named(nodes: &Vec<XmlNode>, ks: &Vec<Vec<usize>>, c: usize, local: &str) -> (b: bool)
    requires
        c < nodes.len(),
        doc_ok(nodes@, ks@),
    ensures
        b == spec_has_child_named(nodes_view(nodes@), c as int, local@),
{
    let ghost ns = nodes_view(nodes@);
    let list = &ks[c];
    proof {
        lemma_kids_bounds(ns, c as int);
    }
    let mut i: usize = 0;
    while i < list.len()
        invariant
            i <= list@.len(),
            ns == nodes_view(nodes@),
            list@ == kids(ns, c as int),
            forall|m: int| 0 <= m < list@.len() ==> #[trigger] list@[m] < nodes@.len(),
            forall|m: int| 0 <= m < i ==> !named(ns[#[trigger] list@[m] as int], local@),
        decreases list.len() - i,
    {
        if name_is(nodes, list[i], local) {
            return true;
        }
        i += 1;
    }
    false
}

fn nested_href(nodes: &Vec<XmlNode>, ks: &Vec<Vec<usize>>, c: usize) -> (t: Option<Vec<char>>)
    requires
        c < nodes.len(),
        doc_ok(nodes@, ks@),
    ensures
        opt_chars(t) == spec_nested_href(nodes_view(nodes@), c as int),
{
    let ghost ns = nodes_view(nodes@);
    let n = nodes.len();
    let mut below: Vec<bool> = Vec::new();
    let mut j: usize = c;
    while j < n
        invariant
            c <= j <= n,
            n == nodes.len(),
            ns == nodes_view(nodes@),
            doc_ok(nodes@, ks@),
            below.len() == j - c,
            forall|m: int| c <= m < j ==> #[trigger] below@[m - c] == in_subtree(ns, c as int, m),
            first_href_from(ns, c as int, c as int) == first_href_from(ns, c as int, j as int),
        decreases n - j,
    {
        assert(ns[j as int] == nodes@[j as int]@);
        let inside = if j == c {
            true
        } else {
            match nodes[j].parent {
                Some(p) => c <= p && p < j && below[p - c],
                None => false,
            }
        };
        assert(inside == in_subtree(ns, c as int, j as int));
        if inside && name_is(nodes, j, "href") {
            return node_text_at(nodes, ks, j);
        }
        below.push(inside);
        j += 1;
    }
    None
}


// ---------------------------------------------------------------------------
// responses

/// One `<response>` of a PROPFIND answer.
#[derive(Debug, Clone, PartialEq, Eq)]
pub struct DavResponse {
    pub href: String,
    /// The status of the first `propstat`.
    pub status: Option<u16>,
    pub displayname: Option<String>,
    /// Without quotes.
    pub etag: Option<String>,
    pub content_type: Option<String>,
    pub is_collection: bool,
    pub is_addressbook: bool,
    pub current_user_principal: Option<String>,
    pub addressbook_home_set: Option<String>,
    /// `getctag` (CalendarServer extension).
    pub ctag: Option<String>,
    /// RFC 6578 `sync-token`.
    pub sync_token: Option<String>,
}

pub struct DavResponseView {
    pub href: Seq<char>,
    pub status: Option<u16>,
    pub displayname: Option<Seq<char>>,
    pub etag: Option<Seq<char>>,
    pub content_type: Option<Seq<char>>,
    pub is_collection: bool,
    pub is_addressbook: bool,
    pub current_user_principal: Option<Seq<char>>,
    pub addressbook_home_set: Option<Seq<char>>,
    pub ctag: Option<Seq<char>>,
    pub sync_token: Option<Seq<char>>,
}

impl View for DavResponse {
    type V = DavResponseView;

    open spec fn view(&self) -> DavResponseView {
        DavResponseView {
            href: self.href@,
            status: self.status,
            displayname: opt_view(self.displayname),
            etag: opt_view(self.etag),
            content_type: opt_view(self.content_type),
            is_collection: self.is_collection,
            is_addressbook: self.is_addressbook,
            current_user_principal: opt_view(self.current_user_principal),
            addressbook_home_set: opt_view(self.addressbook_home_set),
            ctag: opt_view(self.ctag),
            sync_token: opt_view(self.sync_token),
        }
    }
}

/// A response with this href and nothing else.
pub open spec fn bare_response(href: Seq<char>) -> DavResponseView {
    DavResponseView {
        href,
        status: None,
        displayname: None,
        etag: None,
        content_type: None,
        is_collection: false,
        is_addressbook: false,
        current_user_principal: None,
        addressbook_home_set: None,
        ctag: None,
        sync_token: None,
    }
}

impl Default for DavResponse {
    fn default() -> (r: Self)
        ensures
            r@ == bare_response(Seq::empty()),
    {
        DavResponse {
            href: String::new(),
            status: None,
            displayname: None,
            etag: None,
            content_type: None,
            is_collection: false,
            is_addressbook: false,
            current_user_principal: None,
            addressbook_home_set: None,
            ctag: None,
            sync_token: None,
        }
    }
}

pub open spec fn map_unquote(o: Option<Seq<char>>) -> Option<Seq<char>> {
    match o {
        Some(t) => Some(spec_unquote_etag(t)),
        None => None,
    }
}

/// What one child of a `<prop>` sets (its local name compared exactly).
pub open spec fn merge_one(ns: Seq<XmlNodeView>, c: int, acc: DavResponseView) -> DavResponseView {
    let n = ns[c];
    if !n.is_element {
        acc
    } else if n.name == "displayname"@ {
        DavResponseView { displayname: spec_node_text(ns, c), ..acc }
    } else if n.name == "getetag"@ {
        DavResponseView { etag: map_unquote(spec_node_text(ns, c)), ..acc }
    } else if n.name == "getcontenttype"@ {
        DavResponseView { content_type: spec_node_text(ns, c), ..acc }
    } else if n.name == "resourcetype"@ {
        DavResponseView {
            is_collection: spec_has_child_named(ns, c, "collection"@),
            is_addressbook: spec_has_child_named(ns, c, "addressbook"@),
            ..acc
        }
    } else if n.name == "current-user-principal"@ {
        DavResponseView { current_user_principal: spec_nested_href(ns, c), ..acc }
    } else if n.name == "addressbook-home-set"@ {
        DavResponseView { addressbook_home_set: spec_nested_href(ns, c), ..acc }
    } else if n.name == "getctag"@ {
        DavResponseView { ctag: spec_node_text(ns, c), ..acc }
    } else if n.name == "sync-token"@ {
        DavResponseView { sync_token: spec_node_text(ns, c), ..acc }
    } else {
        acc
    }
}

/// The children `list[..n]` of a `<prop>`, merged in order.
pub open spec fn merge_upto(ns: Seq<XmlNodeView>, list: Seq<usize>, n: int, acc: DavResponseView) -> DavResponseView
    decreases n,
{
    if n <= 0 {
        acc
    } else {
        merge_one(ns, list[n - 1] as int, merge_upto(ns, list, n - 1, acc))
    }
}

pub open spec fn spec_merge_prop(ns: Seq<XmlNodeView>, q: int, acc: DavResponseView) -> DavResponseView {
    merge_upto(ns, kids(ns, q), kids(ns, q).len() as int, acc)
}

fn to_string_opt(o: Option<Vec<char>>) -> (r: Option<String>)
    ensures
        opt_view(r) == opt_chars(o),
{
    match o {
        Some(v) => Some(string_of(&v)),
        None => None,
    }
}

fn merge_child(nodes: &Vec<XmlNode>, ks: &Vec<Vec<usize>>, c: usize, acc: &mut DavResponse)
    requires
        c < nodes.len(),
        doc_ok(nodes@, ks@),
    ensures
        final(acc)@ == merge_one(nodes_view(nodes@), c as int, old(acc)@),
{
    let ghost ns = nodes_view(nodes@);
    assert(ns[c as int] == nodes@[c as int]@);
    let n = &nodes[c];
    if !n.is_element {
        return;
    }
    let name = chars_of(n.name.as_str());
    if lit_eq(&name, "displayname") {
        acc.displayname = to_string_opt(node_text_at(nodes, ks, c));
    } else if lit_eq(&name, "getetag") {
        let t = node_text_at(nodes, ks, c);
        acc.etag = match t {
            Some(v) => Some(string_of(&unquote_etag(&v))),
            None => None,
        };
    } else if lit_eq(&name, "getcontenttype") {
        acc.content_type = to_string_opt(node_text_at(nodes, ks, c));
    } else if lit_eq(&name, "resourcetype") {
        acc.is_collection = has_child_named(nodes, ks, c, "collection");
        acc.is_addressbook = has_child_named(nodes, ks, c, "addressbook");
    } else if lit_eq(&name, "current-user-principal") {
        acc.current_user_principal = to_string_opt(nested_href(nodes, ks, c));
    } else if lit_eq(&name, "addressbook-home-set") {
        acc.addressbook_home_set = to_string_opt(nested_href(nodes, ks, c));
    } else if lit_eq(&name, "getctag") {
        acc.ctag = to_string_opt(node_text_at(nodes, ks, c));
    } else if lit_eq(&name, "sync-token") {
        acc.sync_token = to_string_opt(node_text_at(nodes, ks, c));
    }
}

fn merge_prop(nodes: &Vec<XmlNode>, ks: &Vec<Vec<usize>>, q: usize, acc: &mut DavResponse)
    requires
        q < nodes.len(),
        doc_ok(nodes@, ks@),
    ensures
        final(acc)@ == spec_merge_prop(nodes_view(nodes@), q as int, old(acc)@),
{
    let ghost ns = nodes_view(nodes@);
    let ghost start = acc@;
    let list = &ks[q];
    proof {
        lemma_kids_bounds(ns, q as int);
    }
    let mut i: usize = 0;
    while i < list.len()
        invariant
            i <= list@.len(),
            ns == nodes_view(nodes@),
            doc_ok(nodes@, ks@),
            list@ == kids(ns, q as int),
            forall|m: int| 0 <= m < list@.len() ==> #[trigger] list@[m] < nodes@.len(),
            acc@ == merge_upto(ns, list@, i as int, start),
        decreases list.len() - i,
    {
        merge_child(nodes, ks, list[i], acc);
        i += 1;
    }
}

/// A child of `<response>`: a `<propstat>` records its status (where none is recorded yet)
/// and, unless that status is 400 or more, merges its `<prop>` children.
pub open spec fn propstat_step(ns: Seq<XmlNodeView>, c: int, acc: DavResponseView) -> DavResponseView {
    if !named(ns[c], "propstat"@) {
        acc
    } else {
        let status = match child_raw_text_from(ns, kids(ns, c), 0, "status"@) {
            Some(t) => spec_parse_http_status(t),
            None => None,
        };
        let acc1 = if acc.status is None {
            DavResponseView { status, ..acc }
        } else {
            acc
        };
        if status matches Some(s) && s >= 400 {
            acc1
        } else {
            props_upto(ns, kids(ns, c), kids(ns, c).len() as int, acc1)
        }
    }
}

/// A `<prop>` child is merged; other children are passed over.
pub open spec fn prop_step(ns: Seq<XmlNodeView>, q: int, acc: DavResponseView) -> DavResponseView {
    if named(ns[q], "prop"@) {
        spec_merge_prop(ns, q, acc)
    } else {
        acc
    }
}

pub open spec fn props_upto(ns: Seq<XmlNodeView>, list: Seq<usize>, n: int, acc: DavResponseView) -> DavResponseView
    decreases n,
{
    if n <= 0 {
        acc
    } else {
        prop_step(ns, list[n - 1] as int, props_upto(ns, list, n - 1, acc))
    }
}

pub open spec fn propstats_upto(ns: Seq<XmlNodeView>, list: Seq<usize>, n: int, acc: DavResponseView) -> DavResponseView
    decreases n,
{
    if n <= 0 {
        acc
    } else {
        propstat_step(ns, list[n - 1] as int, propstats_upto(ns, list, n - 1, acc))
    }
}

/// A `<response>`: its first `href` child, then its `propstat` children, then the `prop`
/// children that some servers put directly under it.
pub open spec fn spec_parse_response(ns: Seq<XmlNodeView>, r: int) -> DavResponseView {
    let list = kids(ns, r);
    let href = text_or_empty(child_text_from(ns, list, 0, "href"@));
    let acc = propstats_upto(ns, list, list.len() as int, bare_response(href));
    props_upto(ns, list, list.len() as int, acc)
}

fn props_of(nodes: &Vec<XmlNode>, ks: &Vec<Vec<usize>>, c: usize, acc: &mut DavResponse)
    requires
        c < nodes.len(),
        doc_ok(nodes@, ks@),
    ensures
        final(acc)@ == props_upto(
            nodes_view(nodes@),
            kids(nodes_view(nodes@), c as int),
            kids(nodes_view(nodes@), c as int).len() as int,
            old(acc)@,
        ),
{
    let ghost ns = nodes_view(nodes@);
    let ghost start = acc@;
    let list = &ks[c];
    proof {
        lemma_kids_bounds(ns, c as int);
    }
    let mut i: usize = 0;
    while i < list.len()
        invariant
            i <= list@.len(),
            ns == nodes_view(nodes@),
            doc_ok(nodes@, ks@),
            list@ == kids(ns, c as int),
            forall|m: int| 0 <= m < list@.len() ==> #[trigger] list@[m] < nodes@.len(),
            acc@ == props_upto(ns, list@, i as int, start),
        decreases list.len() - i,
    {
        let q = list[i];
        if name_is(nodes, q, "prop") {
            merge_prop(nodes, ks, q, acc);
        }
        i += 1;
    }
}

fn propstat(nodes: &Vec<XmlNode>, ks: &Vec<Vec<usize>>, c: usize, acc: &mut DavResponse)
    requires
        c < nodes.len(),
        doc_ok(nodes@, ks@),
    ensures
        final(acc)@ == propstat_step(nodes_view(nodes@), c as int, old(acc)@),
{
    if !name_is(nodes, c, "propstat") {
        return;
    }
    let status = match child_raw_text(nodes, ks, c, "status") {
        Some(t) => parse_http_status(&t),
        None => None,
    };
    if acc.status.is_none() {
        acc.status = status;
    }
    match status {
        Some(s) => {
            if s >= 400 {
                return;
            }
        },
        None => {},
    }
    props_of(nodes, ks, c, acc);
}

fn parse_response(nodes: &Vec<XmlNode>, ks: &Vec<Vec<usize>>, r: usize) -> (d: DavResponse)
    requires
        r < nodes.len(),
        doc_ok(nodes@, ks@),
    ensures
        d@ == spec_parse_response(nodes_view(nodes@), r as int),
{
    let ghost ns = nodes_view(nodes@);
    let href = match child_text(nodes, ks, r, "href") {
        Some(t) => string_of(&t),
        None => String::new(),
    };
    let mut acc = DavResponse::default();
    acc.href = href;
    let ghost start = acc@;
    assert(start == bare_response(text_or_empty(child_text_from(ns, kids(ns, r as int), 0, "href"@))));
    let list = &ks[r];
    proof {
        lemma_kids_bounds(ns, r as int);
    }
    let mut i: usize = 0;
    while i < list.len()
        invariant
            i <= list@.len(),
            ns == nodes_view(nodes@),
            doc_ok(nodes@, ks@),
            list@ == kids(ns, r as int),
            forall|m: int| 0 <= m < list@.len() ==> #[trigger] list@[m] < nodes@.len(),
            acc@ == propstats_upto(ns, list@, i as int, start),
        decreases list.len() - i,
    {
        propstat(nodes, ks, list[i], &mut acc);
        i += 1;
    }
    props_of(nodes, ks, r, &mut acc);
    acc
}


// ---------------------------------------------------------------------------
// the document

/// The text without its leading byte-order marks.
pub open spec fn without_bom(s: Seq<char>) -> Seq<char> {
    s.subrange(skip_char(s, '\u{feff}', 0), s.len() as int)
}

/// The first element among `list[i..]`.
pub open spec fn first_element_from(ns: Seq<XmlNodeView>, list: Seq<usize>, i: int) -> Option<int>
    decreases list.len() - i,
{
    if i < 0 || i >= list.len() {
        None
    } else if ns[list[i] as int].is_element {
        Some(list[i] as int)
    } else {
        first_element_from(ns, list, i + 1)
    }
}

/// The `<response>` children among `list[..n]`, parsed, in order.
pub open spec fn responses_upto(ns: Seq<XmlNodeView>, list: Seq<usize>, n: int) -> Seq<DavResponseView>
    decreases n,
{
    if n <= 0 {
        Seq::empty()
    } else {
        let rest = responses_upto(ns, list, n - 1);
        if named(ns[list[n - 1] as int], "response"@) {
            rest.push(spec_parse_response(ns, list[n - 1] as int))
        } else {
            rest
        }
    }
}

pub open spec fn responses_view(v: Seq<DavResponse>) -> Seq<DavResponseView> {
    v.map_values(|d: DavResponse| d@)
}

/// A `multistatus` document (byte-order marks before it aside): the parsed `<response>`
/// children of its root element, or the message of the error.
pub open spec fn spec_parse_multistatus(xml: Seq<char>) -> Result<Seq<DavResponseView>, Seq<char>> {
    match xml_parse(without_bom(xml)) {
        Err(m) => Err(m),
        Ok(ns) => match first_element_from(ns, kids(ns, 0), 0) {
            None => Err("documento XML sin elemento raíz"@),
            Some(root) => if !named(ns[root], "multistatus"@) {
                Err("se esperaba multistatus DAV, se obtuvo <"@ + ns[root].name + ">"@)
            } else {
                let list = kids(ns, root);
                Ok(responses_upto(ns, list, list.len() as int))
            },
        },
    }
}

/// Parses a `multistatus` document; anything else is a protocol error.
pub fn parse_multistatus(xml: &str) -> (r: Result<Vec<DavResponse>, CardDavError>)
    ensures
        match spec_parse_multistatus(xml@) {
            Ok(v) => r matches Ok(x) && responses_view(x@) == v,
            Err(m) => r matches Err(CardDavError::Protocol(e)) && e@ == m,
        },
{
    let x = chars_of(xml);
    let mut a: usize = 0;
    while a < x.len() && x[a] == '\u{feff}'
        invariant
            a <= x@.len(),
            skip_char(x@, '\u{feff}', 0) == skip_char(x@, '\u{feff}', a as int),
        decreases x.len() - a,
    {
        a += 1;
    }
    let body = string_of(&copy_range(&x, a, x.len()));
    let nodes = match parse_xml_nodes(body.as_str()) {
        Ok(v) => v,
        Err(e) => {
            return Err(CardDavError::Protocol(e));
        },
    };
    let ghost ns = nodes_view(nodes@);
    if nodes.len() == 0 {
        assert(kids(ns, 0) =~= Seq::<usize>::empty());
        return Err(CardDavError::Protocol(String::from_str("documento XML sin elemento raíz")));
    }
    let ks = build_kids(&nodes);
    assert(doc_ok(nodes@, ks@));
    let top = &ks[0];
    proof {
        lemma_kids_bounds(ns, 0);
    }
    let mut i: usize = 0;
    let mut root: usize = 0;
    let mut found = false;
    while i < top.len()
        invariant_except_break
            i <= top@.len(),
            ns == nodes_view(nodes@),
            top@ == kids(ns, 0),
            forall|m: int| 0 <= m < top@.len() ==> #[trigger] top@[m] < nodes@.len(),
            first_element_from(ns, top@, 0) == first_element_from(ns, top@, i as int),
            !found,
        ensures
            found ==> first_element_from(ns, top@, 0) == Some(root as int) && root < nodes@.len(),
            !found ==> first_element_from(ns, top@, 0) is None,
        decreases top.len() - i,
    {
        let c = top[i];
        assert(ns[c as int] == nodes@[c as int]@);
        if nodes[c].is_element {
            root = c;
            found = true;
            break;
        }
        i += 1;
    }
    if !found {
        return Err(CardDavError::Protocol(String::from_str("documento XML sin elemento raíz")));
    }
    if !name_is(&nodes, root, "multistatus") {
        assert(ns[root as int] == nodes@[root as int]@);
        let mut msg = chars_of("se esperaba multistatus DAV, se obtuvo <");
        let nm = chars_of(nodes[root].name.as_str());
        extend_chars(&mut msg, &nm);
        msg.push('>');
        proof {
            reveal_strlit(">");
        }
        assert(msg@ =~= "se esperaba multistatus DAV, se obtuvo <"@ + ns[root as int].name + ">"@);
        return Err(CardDavError::Protocol(string_of(&msg)));
    }
    let list = &ks[root];
    proof {
        lemma_kids_bounds(ns, root as int);
    }
    let mut out: Vec<DavResponse> = Vec::new();
    let mut j: usize = 0;
    while j < list.len()
        invariant
            j <= list@.len(),
            ns == nodes_view(nodes@),
            doc_ok(nodes@, ks@),
            list@ == kids(ns, root as int),
            forall|m: int| 0 <= m < list@.len() ==> #[trigger] list@[m] < nodes@.len(),
            responses_view(out@) == responses_upto(ns, list@, j as int),
        decreases list.len() - j,
    {
        let c = list[j];
        if name_is(&nodes, c, "response") {
            let d = parse_response(&nodes, &ks, c);
            out.push(d);
            assert(responses_view(out@) =~= responses_upto(ns, list@, j as int).push(d@));
        }
        j += 1;
    }
    Ok(out)
}

/// A listed object looks like a vCard: not a collection, an href that does not end with
/// `/`, and a content type that names vCard, or an href ending `.vcf` / `.vcard`, or no
/// content type at all (ASCII case aside).
pub open spec fn spec_looks_like_vcard(r: DavResponseView) -> bool {
    if r.is_collection || r.is_addressbook {
        false
    } else if r.href.len() == 0 || ends_with(r.href, "/"@) {
        false
    } else {
        let ct = lower_seq(text_or_empty(r.content_type));
        if contains(ct, "vcard"@) {
            true
        } else {
            let h = lower_seq(r.href);
            ends_with(h, ".vcf"@) || ends_with(h, ".vcard"@) || ct.len() == 0
        }
    }
}

/// An object whose content type names vCard (ASCII case aside) is taken for a vCard
/// whatever its href's extension, as long as it is no collection and its href is not
/// empty and does not end with `/`; and two such objects that differ only in their href
/// are judged alike.
pub proof fn law_vcard_content_type_decides(r: DavResponseView, other_href: Seq<char>)
    requires
        !r.is_collection,
        !r.is_addressbook,
        r.href.len() > 0,
        !ends_with(r.href, "/"@),
        other_href.len() > 0,
        !ends_with(other_href, "/"@),
        r.content_type matches Some(ct) && contains(lower_seq(ct), "vcard"@),
    ensures
        spec_looks_like_vcard(r),
        spec_looks_like_vcard(DavResponseView { href: other_href, ..r }),
{
}

pub fn looks_like_vcard(resp: &DavResponse) -> (b: bool)
    ensures
        b == spec_looks_like_vcard(resp@),
{
    if resp.is_collection || resp.is_addressbook {
        return false;
    }
    let href = chars_of(resp.href.as_str());
    let slash = chars_of("/");
    if href.len() == 0 || ends_with_chars(&href, &slash) {
        return false;
    }
    let ct_raw = match &resp.content_type {
        Some(c) => chars_of(c.as_str()),
        None => Vec::new(),
    };
    let ct = lower(&ct_raw);
    if contains_chars(&ct, &chars_of("vcard")) {
        return true;
    }
    let h = lower(&href);
    ends_with_chars(&h, &chars_of(".vcf")) || ends_with_chars(&h, &chars_of(".vcard"))
        || ct.len() == 0
}

/// PROPFIND body asking for `current-user-principal`.
pub fn propfind_current_user_principal() -> (r: &'static str)
    ensures
        r@ == "<?xml version=\"1.0\" encoding=\"utf-8\"?>\n<d:propfind xmlns:d=\"DAV:\">\n  <d:prop>\n    <d:current-user-principal/>\n  </d:prop>\n</d:propfind>"@,
{
    "<?xml version=\"1.0\" encoding=\"utf-8\"?>\n<d:propfind xmlns:d=\"DAV:\">\n  <d:prop>\n    <d:current-user-principal/>\n  </d:prop>\n</d:propfind>"
}

/// PROPFIND body asking for `addressbook-home-set`.
pub fn propfind_addressbook_home_set() -> (r: &'static str)
    ensures
        r@ == "<?xml version=\"1.0\" encoding=\"utf-8\"?>\n<d:propfind xmlns:d=\"DAV:\" xmlns:c=\"urn:ietf:params:xml:ns:carddav\">\n  <d:prop>\n    <c:addressbook-home-set/>\n  </d:prop>\n</d:propfind>"@,
{
    "<?xml version=\"1.0\" encoding=\"utf-8\"?>\n<d:propfind xmlns:d=\"DAV:\" xmlns:c=\"urn:ietf:params:xml:ns:carddav\">\n  <d:prop>\n    <c:addressbook-home-set/>\n  </d:prop>\n</d:propfind>"
}

/// PROPFIND body listing a collection.
pub fn propfind_collection() -> (r: &'static str)
    ensures
        r@ == "<?xml version=\"1.0\" encoding=\"utf-8\"?>\n<d:propfind xmlns:d=\"DAV:\" xmlns:c=\"urn:ietf:params:xml:ns:carddav\">\n  <d:prop>\n    <d:displayname/>\n    <d:resourcetype/>\n    <d:getetag/>\n    <d:getcontenttype/>\n    <c:addressbook-description/>\n  </d:prop>\n</d:propfind>"@,
{
    "<?xml version=\"1.0\" encoding=\"utf-8\"?>\n<d:propfind xmlns:d=\"DAV:\" xmlns:c=\"urn:ietf:params:xml:ns:carddav\">\n  <d:prop>\n    <d:displayname/>\n    <d:resourcetype/>\n    <d:getetag/>\n    <d:getcontenttype/>\n    <c:addressbook-description/>\n  </d:prop>\n</d:propfind>"
}

/// PROPFIND body asking for the collection's CTag, sync-token and ETag.
pub fn propfind_sync_state() -> (r: &'static str)
    ensures
        r@ == "<?xml version=\"1.0\" encoding=\"utf-8\"?>\n<d:propfind xmlns:d=\"DAV:\" xmlns:cs=\"http://calendarserver.org/ns/\">\n  <d:prop>\n    <cs:getctag/>\n    <d:sync-token/>\n    <d:getetag/>\n  </d:prop>\n</d:propfind>"@,
{
    "<?xml version=\"1.0\" encoding=\"utf-8\"?>\n<d:propfind xmlns:d=\"DAV:\" xmlns:cs=\"http://calendarserver.org/ns/\">\n  <d:prop>\n    <cs:getctag/>\n    <d:sync-token/>\n    <d:getetag/>\n  </d:prop>\n</d:propfind>"
}

} // verus!
