//! A small XML reader for the Apple plist documents that FlexColor embeds:
//! elements with their children, text content with the five predefined
//! entities decoded, declarations and comments skipped. Reading stops at a
//! closing tag that does not belong to an open element, or where a tag is
//! never closed.

use vstd::prelude::*;
use crate::text::{is_ws, is_whitespace, occurs_at, slice_vec, str_equals, string_from_chars, trim, trim_range};
use crate::xml_text::{find_first, first_at, replace_all, replace_all_chars};
use crate::text::chars_of;

verus! {

/// A node of a parsed document.
#[derive(Debug)]
pub enum XmlNode {
    Element { name: String, children: Vec<XmlNode> },
    Text(String),
}

/// Model of `XmlNode`.
pub enum XNode {
    Element(Seq<char>, Seq<XNode>),
    Text(Seq<char>),
}

pub open spec fn nview(n: XmlNode) -> XNode
    decreases n,
{
    match n {
        XmlNode::Element { name, children } => XNode::Element(
            name@,
            Seq::new(children@.len(), |i: int| if 0 <= i < children@.len() { nview(children@[i]) } else { XNode::Text(seq![]) }),
        ),
        XmlNode::Text(t) => XNode::Text(t@),
    }
}

pub open spec fn nodes_view(v: Seq<XmlNode>) -> Seq<XNode> {
    v.map_values(|n: XmlNode| nview(n))
}

pub proof fn lemma_element_view(r: XmlNode, nm: Seq<char>, ks: Seq<XmlNode>)
    requires
        r matches XmlNode::Element { name, children } && name@ == nm && children@ == ks,
    ensures
        nview(r) == XNode::Element(nm, nodes_view(ks)),
{
    if let XNode::Element(n2, k2) = nview(r) {
        assert(k2 =~= nodes_view(ks));
    }
}

proof fn lemma_push_view(v: Seq<XmlNode>, x: XmlNode)
    ensures
        nodes_view(v.push(x)) == nodes_view(v).push(nview(x)),
{
    assert(nodes_view(v.push(x)) =~= nodes_view(v).push(nview(x)));
}

// ─── Lexical helpers ───────────────────────────────────────────────────────

/// The first position at or after `from` holding `c`.
pub open spec fn first_char_at(s: Seq<char>, c: char, from: int) -> Option<int>
    decreases s.len() - from,
{
    if from < 0 || from >= s.len() {
        None
    } else if s[from] == c {
        Some(from)
    } else {
        first_char_at(s, c, from + 1)
    }
}

/// `t[..j]` without its trailing slashes: the new end.
pub open spec fn slash_end(t: Seq<char>, j: int) -> int
    decreases j,
{
    if 0 < j <= t.len() && t[j - 1] == '/' { slash_end(t, j - 1) } else { j }
}

/// The first position at or after `i` that is not whitespace.
pub open spec fn ws_end(t: Seq<char>, i: int) -> int
    decreases t.len() - i,
{
    if 0 <= i < t.len() && is_ws(t[i]) { ws_end(t, i + 1) } else { i }
}

/// The first position at or after `i` that is whitespace (or the end).
pub open spec fn token_end(t: Seq<char>, i: int) -> int
    decreases t.len() - i,
{
    if 0 <= i < t.len() && !is_ws(t[i]) { token_end(t, i + 1) } else { i }
}

/// The first whitespace-separated word of `t` (empty when there is none).
pub open spec fn first_token(t: Seq<char>) -> Seq<char> {
    let a = ws_end(t, 0);
    t.subrange(a, token_end(t, a))
}

/// The name in a self-closing tag's text: trailing slashes removed, then
/// surrounding whitespace.
pub open spec fn self_closing_name(t: Seq<char>) -> Seq<char> {
    trim(t.subrange(0, slash_end(t, t.len() as int)))
}

/// `&amp;`, `&lt;`, `&gt;`, `&quot;` and `&apos;` replaced, in that order,
/// each replacement over the whole text.
pub open spec fn decode_entities(t: Seq<char>) -> Seq<char> {
    replace_all(
        replace_all(
            replace_all(
                replace_all(replace_all(t, seq!['&', 'a', 'm', 'p', ';'], seq!['&']), seq!['&', 'l', 't', ';'], seq!['<']),
                seq!['&', 'g', 't', ';'],
                seq!['>'],
            ),
            seq!['&', 'q', 'u', 'o', 't', ';'],
            seq!['"'],
        ),
        seq!['&', 'a', 'p', 'o', 's', ';'],
        seq!['\''],
    )
}

/// The closing tag of `name`.
pub open spec fn close_of(name: Seq<char>) -> Seq<char> {
    seq!['<', '/'] + name + seq!['>']
}

/// The children of an element whose content holds no markup: its trimmed
/// text, decoded, or nothing when that is empty.
pub open spec fn text_children(inner: Seq<char>) -> Seq<XNode> {
    let t = trim(inner);
    if t.len() == 0 { seq![] } else { seq![XNode::Text(decode_entities(t))] }
}

/// Reads nodes from `pos` until a closing tag or the end of `s`, after the
/// nodes `acc` already read: the nodes and the position where reading
/// stopped. Characters outside tags are skipped; declarations (`<?`) and
/// comments or doctypes (`<!`) are skipped up to the next `>`. An element
/// whose matching closing tag follows its content gets that content as
/// children (a text child when the content holds no `<`); otherwise it keeps
/// the children read and reading goes on where they stopped.
pub open spec fn frag(s: Seq<char>, pos: int, acc: Seq<XNode>) -> (Seq<XNode>, int)
    decreases s.len() - pos,
{
    if pos < 0 || pos >= s.len() {
        (acc, pos)
    } else if s[pos] != '<' {
        frag(s, pos + 1, acc)
    } else if pos + 1 < s.len() && s[pos + 1] == '/' {
        (acc, pos)
    } else {
        match first_char_at(s, '>', pos) {
            None => (acc, pos),
            Some(te) => {
                if te < pos || te >= s.len() {
                    (acc, pos)
                } else if pos + 1 < s.len() && (s[pos + 1] == '?' || s[pos + 1] == '!') {
                    frag(s, te + 1, acc)
                } else {
                    let content = s.subrange(pos + 1, te);
                    if content.len() > 0 && content.last() == '/' {
                        frag(s, te + 1, acc.push(XNode::Element(self_closing_name(content), seq![])))
                    } else {
                        let name = first_token(content);
                        let cs = te + 1;
                        let sub = frag(s, cs, seq![]);
                        let ce = if sub.1 < cs { cs } else if sub.1 > s.len() { s.len() as int } else { sub.1 };
                        let close = close_of(name);
                        if occurs_at(s, close, ce) {
                            let inner = s.subrange(cs, ce);
                            let kids = if sub.0.len() == 0 && !inner.contains('<') { text_children(inner) } else { sub.0 };
                            frag(s, ce + close.len(), acc.push(XNode::Element(name, kids)))
                        } else {
                            frag(s, ce, acc.push(XNode::Element(name, sub.0)))
                        }
                    }
                }
            },
        }
    }
}

proof fn lemma_first_char_bounds(s: Seq<char>, c: char, from: int)
    ensures
        first_char_at(s, c, from) matches Some(i) ==> from <= i < s.len() && s[i] == c,
    decreases s.len() - from,
{
    if 0 <= from < s.len() && s[from] != c {
        lemma_first_char_bounds(s, c, from + 1);
    }
}

proof fn lemma_frag_end(s: Seq<char>, pos: int, acc: Seq<XNode>)
    requires
        0 <= pos <= s.len(),
    ensures
        pos <= frag(s, pos, acc).1 <= s.len(),
    decreases s.len() - pos,
{
    if pos < s.len() {
        if s[pos] != '<' {
            lemma_frag_end(s, pos + 1, acc);
        } else if !(pos + 1 < s.len() && s[pos + 1] == '/') {
            lemma_first_char_bounds(s, '>', pos);
            match first_char_at(s, '>', pos) {
                None => {},
                Some(te) => {
                    if pos + 1 < s.len() && (s[pos + 1] == '?' || s[pos + 1] == '!') {
                        lemma_frag_end(s, te + 1, acc);
                    } else {
                        let content = s.subrange(pos + 1, te);
                        if content.len() > 0 && content.last() == '/' {
                            lemma_frag_end(s, te + 1, acc.push(XNode::Element(self_closing_name(content), seq![])));
                        } else {
                            let name = first_token(content);
                            let cs = te + 1;
                            let sub = frag(s, cs, seq![]);
                            let ce = if sub.1 < cs { cs } else if sub.1 > s.len() { s.len() as int } else { sub.1 };
                            let close = close_of(name);
                            if occurs_at(s, close, ce) {
                                let inner = s.subrange(cs, ce);
                                let kids = if sub.0.len() == 0 && !inner.contains('<') { text_children(inner) } else { sub.0 };
                                lemma_frag_end(s, ce + close.len(), acc.push(XNode::Element(name, kids)));
                            } else {
                                lemma_frag_end(s, ce, acc.push(XNode::Element(name, sub.0)));
                            }
                        }
                    }
                },
            }
        }
    }
}

// ─── Executable reader ─────────────────────────────────────────────────────

fn find_char(s: &Vec<char>, c: char, from: usize) -> (r: Option<usize>)
    requires
        from <= s@.len(),
    ensures
        match r {
            Some(i) => first_char_at(s@, c, from as int) == Some(i as int) && from <= i < s@.len(),
            None => first_char_at(s@, c, from as int) is None,
        },
{
    let mut i = from;
    while i < s.len()
        invariant
            from <= i <= s@.len(),
            first_char_at(s@, c, from as int) == first_char_at(s@, c, i as int),
        decreases s@.len() - i,
    {
        if s[i] == c {
            return Some(i);
        }
        i = i + 1;
    }
    None
}

fn self_closing_name_exec(t: &Vec<char>) -> (r: String)
    ensures
        r@ == self_closing_name(t@),
{
    let mut j = t.len();
    while j > 0 && t[j - 1] == '/'
        invariant
            j <= t@.len(),
            slash_end(t@, t@.len() as int) == slash_end(t@, j as int),
        decreases j,
    {
        j = j - 1;
    }
    assert(slash_end(t@, j as int) == j);
    let (a, b) = trim_range(t.as_slice(), 0, j);
    string_from_chars(t.as_slice(), a, b)
}

fn first_token_exec(t: &Vec<char>) -> (r: String)
    ensures
        r@ == first_token(t@),
{
    let mut a: usize = 0;
    while a < t.len() && is_whitespace(t[a])
        invariant
            a <= t@.len(),
            ws_end(t@, 0) == ws_end(t@, a as int),
        decreases t@.len() - a,
    {
        a = a + 1;
    }
    let mut b = a;
    while b < t.len() && !is_whitespace(t[b])
        invariant
            a <= b <= t@.len(),
            token_end(t@, a as int) == token_end(t@, b as int),
        decreases t@.len() - b,
    {
        b = b + 1;
    }
    string_from_chars(t.as_slice(), a, b)
}

fn decode_entities_exec(t: &[char]) -> (r: String)
    ensures
        r@ == decode_entities(t@),
{
    let amp = ['&', 'a', 'm', 'p', ';'];
    let lt = ['&', 'l', 't', ';'];
    let gt = ['&', 'g', 't', ';'];
    let quot = ['&', 'q', 'u', 'o', 't', ';'];
    let apos = ['&', 'a', 'p', 'o', 's', ';'];
    assert(amp@ == seq!['&', 'a', 'm', 'p', ';']);
    assert(lt@ == seq!['&', 'l', 't', ';']);
    assert(gt@ == seq!['&', 'g', 't', ';']);
    assert(quot@ == seq!['&', 'q', 'u', 'o', 't', ';']);
    assert(apos@ == seq!['&', 'a', 'p', 'o', 's', ';']);
    let a = replace_all_chars(t, amp.as_slice(), '&');
    let b = replace_all_chars(a.as_slice(), lt.as_slice(), '<');
    let c = replace_all_chars(b.as_slice(), gt.as_slice(), '>');
    let d = replace_all_chars(c.as_slice(), quot.as_slice(), '"');
    let e = replace_all_chars(d.as_slice(), apos.as_slice(), '\'');
    string_from_chars(e.as_slice(), 0, e.len())
}

fn contains_lt(s: &Vec<char>, lo: usize, hi: usize) -> (r: bool)
    requires
        lo <= hi <= s@.len(),
    ensures
        r == s@.subrange(lo as int, hi as int).contains('<'),
{
    let ghost inner = s@.subrange(lo as int, hi as int);
    let mut i = lo;
    while i < hi
        invariant
            lo <= i <= hi <= s@.len(),
            inner == s@.subrange(lo as int, hi as int),
            forall|k: int| lo <= k < i ==> s@[k] != '<',
        decreases hi - i,
    {
        if s[i] == '<' {
            assert(inner[i - lo] == '<');
            return true;
        }
        i = i + 1;
    }
    assert forall|k: int| 0 <= k < inner.len() implies inner[k] != '<' by {
        assert(inner[k] == s@[lo + k]);
    }
    false
}

fn close_matches(s: &Vec<char>, name: &String, at: usize) -> (r: bool)
    requires
        at <= s@.len(),
    ensures
        r == occurs_at(s@, close_of(name@), at as int),
{
    let nm = crate::text::chars_of(name.as_str());
    let n = nm.len();
    if s.len() - at < 3 || s.len() - at - 3 < n {
        return false;
    }
    if s[at] != '<' || s[at + 1] != '/' || s[at + n + 2] != '>' {
        assert(s@.subrange(at as int, at + n + 3)[0] == s@[at as int]);
        assert(s@.subrange(at as int, at + n + 3)[1] == s@[at + 1]);
        assert(s@.subrange(at as int, at + n + 3)[n + 2] == s@[at + n + 2]);
        return false;
    }
    let mut k: usize = 0;
    while k < n
        invariant
            k <= n,
            n == nm@.len(),
            nm@ == name@,
            at + n + 3 <= s@.len(),
            s@.len() == s.len(),
            forall|m: int| 0 <= m < k ==> s@[at + 2 + m] == nm@[m],
        decreases n - k,
    {
        if s[at + 2 + k] != nm[k] {
            assert(s@.subrange(at as int, at + n + 3)[k + 2] == s@[at + 2 + k]);
            return false;
        }
        k = k + 1;
    }
    assert(s@.subrange(at as int, at + n + 3) =~= close_of(name@));
    true
}

/// Reads nodes from `start`, as `frag`.
fn parse_fragment(s: &Vec<char>, start: usize) -> (r: (Vec<XmlNode>, usize))
    requires
        start <= s@.len(),
    ensures
        nodes_view(r.0@) == frag(s@, start as int, seq![]).0,
        r.1 == frag(s@, start as int, seq![]).1,
    decreases s@.len() - start,
{
    let mut nodes: Vec<XmlNode> = Vec::new();
    let mut pos = start;
    assert(nodes_view(nodes@) =~= seq![]);
    while pos < s.len()
        invariant
            start <= pos <= s@.len(),
            frag(s@, pos as int, nodes_view(nodes@)) == frag(s@, start as int, seq![]),
        decreases s@.len() - pos,
    {
        let ghost acc = nodes_view(nodes@);
        if s[pos] != '<' {
            pos = pos + 1;
            continue;
        }
        if pos + 1 < s.len() && s[pos + 1] == '/' {
            return (nodes, pos);
        }
        proof {
            lemma_first_char_bounds(s@, '>', pos as int);
        }
        let te = match find_char(s, '>', pos) {
            Some(te) => te,
            None => {
                return (nodes, pos);
            },
        };
        if pos + 1 < s.len() && (s[pos + 1] == '?' || s[pos + 1] == '!') {
            pos = te + 1;
            continue;
        }
        let content = slice_vec(s.as_slice(), pos + 1, te);
        if content.len() > 0 && content[content.len() - 1] == '/' {
            let name = self_closing_name_exec(&content);
            let node = XmlNode::Element { name, children: Vec::new() };
            proof {
                lemma_element_view(node, self_closing_name(content@), seq![]);
                assert(nodes_view(seq![]) =~= seq![]);
                lemma_push_view(nodes@, node);
            }
            nodes.push(node);
            pos = te + 1;
            continue;
        }
        let name = first_token_exec(&content);
        let cs = te + 1;
        let (kids, sub_end) = parse_fragment(s, cs);
        proof {
            lemma_frag_end(s@, cs as int, seq![]);
        }
        let ce = sub_end;
        let ghost kv = nodes_view(kids@);
        let nm_len = crate::text::chars_of(name.as_str()).len();
        if close_matches(s, &name, ce) {
            let ghost nm = name@;
            let ghost inner = s@.subrange(cs as int, ce as int);
            let no_kids = kids.len() == 0;
            let kids2: Vec<XmlNode> = if no_kids && !contains_lt(s, cs, ce) {
                let (a, b) = trim_range(s.as_slice(), cs, ce);
                if a == b {
                    let e: Vec<XmlNode> = Vec::new();
                    assert(nodes_view(e@) =~= text_children(inner));
                    e
                } else {
                    let tv = slice_vec(s.as_slice(), a, b);
                    let t = decode_entities_exec(tv.as_slice());
                    let one = vec![XmlNode::Text(t)];
                    assert(nodes_view(one@) =~= text_children(inner));
                    one
                }
            } else {
                kids
            };
            assert(nodes_view(kids2@) == (if kv.len() == 0 && !inner.contains('<') { text_children(inner) } else { kv }));
            let ghost ks2 = kids2@;
            let node = XmlNode::Element { name, children: kids2 };
            proof {
                lemma_element_view(node, nm, ks2);
                lemma_push_view(nodes@, node);
            }
            nodes.push(node);
            pos = ce + nm_len + 3;
        } else {
            let ghost nm = name@;
            let ghost ks = kids@;
            let node = XmlNode::Element { name, children: kids };
            proof {
                lemma_element_view(node, nm, ks);
                lemma_push_view(nodes@, node);
            }
            nodes.push(node);
            pos = ce;
        }
    }
    (nodes, pos)
}

// ─── Whole documents and queries ───────────────────────────────────────────

/// The nodes of a plist document, read from its `<plist` tag on (from the
/// start when there is none).
pub open spec fn plist_nodes(x: Seq<char>) -> Seq<XNode> {
    let body = match first_at(x, seq!['<', 'p', 'l', 'i', 's', 't'], 0) {
        Some(i) => x.subrange(i, x.len() as int),
        None => x,
    };
    frag(body, 0, seq![]).0
}

/// Reads the nodes of a plist document.
pub fn parse_plist_nodes(xml: &str) -> (r: Vec<XmlNode>)
    ensures
        nodes_view(r@) == plist_nodes(xml@),
{
    let v = chars_of(xml);
    let pat = ['<', 'p', 'l', 'i', 's', 't'];
    assert(pat@ == seq!['<', 'p', 'l', 'i', 's', 't']);
    let body = match find_first(v.as_slice(), pat.as_slice(), 0) {
        Some(i) => slice_vec(v.as_slice(), i, v.len()),
        None => v,
    };
    let (nodes, _) = parse_fragment(&body, 0);
    nodes
}

/// The first element named `name`, in document order (an element before its
/// children, children before later siblings).
pub open spec fn find_elem(ns: Seq<XNode>, name: Seq<char>) -> Option<XNode>
    decreases ns,
{
    if ns.len() == 0 {
        None
    } else {
        match ns[0] {
            XNode::Element(n, kids) => {
                if n == name {
                    Some(ns[0])
                } else {
                    match find_elem(kids, name) {
                        Some(x) => Some(x),
                        None => find_elem(ns.subrange(1, ns.len() as int), name),
                    }
                }
            },
            XNode::Text(_) => find_elem(ns.subrange(1, ns.len() as int), name),
        }
    }
}

pub proof fn lemma_children_view(n: XmlNode)
    ensures
        n matches XmlNode::Element { name, children } ==> nview(n) == XNode::Element(name@, nodes_view(children@)),
{
    if let XmlNode::Element { name, children } = n {
        lemma_element_view(n, name@, children@);
    }
}

proof fn lemma_find_elem_skip(ns: Seq<XNode>, i: int, name: Seq<char>)
    requires
        0 <= i < ns.len(),
    ensures
        find_elem(ns.subrange(i, ns.len() as int), name) == (match ns[i] {
            XNode::Element(n, kids) => if n == name {
                Some(ns[i])
            } else {
                match find_elem(kids, name) {
                    Some(x) => Some(x),
                    None => find_elem(ns.subrange(i + 1, ns.len() as int), name),
                }
            },
            XNode::Text(_) => find_elem(ns.subrange(i + 1, ns.len() as int), name),
        }),
{
    let t = ns.subrange(i, ns.len() as int);
    assert(t[0] == ns[i]);
    assert(t.subrange(1, t.len() as int) =~= ns.subrange(i + 1, ns.len() as int));
}

/// Finds the first element named `name`, as `find_elem`.
pub fn find_element<'a>(nodes: &'a Vec<XmlNode>, name: &str) -> (r: Option<&'a XmlNode>)
    ensures
        match r {
            Some(x) => find_elem(nodes_view(nodes@), name@) == Some(nview(*x)),
            None => find_elem(nodes_view(nodes@), name@) is None,
        },
    decreases nodes@,
{
    let ghost nv = nodes_view(nodes@);
    let mut i: usize = 0;
    assert(nv.subrange(0, nv.len() as int) =~= nv);
    while i < nodes.len()
        invariant
            i <= nodes@.len(),
            nv == nodes_view(nodes@),
            find_elem(nv, name@) == find_elem(nv.subrange(i as int, nv.len() as int), name@),
        decreases nodes@.len() - i,
    {
        proof {
            lemma_find_elem_skip(nv, i as int, name@);
            lemma_children_view(nodes@[i as int]);
        }
        let node = &nodes[i];
        match node {
            XmlNode::Element { name: n, children } => {
                if str_equals(n.as_str(), name) {
                    return Some(node);
                }
                proof {
                    assert(decreases_to!(nodes@ => nodes@[i as int]));
                }
                match find_element(children, name) {
                    Some(x) => {
                        return Some(x);
                    },
                    None => {},
                }
            },
            XmlNode::Text(_) => {},
        }
        i = i + 1;
    }
    assert(nv.subrange(i as int, nv.len() as int) =~= seq![]);
    None
}

/// The first text child of a sequence of nodes (empty when there is none).
pub open spec fn first_text(kids: Seq<XNode>) -> Seq<char>
    decreases kids.len(),
{
    if kids.len() == 0 {
        seq![]
    } else {
        match kids[0] {
            XNode::Text(t) => t,
            _ => first_text(kids.subrange(1, kids.len() as int)),
        }
    }
}

/// The text of a node: `true`/`false` for those elements, an element's first
/// text child (empty when it has none), a text node's own text.
pub open spec fn elem_text(n: XNode) -> Seq<char> {
    match n {
        XNode::Element(name, kids) => if name == "true"@ || name == "false"@ { name } else { first_text(kids) },
        XNode::Text(t) => t,
    }
}

/// The name of an element node.
pub open spec fn elem_name(n: XNode) -> Option<Seq<char>> {
    match n {
        XNode::Element(name, _) => Some(name),
        XNode::Text(_) => None,
    }
}

/// The children of an element node (none for a text node).
pub open spec fn elem_children(n: XNode) -> Seq<XNode> {
    match n {
        XNode::Element(_, kids) => kids,
        XNode::Text(_) => seq![],
    }
}

/// The text of a node, as `elem_text`.
pub fn element_text(node: &XmlNode) -> (r: String)
    ensures
        r@ == elem_text(nview(*node)),
{
    proof {
        lemma_children_view(*node);
    }
    match node {
        XmlNode::Element { name, children } => {
            if str_equals(name.as_str(), "true") || str_equals(name.as_str(), "false") {
                return name.clone();
            }
            let ghost kv = nodes_view(children@);
            let mut i: usize = 0;
            assert(kv.subrange(0, kv.len() as int) =~= kv);
            assert(elem_text(nview(*node)) == first_text(kv));
            while i < children.len()
                invariant
                    i <= children@.len(),
                    kv == nodes_view(children@),
                    elem_text(nview(*node)) == first_text(kv),
                    first_text(kv) == first_text(kv.subrange(i as int, kv.len() as int)),
                decreases children@.len() - i,
            {
                let ghost t = kv.subrange(i as int, kv.len() as int);
                assert(t[0] == kv[i as int]);
                assert(t.subrange(1, t.len() as int) =~= kv.subrange(i + 1, kv.len() as int));
                if let XmlNode::Text(t) = &children[i] {
                    assert(kv[i as int] == nview(children@[i as int]));
                    assert(kv[i as int] == XNode::Text(t@));
                    let r = t.clone();
                    assert(r@ == t@);
                    assert(first_text(kv.subrange(i as int, kv.len() as int)) == t@);
                    return r;
                }
                i = i + 1;
            }
            String::new()
        },
        XmlNode::Text(t) => t.clone(),
    }
}

/// Whether a node is an element named `name`.
pub fn is_element_named(node: &XmlNode, name: &str) -> (r: bool)
    ensures
        r == (elem_name(nview(*node)) == Some(name@)),
{
    proof {
        lemma_children_view(*node);
    }
    match node {
        XmlNode::Element { name: n, .. } => str_equals(n.as_str(), name),
        XmlNode::Text(_) => false,
    }
}

/// The children of a node, as `elem_children`.
pub fn children_of(node: &XmlNode) -> (r: &[XmlNode])
    ensures
        nodes_view(r@) == elem_children(nview(*node)),
{
    proof {
        lemma_children_view(*node);
    }
    match node {
        XmlNode::Element { children, .. } => children.as_slice(),
        XmlNode::Text(_) => {
            let e: &[XmlNode] = &[];
            assert(nodes_view(e@) =~= seq![]);
            e
        },
    }
}

} // verus!
