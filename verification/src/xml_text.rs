//! The small XML text layer of the settings files: escaping, unescaping and
//! reading the content of the first `<tag>…</tag>` pair.
//!
//! Escaping turns `&`, `<`, `>` and `"` into `&amp;`, `&lt;`, `&gt;` and
//! `&quot;`; unescaping replaces, in four passes over the whole text, every
//! `&lt;`, then every `&gt;`, every `&quot;` and finally every `&amp;` by the
//! character it stands for. Unescaping undoes escaping.
use vstd::prelude::*;

use crate::text::{find_from, is_first_occurrence, occurs_at, trim, trim_range};

verus! {

/// The escape of one character.
pub open spec fn escape_char(c: char) -> Seq<char> {
    if c == '&' {
        seq!['&', 'a', 'm', 'p', ';']
    } else if c == '<' {
        seq!['&', 'l', 't', ';']
    } else if c == '>' {
        seq!['&', 'g', 't', ';']
    } else if c == '"' {
        seq!['&', 'q', 'u', 'o', 't', ';']
    } else {
        seq![c]
    }
}

/// The escape of a text, character by character.
pub open spec fn escape(s: Seq<char>) -> Seq<char>
    decreases s.len(),
{
    if s.len() == 0 {
        seq![]
    } else {
        escape_char(s[0]) + escape(s.skip(1))
    }
}

/// Every non-overlapping occurrence of `pat` in `s`, leftmost first,
/// replaced by `rep` (`pat` non-empty).
pub open spec fn replace_all(s: Seq<char>, pat: Seq<char>, rep: Seq<char>) -> Seq<char>
    decreases s.len(),
{
    if s.len() == 0 || pat.len() == 0 {
        s
    } else if pat.len() <= s.len() && s.take(pat.len() as int) == pat {
        rep + replace_all(s.skip(pat.len() as int), pat, rep)
    } else {
        seq![s[0]] + replace_all(s.skip(1), pat, rep)
    }
}

/// The escape sequence undone by unescaping pass `k` (0..=3).
pub open spec fn pass_pattern(k: int) -> Seq<char> {
    if k == 0 {
        seq!['&', 'l', 't', ';']
    } else if k == 1 {
        seq!['&', 'g', 't', ';']
    } else if k == 2 {
        seq!['&', 'q', 'u', 'o', 't', ';']
    } else {
        seq!['&', 'a', 'm', 'p', ';']
    }
}

/// The character restored by unescaping pass `k` (0..=3).
pub open spec fn pass_char(k: int) -> char {
    if k == 0 {
        '<'
    } else if k == 1 {
        '>'
    } else if k == 2 {
        '"'
    } else {
        '&'
    }
}

/// The unescape of a text.
pub open spec fn unescape(s: Seq<char>) -> Seq<char> {
    replace_all(
        replace_all(
            replace_all(replace_all(s, pass_pattern(0), seq![pass_char(0)]), pass_pattern(1), seq![pass_char(1)]),
            pass_pattern(2),
            seq![pass_char(2)],
        ),
        pass_pattern(3),
        seq![pass_char(3)],
    )
}

/// Escapes a text.
pub fn xml_escape(s: &[char]) -> (r: Vec<char>)
    ensures
        r@ == escape(s@),
{
    let mut out: Vec<char> = Vec::new();
    let mut i: usize = 0;
    assert(s@.skip(0) =~= s@);
    assert(out@ + escape(s@.skip(0)) =~= escape(s@));
    while i < s.len()
        invariant
            0 <= i <= s@.len(),
            out@ + escape(s@.skip(i as int)) == escape(s@),
        decreases s@.len() - i,
    {
        let c = s[i];
        proof {
            assert(s@.skip(i as int)[0] == c);
            assert(s@.skip(i as int).skip(1) =~= s@.skip(i + 1));
        }
        let ghost before = out@;
        if c == '&' {
            out.push('&');
            out.push('a');
            out.push('m');
            out.push('p');
            out.push(';');
        } else if c == '<' {
            out.push('&');
            out.push('l');
            out.push('t');
            out.push(';');
        } else if c == '>' {
            out.push('&');
            out.push('g');
            out.push('t');
            out.push(';');
        } else if c == '"' {
            out.push('&');
            out.push('q');
            out.push('u');
            out.push('o');
            out.push('t');
            out.push(';');
        } else {
            out.push(c);
        }
        assert(out@ =~= before + escape_char(c));
        assert(out@ + escape(s@.skip(i + 1)) =~= before + escape(s@.skip(i as int)));
        i = i + 1;
    }
    assert(s@.skip(s@.len() as int) =~= Seq::<char>::empty());
    assert(out@ + escape(s@.skip(i as int)) =~= out@);
    out
}

fn starts_with_at(s: &[char], i: usize, pat: &[char]) -> (r: bool)
    requires
        i <= s@.len(),
    ensures
        r == (pat@.len() <= s@.skip(i as int).len() && s@.skip(i as int).take(pat@.len() as int) == pat@),
{
    if pat.len() > s.len() - i {
        return false;
    }
    let mut k: usize = 0;
    while k < pat.len()
        invariant
            i + pat@.len() <= s@.len(),
            k <= pat@.len(),
            forall|m: int| 0 <= m < k ==> s@[i + m] == pat@[m],
        decreases pat@.len() - k,
    {
        assert(i + k < s@.len() && s@.len() == s.len());
        if s[i + k] != pat[k] {
            assert(s@.skip(i as int).take(pat@.len() as int)[k as int] != pat@[k as int]);
            return false;
        }
        k = k + 1;
    }
    assert(s@.skip(i as int).take(pat@.len() as int) =~= pat@);
    true
}

/// Replaces every non-overlapping occurrence of `pat`, leftmost first, by `rep`.
pub fn replace_all_chars(s: &[char], pat: &[char], rep: char) -> (r: Vec<char>)
    requires
        pat@.len() > 0,
    ensures
        r@ == replace_all(s@, pat@, seq![rep]),
{
    let mut out: Vec<char> = Vec::new();
    let mut i: usize = 0;
    assert(s@.skip(0) =~= s@);
    assert(out@ + replace_all(s@.skip(0), pat@, seq![rep]) =~= replace_all(s@, pat@, seq![rep]));
    while i < s.len()
        invariant
            0 <= i <= s@.len(),
            pat@.len() > 0,
            out@ + replace_all(s@.skip(i as int), pat@, seq![rep]) == replace_all(s@, pat@, seq![rep]),
        decreases s@.len() - i,
    {
        let ghost rest = s@.skip(i as int);
        let ghost before = out@;
        if starts_with_at(s, i, pat) {
            out.push(rep);
            proof {
                assert(rest.skip(pat@.len() as int) =~= s@.skip(i + pat@.len()));
            }
            i = i + pat.len();
        } else {
            out.push(s[i]);
            proof {
                assert(rest[0] == s@[i as int]);
                assert(rest.skip(1) =~= s@.skip(i + 1));
            }
            i = i + 1;
        }
        assert(out@ + replace_all(s@.skip(i as int), pat@, seq![rep]) =~= before + replace_all(rest, pat@, seq![rep]));
    }
    assert(s@.skip(i as int) =~= Seq::<char>::empty());
    assert(out@ + replace_all(s@.skip(i as int), pat@, seq![rep]) =~= out@);
    out
}

/// Replaces every non-overlapping occurrence of `pat`, leftmost first, by
/// the characters `rep`.
pub fn replace_all_seq(s: &[char], pat: &[char], rep: &[char]) -> (r: Vec<char>)
    requires
        pat@.len() > 0,
    ensures
        r@ == replace_all(s@, pat@, rep@),
{
    let mut out: Vec<char> = Vec::new();
    let mut i: usize = 0;
    assert(s@.skip(0) =~= s@);
    assert(out@ + replace_all(s@.skip(0), pat@, rep@) =~= replace_all(s@, pat@, rep@));
    while i < s.len()
        invariant
            0 <= i <= s@.len(),
            pat@.len() > 0,
            out@ + replace_all(s@.skip(i as int), pat@, rep@) == replace_all(s@, pat@, rep@),
        decreases s@.len() - i,
    {
        let ghost rest = s@.skip(i as int);
        let ghost before = out@;
        if starts_with_at(s, i, pat) {
            let mut k: usize = 0;
            while k < rep.len()
                invariant
                    k <= rep@.len(),
                    out@ == before + rep@.take(k as int),
                decreases rep@.len() - k,
            {
                out.push(rep[k]);
                assert(out@ =~= before + rep@.take(k + 1));
                k = k + 1;
            }
            assert(rep@.take(rep@.len() as int) =~= rep@);
            proof {
                assert(rest.skip(pat@.len() as int) =~= s@.skip(i + pat@.len()));
            }
            i = i + pat.len();
        } else {
            out.push(s[i]);
            proof {
                assert(rest[0] == s@[i as int]);
                assert(rest.skip(1) =~= s@.skip(i + 1));
            }
            i = i + 1;
        }
        assert(out@ + replace_all(s@.skip(i as int), pat@, rep@) =~= before + replace_all(rest, pat@, rep@));
    }
    assert(s@.skip(i as int) =~= Seq::<char>::empty());
    assert(out@ + replace_all(s@.skip(i as int), pat@, rep@) =~= out@);
    out
}

/// Unescapes a text.
pub fn xml_unescape(s: &[char]) -> (r: Vec<char>)
    ensures
        r@ == unescape(s@),
{
    let lt = ['&', 'l', 't', ';'];
    let gt = ['&', 'g', 't', ';'];
    let quot = ['&', 'q', 'u', 'o', 't', ';'];
    let amp = ['&', 'a', 'm', 'p', ';'];
    assert(lt@ == pass_pattern(0));
    assert(gt@ == pass_pattern(1));
    assert(quot@ == pass_pattern(2));
    assert(amp@ == pass_pattern(3));
    let a = replace_all_chars(s, lt.as_slice(), '<');
    let b = replace_all_chars(a.as_slice(), gt.as_slice(), '>');
    let c = replace_all_chars(b.as_slice(), quot.as_slice(), '"');
    replace_all_chars(c.as_slice(), amp.as_slice(), '&')
}

/// The first position at or after `from` where `needle` occurs in `hay`.
pub open spec fn first_at(hay: Seq<char>, needle: Seq<char>, from: int) -> Option<int>
    decreases hay.len() + 1 - from,
{
    if from < 0 || from + needle.len() > hay.len() {
        None
    } else if occurs_at(hay, needle, from) {
        Some(from)
    } else {
        first_at(hay, needle, from + 1)
    }
}

proof fn lemma_first_at(hay: Seq<char>, needle: Seq<char>, from: int, r: Option<usize>)
    requires
        0 <= from,
        is_first_occurrence(hay, needle, from, r),
    ensures
        first_at(hay, needle, from) == (match r {
            Some(i) => Some(i as int),
            None => None::<int>,
        }),
    decreases hay.len() + 1 - from,
{
    if from + needle.len() > hay.len() {
        if let Some(i) = r {
            assert(occurs_at(hay, needle, i as int));
        }
    } else if occurs_at(hay, needle, from) {
        if let Some(i) = r {
            if i > from {
                assert(!occurs_at(hay, needle, from));
            }
        }
    } else {
        lemma_first_at(hay, needle, from + 1, r);
    }
}

pub proof fn lemma_first_at_found(hay: Seq<char>, needle: Seq<char>, from: int)
    ensures
        first_at(hay, needle, from) matches Some(i) ==> from <= i && occurs_at(hay, needle, i),
    decreases hay.len() + 1 - from,
{
    if !(from < 0 || from + needle.len() > hay.len()) && !occurs_at(hay, needle, from) {
        lemma_first_at_found(hay, needle, from + 1);
    }
}

/// Finds the first occurrence of `needle` in `hay` at or after `from`.
pub fn find_first(hay: &[char], needle: &[char], from: usize) -> (r: Option<usize>)
    ensures
        match r {
            Some(i) => first_at(hay@, needle@, from as int) == Some(i as int) && from <= i && occurs_at(
                hay@,
                needle@,
                i as int,
            ),
            None => first_at(hay@, needle@, from as int) is None,
        },
{
    let r = find_from(hay, needle, from);
    proof {
        lemma_first_at(hay@, needle@, from as int, r);
        lemma_first_at_found(hay@, needle@, from as int);
    }
    r
}

/// `<tag>`.
pub open spec fn open_tag(tag: Seq<char>) -> Seq<char> {
    seq!['<'] + tag + seq!['>']
}

/// `</tag>`.
pub open spec fn close_tag(tag: Seq<char>) -> Seq<char> {
    seq!['<', '/'] + tag + seq!['>']
}

/// The trimmed text between the first `<tag>` and the first `</tag>` after it.
pub open spec fn tag_text(xml: Seq<char>, tag: Seq<char>) -> Option<Seq<char>> {
    match first_at(xml, open_tag(tag), 0) {
        Some(i) => {
            let start = i + open_tag(tag).len();
            match first_at(xml, close_tag(tag), start) {
                Some(e) => Some(trim(xml.subrange(start, e))),
                None => None,
            }
        },
        None => None,
    }
}

/// The trimmed text between the first `<tag>` and the first `</tag>` after it.
pub fn tag_content(xml: &[char], tag: &str) -> (r: Option<Vec<char>>)
    ensures
        match r {
            Some(v) => tag_text(xml@, tag@) == Some(v@),
            None => tag_text(xml@, tag@) is None,
        },
{
    let t = crate::text::chars_of(tag);
    let mut open: Vec<char> = Vec::new();
    open.push('<');
    let mut close: Vec<char> = Vec::new();
    close.push('<');
    close.push('/');
    let mut k: usize = 0;
    while k < t.len()
        invariant
            k <= t@.len(),
            open@ == seq!['<'] + t@.take(k as int),
            close@ == seq!['<', '/'] + t@.take(k as int),
        decreases t@.len() - k,
    {
        open.push(t[k]);
        close.push(t[k]);
        k = k + 1;
        assert(t@.take(k as int) =~= t@.take(k - 1).push(t@[k - 1]));
    }
    open.push('>');
    close.push('>');
    assert(t@.take(k as int) =~= tag@);
    assert(open@ =~= open_tag(tag@));
    assert(close@ =~= close_tag(tag@));
    let i = match find_first(xml, open.as_slice(), 0) {
        Some(i) => i,
        None => return None,
    };
    assert(occurs_at(xml@, open@, i as int));
    assert(i + open@.len() <= xml@.len() && xml@.len() == xml.len() && open@.len() == open.len());
    let start = i + open.len();
    let e = match find_first(xml, close.as_slice(), start) {
        Some(e) => e,
        None => return None,
    };
    assert(occurs_at(xml@, close@, e as int));
    let (a, b) = trim_range(xml, start, e);
    let mut out: Vec<char> = Vec::new();
    let mut m = a;
    while m < b
        invariant
            a <= m <= b <= xml@.len(),
            out@ == xml@.subrange(a as int, m as int),
        decreases b - m,
    {
        out.push(xml[m]);
        m = m + 1;
        assert(out@ =~= xml@.subrange(a as int, m as int));
    }
    Some(out)
}

/// `s` split at every `sep`, as `str::split` does (an empty text gives one
/// empty piece).
pub open spec fn split_on(s: Seq<char>, sep: char) -> Seq<Seq<char>>
    decreases s.len(),
{
    if s.len() == 0 {
        seq![seq![]]
    } else {
        let p = split_on(s.drop_last(), sep);
        if s.last() == sep {
            p.push(seq![])
        } else {
            p.update(p.len() - 1, p.last().push(s.last()))
        }
    }
}

pub proof fn lemma_split_nonempty(s: Seq<char>, sep: char)
    ensures
        split_on(s, sep).len() >= 1,
    decreases s.len(),
{
    if s.len() > 0 {
        lemma_split_nonempty(s.drop_last(), sep);
    }
}

/// Splits `s` at every `sep`.
pub fn split_chars(s: &[char], sep: char) -> (r: Vec<Vec<char>>)
    ensures
        r@.len() == split_on(s@, sep).len(),
        forall|i: int| 0 <= i < r@.len() ==> (#[trigger] r@[i])@ == split_on(s@, sep)[i],
{
    let mut done: Vec<Vec<char>> = Vec::new();
    let mut cur: Vec<char> = Vec::new();
    let mut i: usize = 0;
    assert(s@.take(0) =~= Seq::<char>::empty());
    while i < s.len()
        invariant
            i <= s@.len(),
            split_on(s@.take(i as int), sep).len() == done@.len() + 1,
            forall|m: int| 0 <= m < done@.len() ==> (#[trigger] done@[m])@ == split_on(s@.take(i as int), sep)[m],
            cur@ == split_on(s@.take(i as int), sep).last(),
        decreases s@.len() - i,
    {
        let c = s[i];
        proof {
            assert(s@.take(i + 1).drop_last() =~= s@.take(i as int));
            assert(s@.take(i + 1).last() == c);
        }
        if c == sep {
            done.push(cur);
            cur = Vec::new();
        } else {
            cur.push(c);
        }
        i = i + 1;
    }
    assert(s@.take(i as int) =~= s@);
    let ghost d = done@;
    done.push(cur);
    proof {
        assert forall|m: int| 0 <= m < done@.len() implies (#[trigger] done@[m])@ == split_on(s@, sep)[m] by {
            if m < d.len() {
                assert(done@[m] == d[m]);
            }
        }
    }
    done
}

/// A tag name: lowercase ASCII letters, digits and underscores, at least one.
pub open spec fn is_word(s: Seq<char>) -> bool {
    s.len() > 0 && forall|i: int| 0 <= i < s.len() ==> ('a' <= #[trigger] s[i] <= 'z' || s[i] == '_' || ('0' <= s[i] <= '9'))
}

/// `s` holds no `<`.
pub open spec fn no_lt(s: Seq<char>) -> bool {
    forall|i: int| 0 <= i < s.len() ==> #[trigger] s[i] != '<'
}

/// `p` and `needle` differ at offset `i` from position `q` of `p`.
pub open spec fn differs_at(p: Seq<char>, needle: Seq<char>, q: int, i: int) -> bool {
    0 <= i < needle.len() && q + i < p.len() && p[q + i] != needle[i]
}

/// No occurrence of `needle` (which starts with `<`) can start inside `p`,
/// whatever follows `p`: every `<` of `p` is followed, within `p`, by a
/// character that differs from the needle.
pub open spec fn clean(p: Seq<char>, needle: Seq<char>) -> bool {
    forall|q: int| 0 <= q < p.len() && #[trigger] p[q] == '<' ==> exists|i: int| differs_at(p, needle, q, i)
}

/// `  <tag>content</tag>` and a line break.
pub open spec fn field_line(tag: Seq<char>, content: Seq<char>) -> Seq<char> {
    seq![' ', ' '] + open_tag(tag) + content + close_tag(tag) + seq!['\n']
}

pub proof fn lemma_first_at_offset(p: Seq<char>, r: Seq<char>, needle: Seq<char>, x: int)
    requires
        0 <= x,
    ensures
        first_at(p + r, needle, p.len() + x) == (match first_at(r, needle, x) {
            Some(i) => Some(i + p.len()),
            None => None::<int>,
        }),
    decreases r.len() + 1 - x,
{
    let h = p + r;
    let k = p.len() + x;
    if k + needle.len() > h.len() {
    } else {
        assert(h.subrange(k, k + needle.len()) =~= r.subrange(x, x + needle.len()));
        if !occurs_at(h, needle, k) {
            lemma_first_at_offset(p, r, needle, x + 1);
        }
    }
}

proof fn lemma_first_at_clean_from(p: Seq<char>, r: Seq<char>, needle: Seq<char>, q: int)
    requires
        needle.len() > 0,
        needle[0] == '<',
        clean(p, needle),
        0 <= q <= p.len(),
    ensures
        first_at(p + r, needle, q) == first_at(p + r, needle, p.len() as int),
    decreases p.len() - q,
{
    if q < p.len() {
        let h = p + r;
        if q + needle.len() <= h.len() {
            if p[q] == '<' {
                let i = choose|i: int| differs_at(p, needle, q, i);
                assert(h.subrange(q, q + needle.len())[i] != needle[i]);
            } else {
                assert(h.subrange(q, q + needle.len())[0] != needle[0]);
            }
            assert(!occurs_at(h, needle, q));
        }
        lemma_first_at_clean_from(p, r, needle, q + 1);
        if q + needle.len() > h.len() {
            lemma_first_at_none_tail(h, needle, q);
        }
    }
}

proof fn lemma_first_at_none_tail(h: Seq<char>, needle: Seq<char>, q: int)
    requires
        0 <= q,
        q + needle.len() > h.len(),
    ensures
        first_at(h, needle, q) is None,
        first_at(h, needle, q + 1) is None,
{
}

/// A clean prefix shifts the first occurrence of a needle by its length.
pub proof fn lemma_first_at_clean(p: Seq<char>, r: Seq<char>, needle: Seq<char>)
    requires
        needle.len() > 0,
        needle[0] == '<',
        clean(p, needle),
    ensures
        first_at(p + r, needle, 0) == (match first_at(r, needle, 0) {
            Some(i) => Some(i + p.len()),
            None => None::<int>,
        }),
{
    lemma_first_at_clean_from(p, r, needle, 0);
    lemma_first_at_offset(p, r, needle, 0);
}

/// Text without `<` is clean.
pub proof fn lemma_clean_no_lt(s: Seq<char>, needle: Seq<char>)
    requires
        no_lt(s),
    ensures
        clean(s, needle),
{
}

/// Two clean texts make a clean text.
pub proof fn lemma_clean_concat(a: Seq<char>, b: Seq<char>, needle: Seq<char>)
    requires
        clean(a, needle),
        clean(b, needle),
    ensures
        clean(a + b, needle),
{
    let ab = a + b;
    assert forall|q: int| 0 <= q < ab.len() && #[trigger] ab[q] == '<' implies exists|i: int| differs_at(ab, needle, q, i) by {
        if q < a.len() {
            assert(a[q] == '<');
            let i = choose|i: int| differs_at(a, needle, q, i);
            assert(differs_at(ab, needle, q, i));
        } else {
            let qb: int = q - a.len();
            assert(b[qb] == '<');
            let i = choose|i: int| differs_at(b, needle, qb, i);
            assert(differs_at(ab, needle, q, i));
        }
    }
}

/// An opening tag of another name is clean for a tag search.
pub proof fn lemma_clean_other_open(name: Seq<char>, tag: Seq<char>)
    requires
        is_word(name),
        is_word(tag),
        name != tag,
    ensures
        clean(open_tag(name), open_tag(tag)),
{
    let o = open_tag(name);
    let n = open_tag(tag);
    assert forall|q: int| 0 <= q < o.len() && #[trigger] o[q] == '<' implies exists|i: int| differs_at(o, n, q, i) by {
        if q > 0 {
            if q <= name.len() {
                assert(o[q] == name[q - 1]);
            }
            assert(false);
        }
        if name.len() < tag.len() {
            assert(o[name.len() + 1int] == '>');
            assert(n[name.len() + 1int] == tag[name.len() as int]);
            assert(differs_at(o, n, 0, name.len() + 1int));
        } else if name.len() > tag.len() {
            assert(n[tag.len() + 1int] == '>');
            assert(o[tag.len() + 1int] == name[tag.len() as int]);
            assert(differs_at(o, n, 0, tag.len() + 1int));
        } else {
            assert(!(name =~= tag));
            let k = choose|k: int| 0 <= k < name.len() && name[k] != tag[k];
            assert(o[k + 1] == name[k] && n[k + 1] == tag[k]);
            assert(differs_at(o, n, 0, k + 1));
        }
    }
}

/// A closing tag is clean for a tag search.
pub proof fn lemma_clean_close(name: Seq<char>, tag: Seq<char>)
    requires
        is_word(name),
        is_word(tag),
    ensures
        clean(close_tag(name), open_tag(tag)),
{
    let c = close_tag(name);
    let n = open_tag(tag);
    assert forall|q: int| 0 <= q < c.len() && #[trigger] c[q] == '<' implies exists|i: int| differs_at(c, n, q, i) by {
        if q > 0 {
            if 2 <= q < name.len() + 2 {
                assert(c[q] == name[q - 2]);
            }
            assert(false);
        }
        assert(c[1] == '/' && n[1] == tag[0]);
        assert(differs_at(c, n, 0, 1));
    }
}

/// A field line of another name is clean for a tag search.
pub proof fn lemma_clean_other_line(name: Seq<char>, content: Seq<char>, tag: Seq<char>)
    requires
        is_word(name),
        is_word(tag),
        name != tag,
        no_lt(content),
    ensures
        clean(field_line(name, content), open_tag(tag)),
{
    let n = open_tag(tag);
    lemma_clean_no_lt(seq![' ', ' '], n);
    lemma_clean_other_open(name, tag);
    lemma_clean_no_lt(content, n);
    lemma_clean_close(name, tag);
    lemma_clean_no_lt(seq!['\n'], n);
    lemma_clean_concat(seq![' ', ' '], open_tag(name), n);
    lemma_clean_concat(seq![' ', ' '] + open_tag(name), content, n);
    lemma_clean_concat(seq![' ', ' '] + open_tag(name) + content, close_tag(name), n);
    lemma_clean_concat(seq![' ', ' '] + open_tag(name) + content + close_tag(name), seq!['\n'], n);
}

/// In a document whose text before a field line is clean for the field's
/// tag, the field's text is its content, trimmed.
pub proof fn lemma_tag_text_of_line(pre: Seq<char>, tag: Seq<char>, content: Seq<char>, post: Seq<char>)
    requires
        is_word(tag),
        clean(pre, open_tag(tag)),
        no_lt(content),
    ensures
        tag_text(pre + field_line(tag, content) + post, tag) == Some(trim(content)),
{
    let o = open_tag(tag);
    let c = close_tag(tag);
    let doc = pre + field_line(tag, content) + post;
    let p2 = pre + seq![' ', ' '];
    lemma_clean_no_lt(seq![' ', ' '], o);
    lemma_clean_concat(pre, seq![' ', ' '], o);
    let rest = o + content + c + seq!['\n'] + post;
    assert(doc =~= p2 + rest);
    lemma_first_at_clean(p2, rest, o);
    assert(rest.subrange(0, o.len() as int) =~= o);
    assert(first_at(rest, o, 0) == Some(0int));
    let start: int = (p2.len() + o.len()) as int;
    let cl: int = content.len() as int;
    assert(first_at(doc, o, 0) == Some(p2.len() as int));
    // the closing tag right after the content
    let p3 = doc.subrange(0, start + cl);
    let r3 = c + seq!['\n'] + post;
    assert(doc =~= p3 + r3);
    assert forall|q: int| start <= q < start + cl implies !occurs_at(doc, c, q) by {
        assert(doc[q] == content[q - start]);
        if q + c.len() <= doc.len() {
            assert(doc.subrange(q, q + c.len())[0] == doc[q]);
        }
    }
    lemma_first_at_scan(doc, c, start, start + cl);
    assert(doc.subrange(start + cl, start + cl + c.len()) =~= c);
    assert(occurs_at(doc, c, start + cl));
    assert(first_at(doc, c, start + cl) == Some(start + cl));
    assert(doc.subrange(start, start + cl) =~= content);
}

pub proof fn lemma_first_at_scan(h: Seq<char>, needle: Seq<char>, from: int, to: int)
    requires
        0 <= from <= to,
        to + needle.len() <= h.len(),
        forall|q: int| from <= q < to ==> !occurs_at(h, needle, q),
    ensures
        first_at(h, needle, from) == first_at(h, needle, to),
    decreases to - from,
{
    if from < to {
        lemma_first_at_scan(h, needle, from + 1, to);
    }
}

/// A needle that occurs somewhere has a first occurrence.
pub proof fn lemma_first_at_exists(h: Seq<char>, needle: Seq<char>, q: int, k: int)
    requires
        0 <= q <= k,
        occurs_at(h, needle, k),
    ensures
        first_at(h, needle, q) is Some,
    decreases k - q,
{
    if !occurs_at(h, needle, q) {
        lemma_first_at_exists(h, needle, q + 1, k);
    }
}

/// Consecutive field lines for `(tag, content)` pairs.
pub open spec fn lines_text(fields: Seq<(Seq<char>, Seq<char>)>) -> Seq<char>
    decreases fields.len(),
{
    if fields.len() == 0 {
        seq![]
    } else {
        lines_text(fields.drop_last()) + field_line(fields.last().0, fields.last().1)
    }
}

/// Field lines whose tags are words and whose contents hold no `<`.
pub open spec fn well_formed_fields(fields: Seq<(Seq<char>, Seq<char>)>) -> bool {
    forall|i: int| 0 <= i < fields.len() ==> is_word((#[trigger] fields[i]).0) && no_lt(fields[i].1)
}

proof fn lemma_lines_concat(a: Seq<(Seq<char>, Seq<char>)>, b: Seq<(Seq<char>, Seq<char>)>)
    ensures
        lines_text(a + b) == lines_text(a) + lines_text(b),
    decreases b.len(),
{
    if b.len() == 0 {
        assert(a + b =~= a);
        assert(lines_text(a) + lines_text(b) =~= lines_text(a));
    } else {
        lemma_lines_concat(a, b.drop_last());
        assert((a + b).drop_last() =~= a + b.drop_last());
        assert((a + b).last() == b.last());
        assert(lines_text(a + b) =~= lines_text(a) + lines_text(b));
    }
}

proof fn lemma_lines_clean(fields: Seq<(Seq<char>, Seq<char>)>, tag: Seq<char>)
    requires
        is_word(tag),
        well_formed_fields(fields),
        forall|i: int| 0 <= i < fields.len() ==> (#[trigger] fields[i]).0 != tag,
    ensures
        clean(lines_text(fields), open_tag(tag)),
    decreases fields.len(),
{
    if fields.len() == 0 {
        lemma_clean_no_lt(seq![], open_tag(tag));
    } else {
        let front = fields.drop_last();
        assert forall|i: int| 0 <= i < front.len() implies is_word((#[trigger] front[i]).0) && no_lt(front[i].1) && front[i].0 != tag by {
            assert(front[i] == fields[i]);
        }
        lemma_lines_clean(front, tag);
        let l = fields.last();
        assert(l == fields[fields.len() - 1]);
        lemma_clean_other_line(l.0, l.1, tag);
        lemma_clean_concat(lines_text(front), field_line(l.0, l.1), open_tag(tag));
    }
}

/// In a document made of a clean prefix, field lines and anything after,
/// the text of a field is its content, trimmed, provided no earlier field has
/// the same tag.
pub proof fn lemma_field_text(pre: Seq<char>, fields: Seq<(Seq<char>, Seq<char>)>, post: Seq<char>, k: int)
    requires
        0 <= k < fields.len(),
        well_formed_fields(fields),
        clean(pre, open_tag(fields[k].0)),
        forall|i: int| 0 <= i < k ==> (#[trigger] fields[i]).0 != fields[k].0,
    ensures
        tag_text(pre + lines_text(fields) + post, fields[k].0) == Some(trim(fields[k].1)),
{
    let tag = fields[k].0;
    let a = fields.take(k);
    let b = fields.skip(k + 1);
    assert(fields =~= a.push(fields[k]) + b);
    lemma_lines_concat(a.push(fields[k]), b);
    assert(a.push(fields[k]).drop_last() =~= a);
    assert(lines_text(a.push(fields[k])) == lines_text(a) + field_line(tag, fields[k].1));
    assert forall|i: int| 0 <= i < a.len() implies is_word((#[trigger] a[i]).0) && no_lt(a[i].1) && a[i].0 != tag by {
        assert(a[i] == fields[i]);
    }
    lemma_lines_clean(a, tag);
    lemma_clean_concat(pre, lines_text(a), open_tag(tag));
    assert(pre + lines_text(fields) + post =~= (pre + lines_text(a)) + field_line(tag, fields[k].1) + (lines_text(b) + post));
    lemma_tag_text_of_line(pre + lines_text(a), tag, fields[k].1, lines_text(b) + post);
}

/// A character after the first `k` unescaping passes of its escape.
pub open spec fn stage_char(c: char, k: int) -> Seq<char> {
    if c == '&' {
        if k < 4 { seq!['&', 'a', 'm', 'p', ';'] } else { seq!['&'] }
    } else if c == '<' {
        if k < 1 { seq!['&', 'l', 't', ';'] } else { seq!['<'] }
    } else if c == '>' {
        if k < 2 { seq!['&', 'g', 't', ';'] } else { seq!['>'] }
    } else if c == '"' {
        if k < 3 { seq!['&', 'q', 'u', 'o', 't', ';'] } else { seq!['"'] }
    } else {
        seq![c]
    }
}

/// A text after the first `k` unescaping passes of its escape.
pub open spec fn stage(s: Seq<char>, k: int) -> Seq<char>
    decreases s.len(),
{
    if s.len() == 0 {
        seq![]
    } else {
        stage_char(s[0], k) + stage(s.skip(1), k)
    }
}

proof fn lemma_stage_ends(s: Seq<char>)
    ensures
        stage(s, 0) == escape(s),
        stage(s, 4) == s,
    decreases s.len(),
{
    if s.len() > 0 {
        lemma_stage_ends(s.skip(1));
        assert(stage_char(s[0], 4) == seq![s[0]]);
        assert(s =~= seq![s[0]] + s.skip(1));
    }
}

proof fn lemma_plain_prefix(x: Seq<char>, y: Seq<char>, pat: Seq<char>, rep: Seq<char>)
    requires
        pat.len() > 0,
        pat[0] == '&',
        forall|i: int| 0 <= i < x.len() ==> x[i] != '&',
    ensures
        replace_all(x + y, pat, rep) == x + replace_all(y, pat, rep),
    decreases x.len(),
{
    if x.len() > 0 {
        let xy = x + y;
        assert(xy[0] == x[0]);
        if pat.len() <= xy.len() {
            assert(xy.take(pat.len() as int)[0] != pat[0]);
        }
        assert(xy.skip(1) =~= x.skip(1) + y);
        lemma_plain_prefix(x.skip(1), y, pat, rep);
        assert(x =~= seq![x[0]] + x.skip(1));
    } else {
        assert(x + y =~= y);
    }
}

proof fn lemma_stage_char_step(c: char, k: int, rest: Seq<char>)
    requires
        0 <= k < 4,
    ensures
        replace_all(stage_char(c, k) + rest, pass_pattern(k), seq![pass_char(k)]) == stage_char(c, k + 1)
            + replace_all(rest, pass_pattern(k), seq![pass_char(k)]),
{
    let t = stage_char(c, k);
    let pat = pass_pattern(k);
    let rep: Seq<char> = seq![pass_char(k)];
    let tr = t + rest;
    if t == pat {
        assert(tr.take(pat.len() as int) =~= pat);
        assert(tr.skip(pat.len() as int) =~= rest);
        assert(stage_char(c, k + 1) == rep);
    } else if t.len() == 1 {
        assert(stage_char(c, k + 1) == t);
        lemma_plain_prefix(t, rest, pat, rep);
    } else {
        assert(t[0] == '&' && t[1] != pat[1] && t.len() >= 4);
        assert(tr[1] == t[1]);
        if pat.len() <= tr.len() {
            assert(tr.take(pat.len() as int)[1] == tr[1]);
            assert(tr.take(pat.len() as int) != pat);
        }
        assert(tr[0] == t[0]);
        assert(tr.skip(1) =~= t.skip(1) + rest);
        lemma_plain_prefix(t.skip(1), rest, pat, rep);
        assert(t =~= seq![t[0]] + t.skip(1));
        assert(stage_char(c, k + 1) == t);
    }
}

proof fn lemma_stage_step(s: Seq<char>, k: int)
    requires
        0 <= k < 4,
    ensures
        replace_all(stage(s, k), pass_pattern(k), seq![pass_char(k)]) == stage(s, k + 1),
    decreases s.len(),
{
    if s.len() > 0 {
        lemma_stage_step(s.skip(1), k);
        lemma_stage_char_step(s[0], k, stage(s.skip(1), k));
    }
}

/// Unescaping undoes escaping: every text reads back unchanged.
pub proof fn lemma_unescape_escape(s: Seq<char>)
    ensures
        unescape(escape(s)) == s,
{
    lemma_stage_ends(s);
    lemma_stage_step(s, 0);
    lemma_stage_step(s, 1);
    lemma_stage_step(s, 2);
    lemma_stage_step(s, 3);
}

} // verus!
