//! Helpers of the file browser: which files are scans, how a directory name
//! is shortened for display, 16-bit samples reduced to 8 bits for display,
//! and the order in which settings presets are listed.

use vstd::prelude::*;
use crate::text::{chars_of, is_ws, occurs_at, slice_vec, string_from_chars, trim, trim_range};
use crate::xml_text::{find_first, first_at, replace_all, replace_all_seq};

verus! {

// ─── Scan files ────────────────────────────────────────────────────────────

/// ASCII lower case of a character (other characters unchanged).
pub open spec fn ascii_lower(c: char) -> char {
    if 'A' <= c <= 'Z' { ((c as u32) + 32) as char } else { c }
}

/// The file extensions of scans, compared without regard to case: `fff`,
/// `3fr`, `tif` and `tiff`.
pub open spec fn is_scan_ext(e: Seq<char>) -> bool {
    let l = e.map_values(|c: char| ascii_lower(c));
    l == "fff"@ || l == "3fr"@ || l == "tif"@ || l == "tiff"@
}

/// Whether a file extension (without the dot) is that of a scan.
pub fn is_scan_extension(ext: &str) -> (r: bool)
    ensures
        r == is_scan_ext(ext@),
{
    let v = chars_of(ext);
    let mut low: Vec<char> = Vec::new();
    let mut i: usize = 0;
    while i < v.len()
        invariant
            i <= v@.len(),
            low@ == v@.take(i as int).map_values(|c: char| ascii_lower(c)),
        decreases v@.len() - i,
    {
        let c = v[i];
        let l = if 'A' <= c && c <= 'Z' { ((c as u32) + 32) as u8 as char } else { c };
        low.push(l);
        assert(low@ =~= v@.take(i + 1).map_values(|c: char| ascii_lower(c)));
        i = i + 1;
    }
    assert(v@.take(v@.len() as int) =~= v@);
    let fff = ['f', 'f', 'f'];
    let fr = ['3', 'f', 'r'];
    let tif = ['t', 'i', 'f'];
    let tiff = ['t', 'i', 'f', 'f'];
    proof {
        reveal_strlit("fff");
        reveal_strlit("3fr");
        reveal_strlit("tif");
        reveal_strlit("tiff");
        assert(fff@ =~= "fff"@);
        assert(fr@ =~= "3fr"@);
        assert(tif@ =~= "tif"@);
        assert(tiff@ =~= "tiff"@);
    }
    crate::text::chars_equal(low.as_slice(), fff.as_slice()) || crate::text::chars_equal(low.as_slice(), fr.as_slice())
        || crate::text::chars_equal(low.as_slice(), tif.as_slice()) || crate::text::chars_equal(low.as_slice(), tiff.as_slice())
}

// ─── Directory names ───────────────────────────────────────────────────────

/// `s` without every trailing repetition of `p`.
pub open spec fn strip_suffixes(s: Seq<char>, p: Seq<char>) -> Seq<char>
    decreases s.len(),
{
    if p.len() > 0 && s.len() >= p.len() && s.subrange(s.len() - p.len(), s.len() as int) == p {
        strip_suffixes(s.subrange(0, s.len() - p.len()), p)
    } else {
        s
    }
}

pub open spec fn is_sep(c: char) -> bool {
    c == ' ' || c == '-'
}

/// The last position before `at` holding a space or a dash.
pub open spec fn last_sep_before(s: Seq<char>, at: int) -> Option<int>
    decreases at,
{
    if at <= 0 {
        None
    } else if is_sep(s[at - 1]) {
        Some(at - 1)
    } else {
        last_sep_before(s, at - 1)
    }
}

/// The first position at or after `from` holding a space or a dash.
pub open spec fn first_sep_from(s: Seq<char>, from: int) -> Option<int>
    decreases s.len() - from,
{
    if from < 0 || from >= s.len() {
        None
    } else if is_sep(s[from]) {
        Some(from)
    } else {
        first_sep_from(s, from + 1)
    }
}

/// The name with an e-mail address (the word around the first `@`, between
/// spaces or dashes, holding a `.`) replaced by `***`, doubled spaces made
/// single, ` - ***` and `*** - ` dropped, trailing ` -` and `- ` removed and
/// the rest trimmed; the name itself when there is no such address.
pub open spec fn redact_email(s: Seq<char>) -> Seq<char> {
    match first_at(s, seq!['@'], 0) {
        None => s,
        Some(at) => {
            let start = match last_sep_before(s, at) { Some(i) => i + 1, None => 0 };
            let end = match first_sep_from(s, at) { Some(i) => i, None => s.len() as int };
            if s.subrange(start, end).contains('.') {
                let r1 = s.subrange(0, start) + "***"@ + s.subrange(end, s.len() as int);
                let r2 = replace_all(r1, seq![' ', ' '], seq![' ']);
                let r3 = replace_all(r2, " - ***"@, seq![]);
                let r4 = replace_all(r3, "*** - "@, seq![]);
                trim(strip_suffixes(strip_suffixes(r4, seq![' ', '-']), seq!['-', ' ']))
            } else {
                s
            }
        },
    }
}

/// A directory name shortened for display: a Creative Cloud sync folder
/// (`Creative Cloud Files - …`, `CoreSync - …`, or any name mentioning
/// Creative Cloud) by its part before the first ` - `; otherwise the name
/// with an e-mail address redacted, cut to 37 characters and `…` when longer
/// than 40.
pub open spec fn short_dir_name(name: Seq<char>) -> Seq<char> {
    let cc = match first_at(name, " - "@, 0) {
        Some(idx) => {
            let prefix = name.subrange(0, idx);
            if prefix == "Creative Cloud Files"@ || prefix == "CoreSync"@ || first_at(name, "Adobe Creative Cloud"@, 0) is Some
                || first_at(name, "Creative Cloud"@, 0) is Some {
                Some(prefix)
            } else {
                None
            }
        },
        None => None,
    };
    match cc {
        Some(p) => p,
        None => {
            let r = redact_email(name);
            if r.len() > 40 { r.take(37).push('\u{2026}') } else { r }
        },
    }
}

fn contains_lit(v: &Vec<char>, lit: &str) -> (r: bool)
    ensures
        r == (first_at(v@, lit@, 0) is Some),
{
    let p = chars_of(lit);
    find_first(v.as_slice(), p.as_slice(), 0).is_some()
}

fn strip_suffixes_exec(v: Vec<char>, a: char, b: char) -> (r: Vec<char>)
    ensures
        r@ == strip_suffixes(v@, seq![a, b]),
    decreases v@.len(),
{
    let n = v.len();
    if n >= 2 && v[n - 2] == a && v[n - 1] == b {
        assert(v@.subrange(n - 2, n as int) =~= seq![a, b]);
        let w = slice_vec(v.as_slice(), 0, n - 2);
        strip_suffixes_exec(w, a, b)
    } else {
        proof {
            if n >= 2 {
                assert(v@.subrange(n - 2, n as int)[0] == v@[n - 2]);
                assert(v@.subrange(n - 2, n as int)[1] == v@[n - 1]);
            }
        }
        v
    }
}

fn redact_email_exec(v: &Vec<char>) -> (r: Vec<char>)
    ensures
        r@ == redact_email(v@),
{
    let at_pat = ['@'];
    assert(at_pat@ == seq!['@']);
    let at = match find_first(v.as_slice(), at_pat.as_slice(), 0) {
        Some(a) => a,
        None => {
            return slice_vec(v.as_slice(), 0, v.len());
        },
    };
    proof {
        assert(v@.subrange(0, v@.len() as int) =~= v@);
    }
    let mut i = at;
    while i > 0 && !(v[i - 1] == ' ' || v[i - 1] == '-')
        invariant
            i <= at < v@.len(),
            last_sep_before(v@, at as int) == last_sep_before(v@, i as int),
        decreases i,
    {
        i = i - 1;
    }
    let start = i;
    assert(start == match last_sep_before(v@, at as int) { Some(k) => k + 1, None => 0 });
    let mut j = at;
    while j < v.len() && !(v[j] == ' ' || v[j] == '-')
        invariant
            at <= j <= v@.len(),
            first_sep_from(v@, at as int) == first_sep_from(v@, j as int),
        decreases v@.len() - j,
    {
        j = j + 1;
    }
    let end = j;
    assert(end == match first_sep_from(v@, at as int) { Some(k) => k, None => v@.len() as int });
    let mut has_dot = false;
    let mut k = start;
    while k < end
        invariant
            start <= k <= end <= v@.len(),
            has_dot == exists|m: int| start <= m < k && v@[m] == '.',
        decreases end - k,
    {
        if v[k] == '.' {
            has_dot = true;
        }
        k = k + 1;
    }
    proof {
        let e = v@.subrange(start as int, end as int);
        if has_dot {
            let m = choose|m: int| start <= m < end && v@[m] == '.';
            assert(e[m - start] == '.');
        } else {
            assert forall|q: int| 0 <= q < e.len() implies e[q] != '.' by {
                assert(e[q] == v@[start + q]);
            }
        }
    }
    if !has_dot {
        return slice_vec(v.as_slice(), 0, v.len());
    }
    let mut r1 = slice_vec(v.as_slice(), 0, start);
    r1.push('*');
    r1.push('*');
    r1.push('*');
    let mut tail = slice_vec(v.as_slice(), end, v.len());
    r1.append(&mut tail);
    proof {
        reveal_strlit("***");
        reveal_strlit(" - ***");
        reveal_strlit("*** - ");
    }
    assert(r1@ =~= v@.subrange(0, start as int) + "***"@ + v@.subrange(end as int, v@.len() as int));
    let two = [' ', ' '];
    let one = [' '];
    let dash_stars = [' ', '-', ' ', '*', '*', '*'];
    let stars_dash = ['*', '*', '*', ' ', '-', ' '];
    let none: [char; 0] = [];
    assert(two@ == seq![' ', ' ']);
    assert(one@ == seq![' ']);
    assert(dash_stars@ =~= " - ***"@);
    assert(stars_dash@ =~= "*** - "@);
    assert(none@ =~= Seq::<char>::empty());
    let r2 = replace_all_seq(r1.as_slice(), two.as_slice(), one.as_slice());
    let r3 = replace_all_seq(r2.as_slice(), dash_stars.as_slice(), none.as_slice());
    let r4 = replace_all_seq(r3.as_slice(), stars_dash.as_slice(), none.as_slice());
    let r5 = strip_suffixes_exec(r4, ' ', '-');
    let r6 = strip_suffixes_exec(r5, '-', ' ');
    let (a, b) = trim_range(r6.as_slice(), 0, r6.len());
    assert(r6@.subrange(0, r6@.len() as int) =~= r6@);
    slice_vec(r6.as_slice(), a, b)
}

/// Shortens a directory name for display (see `short_dir_name`).
pub fn shorten_dir_name(name: &str) -> (r: String)
    ensures
        r@ == short_dir_name(name@),
{
    let v = chars_of(name);
    let sep = chars_of(" - ");
    if let Some(idx) = find_first(v.as_slice(), sep.as_slice(), 0) {
        let prefix = string_from_chars(v.as_slice(), 0, idx);
        let is_cc = crate::text::str_equals(prefix.as_str(), "Creative Cloud Files")
            || crate::text::str_equals(prefix.as_str(), "CoreSync") || contains_lit(&v, "Adobe Creative Cloud")
            || contains_lit(&v, "Creative Cloud");
        if is_cc {
            return prefix;
        }
    }
    let r = redact_email_exec(&v);
    if r.len() > 40 {
        let mut t = slice_vec(r.as_slice(), 0, 37);
        t.push('\u{2026}');
        assert(t@ =~= r@.take(37).push('\u{2026}'));
        return string_from_chars(t.as_slice(), 0, t.len());
    }
    string_from_chars(r.as_slice(), 0, r.len())
}

// ─── Display samples ───────────────────────────────────────────────────────

/// 16-bit samples reduced to their high bytes, for display.
pub fn samples_to_8bit(src: &[u16]) -> (r: Vec<u8>)
    ensures
        r@.len() == src@.len(),
        forall|i: int| 0 <= i < src@.len() ==> #[trigger] r@[i] == src@[i] / 256,
{
    let mut out: Vec<u8> = Vec::new();
    let mut i: usize = 0;
    while i < src.len()
        invariant
            i <= src@.len(),
            out@.len() == i,
            forall|k: int| 0 <= k < i ==> #[trigger] out@[k] == src@[k] / 256,
        decreases src@.len() - i,
    {
        out.push((src[i] / 256) as u8);
        i = i + 1;
    }
    out
}


// ─── Preset order ─────────────────────────────────────────────────────────

/// Whether text `a` comes strictly before text `b` in the order of `str`:
/// character by character by code point, a proper prefix first.
pub open spec fn text_lt(a: Seq<char>, b: Seq<char>) -> bool
    decreases a.len(),
{
    if b.len() == 0 {
        false
    } else if a.len() == 0 {
        true
    } else if a[0] != b[0] {
        (a[0] as u32) < (b[0] as u32)
    } else {
        text_lt(a.skip(1), b.skip(1))
    }
}

proof fn lemma_text_lt_trans(a: Seq<char>, b: Seq<char>, c: Seq<char>)
    requires
        text_lt(a, b),
        text_lt(b, c),
    ensures
        text_lt(a, c),
    decreases a.len(),
{
    if a.len() > 0 && b.len() > 0 && c.len() > 0 && a[0] == b[0] && b[0] == c[0] {
        lemma_text_lt_trans(a.skip(1), b.skip(1), c.skip(1));
    }
}

proof fn lemma_text_lt_total(a: Seq<char>, b: Seq<char>)
    ensures
        text_lt(a, b) || text_lt(b, a) || a == b,
        !(text_lt(a, b) && text_lt(b, a)),
    decreases a.len(),
{
    if a.len() > 0 && b.len() > 0 {
        if a[0] == b[0] {
            lemma_text_lt_total(a.skip(1), b.skip(1));
            if a.skip(1) == b.skip(1) {
                assert(a =~= seq![a[0]] + a.skip(1));
                assert(b =~= seq![b[0]] + b.skip(1));
            }
        } else {
            vstd::utf8::char_u32_cast(a[0], a[0] as u32);
            vstd::utf8::char_u32_cast(b[0], b[0] as u32);
        }
    } else if a.len() == 0 && b.len() == 0 {
        assert(a =~= b);
    }
}

fn text_lt_exec(a: &Vec<char>, b: &Vec<char>) -> (r: bool)
    ensures
        r == text_lt(a@, b@),
{
    let mut i: usize = 0;
    assert(a@.skip(0) =~= a@);
    assert(b@.skip(0) =~= b@);
    while i < a.len() && i < b.len()
        invariant
            i <= a@.len(),
            i <= b@.len(),
            text_lt(a@, b@) == text_lt(a@.skip(i as int), b@.skip(i as int)),
        decreases a@.len() - i,
    {
        if a[i] != b[i] {
            return (a[i] as u32) < (b[i] as u32);
        }
        assert(a@.skip(i as int).skip(1) =~= a@.skip(i + 1));
        assert(b@.skip(i as int).skip(1) =~= b@.skip(i + 1));
        i = i + 1;
    }
    b.len() > i
}

/// Whether preset `i` is listed before preset `j`, the keys being
/// (category, name): by category, then by name, then in the order found.
pub open spec fn preset_before(keys: Seq<(Seq<char>, Seq<char>)>, i: int, j: int) -> bool {
    let (ci, ni) = keys[i];
    let (cj, nj) = keys[j];
    text_lt(ci, cj) || (ci == cj && (text_lt(ni, nj) || (ni == nj && i < j)))
}

proof fn lemma_preset_before_trans(keys: Seq<(Seq<char>, Seq<char>)>, i: int, j: int, k: int)
    requires
        preset_before(keys, i, j),
        preset_before(keys, j, k),
    ensures
        preset_before(keys, i, k),
{
    let (ci, ni) = keys[i];
    let (cj, nj) = keys[j];
    let (ck, nk) = keys[k];
    if text_lt(ci, cj) && text_lt(cj, ck) {
        lemma_text_lt_trans(ci, cj, ck);
    }
    if ci == cj && cj == ck && text_lt(ni, nj) && text_lt(nj, nk) {
        lemma_text_lt_trans(ni, nj, nk);
    }
}

proof fn lemma_preset_before_total(keys: Seq<(Seq<char>, Seq<char>)>, i: int, j: int)
    requires
        i != j,
    ensures
        preset_before(keys, i, j) || preset_before(keys, j, i),
{
    lemma_text_lt_total(keys[i].0, keys[j].0);
    lemma_text_lt_total(keys[i].1, keys[j].1);
}

/// The key texts of the presets.
pub open spec fn preset_keys(keys: Seq<(String, String)>) -> Seq<(Seq<char>, Seq<char>)> {
    keys.map_values(|k: (String, String)| (k.0@, k.1@))
}

/// The order in which settings presets are listed, given their (category,
/// name) keys in the order found: a permutation of their positions, by
/// category, then name, presets of equal keys in the order found.
pub fn preset_order(keys: &Vec<(String, String)>) -> (r: Vec<usize>)
    ensures
        r@.len() == keys@.len(),
        forall|p: int| 0 <= p < r@.len() ==> #[trigger] r@[p] < keys@.len(),
        forall|p: int, q: int| 0 <= p < q < r@.len() ==> r@[p] != r@[q],
        forall|p: int, q: int|
            0 <= p < q < r@.len() ==> preset_before(preset_keys(keys@), #[trigger] r@[p] as int, #[trigger] r@[q] as int),
{
    let n = keys.len();
    let ghost kv = preset_keys(keys@);
    let mut cats: Vec<Vec<char>> = Vec::new();
    let mut names: Vec<Vec<char>> = Vec::new();
    let mut r: Vec<usize> = Vec::new();
    let mut k: usize = 0;
    while k < n
        invariant
            k <= n,
            n == keys@.len(),
            kv == preset_keys(keys@),
            cats@.len() == k,
            names@.len() == k,
            r@.len() == k,
            forall|p: int| 0 <= p < k ==> #[trigger] cats@[p]@ == kv[p].0 && names@[p]@ == kv[p].1,
            forall|p: int| 0 <= p < k ==> #[trigger] r@[p] == p,
        decreases n - k,
    {
        cats.push(chars_of(keys[k].0.as_str()));
        names.push(chars_of(keys[k].1.as_str()));
        r.push(k);
        k = k + 1;
    }
    if n == 0 {
        return r;
    }
    let mut i: usize = 1;
    while i < n
        invariant
            1 <= i <= n,
            n == keys@.len(),
            kv == preset_keys(keys@),
            cats@.len() == n,
            names@.len() == n,
            forall|p: int| 0 <= p < n ==> #[trigger] cats@[p]@ == kv[p].0 && names@[p]@ == kv[p].1,
            r@.len() == n,
            forall|p: int| 0 <= p < n ==> #[trigger] r@[p] < n,
            forall|p: int, q: int| 0 <= p < q < n ==> r@[p] != r@[q],
            forall|p: int, q: int| 0 <= p < q < i ==> preset_before(kv, #[trigger] r@[p] as int, #[trigger] r@[q] as int),
        decreases n - i,
    {
        let mut j: usize = i;
        loop
            invariant
                0 <= j <= i < n,
                n == keys@.len(),
                kv == preset_keys(keys@),
                cats@.len() == n,
                names@.len() == n,
                forall|p: int| 0 <= p < n ==> #[trigger] cats@[p]@ == kv[p].0 && names@[p]@ == kv[p].1,
                r@.len() == n,
                forall|p: int| 0 <= p < n ==> #[trigger] r@[p] < n,
                forall|p: int, q: int| 0 <= p < q < n ==> r@[p] != r@[q],
                forall|p: int, q: int|
                    0 <= p < q <= i && p != j && q != j ==> preset_before(kv, #[trigger] r@[p] as int, #[trigger] r@[q] as int),
                forall|q: int| j < q <= i ==> preset_before(kv, r@[j as int] as int, #[trigger] r@[q] as int),
            ensures
                0 <= j <= i < n,
                r@.len() == n,
                forall|p: int| 0 <= p < n ==> #[trigger] r@[p] < n,
                forall|p: int, q: int| 0 <= p < q < n ==> r@[p] != r@[q],
                forall|p: int, q: int|
                    0 <= p < q <= i && p != j && q != j ==> preset_before(kv, #[trigger] r@[p] as int, #[trigger] r@[q] as int),
                forall|q: int| j < q <= i ==> preset_before(kv, r@[j as int] as int, #[trigger] r@[q] as int),
                j > 0 ==> preset_before(kv, r@[j - 1] as int, r@[j as int] as int),
            decreases j,
        {
            if j == 0 {
                break;
            }
            let a = r[j - 1];
            let b = r[j];
            let ca = &cats[a];
            let cb = &cats[b];
            let before = text_lt_exec(cb, ca) || (chars_eq_vec(cb, ca) && (text_lt_exec(&names[b], &names[a]) || (
            chars_eq_vec(&names[b], &names[a]) && b < a)));
            assert(before == preset_before(kv, b as int, a as int));
            if !before {
                proof {
                    lemma_preset_before_total(kv, a as int, b as int);
                }
                break;
            }
            let ghost old_r = r@;
            r.set(j - 1, b);
            r.set(j, a);
            proof {
                assert forall|q: int| j - 1 < q <= i implies preset_before(kv, r@[j - 1] as int, #[trigger] r@[q] as int) by {
                    if q > j {
                        assert(preset_before(kv, old_r[j as int] as int, old_r[q] as int));
                    }
                }
                assert forall|p: int, q: int|
                    0 <= p < q <= i && p != j - 1 && q != j - 1 implies preset_before(kv, #[trigger] r@[p] as int, #[trigger] r@[q] as int) by {
                    if q == j {
                        if p < j - 1 {
                            assert(preset_before(kv, old_r[p] as int, old_r[j - 1] as int));
                        }
                    } else if p == j {
                        assert(preset_before(kv, old_r[j - 1] as int, old_r[q] as int));
                    } else {
                        assert(r@[p] == old_r[p] && r@[q] == old_r[q]);
                    }
                }
            }
            j = j - 1;
        }
        proof {
            assert forall|p: int, q: int| 0 <= p < q <= i implies preset_before(kv, #[trigger] r@[p] as int, #[trigger] r@[q] as int) by {
                if q == j && p < j {
                    if p < j - 1 {
                        lemma_preset_before_trans(kv, r@[p] as int, r@[j - 1] as int, r@[j as int] as int);
                    }
                } else if p == j {
                }
            }
        }
        i = i + 1;
    }
    r
}

fn chars_eq_vec(a: &Vec<char>, b: &Vec<char>) -> (r: bool)
    ensures
        r == (a@ == b@),
{
    crate::text::chars_equal(a.as_slice(), b.as_slice())
}
} // verus!
