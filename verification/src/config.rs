//! The global application settings and their XML form.
//!
//! The settings file holds one element per setting inside
//! `<fff_viewer_config>`; favourites are joined by `|`, and directory scan
//! depths are written as `path:depth` pairs joined by `|`. Reading takes every
//! setting that is present from the first element of its name and keeps the
//! default of every other one.
use vstd::prelude::*;

use crate::text::{
    all_digits, append_str, chars_of, decimal, digit_char, digits_value, is_digit, is_ws, parse_int,
    parse_int_spec, push_chars, string_from_chars, trim, trim_end_index, trim_range, trim_start_index,
    u64_decimal,
};
use crate::xml_text::{
    close_tag, escape, escape_char, field_line, first_at, lemma_clean_concat, lemma_clean_no_lt,
    lemma_clean_other_line, lemma_clean_other_open, lemma_tag_text_of_line, no_lt, open_tag, split_chars,
    split_on, tag_content, tag_text, unescape, xml_escape, xml_unescape,
};

verus! {

/// The application settings.
#[derive(Debug, Clone)]
pub struct AppConfig {
    /// Whether rendering uses the GPU.
    pub gpu_enabled: bool,
    /// Preferred GPU device name (empty: automatic).
    pub gpu_device: String,
    /// Number of render threads.
    pub render_threads: usize,
    /// UI language code.
    pub language: String,
    /// Favourite directories.
    pub favorites: Vec<String>,
    /// Scan depth per directory (0 flat, 1 one level, 2 all); each directory
    /// occurs once.
    pub dir_scan_modes: Vec<(String, u8)>,
}

/// The settings as plain values.
#[verifier::ext_equal]
pub struct AppConfigView {
    pub gpu_enabled: bool,
    pub gpu_device: Seq<char>,
    pub render_threads: int,
    pub language: Seq<char>,
    pub favorites: Seq<Seq<char>>,
    pub dir_scan_modes: Seq<(Seq<char>, u8)>,
}

impl View for AppConfig {
    type V = AppConfigView;

    open spec fn view(&self) -> AppConfigView {
        AppConfigView {
            gpu_enabled: self.gpu_enabled,
            gpu_device: self.gpu_device@,
            render_threads: self.render_threads as int,
            language: self.language@,
            favorites: self.favorites@.map_values(|f: String| f@),
            dir_scan_modes: self.dir_scan_modes@.map_values(|p: (String, u8)| (p.0@, p.1)),
        }
    }
}

/// `"true"` or `"false"`.
pub open spec fn bool_text(b: bool) -> Seq<char> {
    if b {
        "true"@
    } else {
        "false"@
    }
}

/// The pieces joined by `sep`.
pub open spec fn join(pieces: Seq<Seq<char>>, sep: char) -> Seq<char>
    decreases pieces.len(),
{
    if pieces.len() == 0 {
        seq![]
    } else if pieces.len() == 1 {
        pieces[0]
    } else {
        join(pieces.drop_last(), sep) + seq![sep] + pieces.last()
    }
}

/// The favourites as written: each escaped.
pub open spec fn favorite_pieces(favs: Seq<Seq<char>>) -> Seq<Seq<char>> {
    favs.map_values(|f: Seq<char>| escape(f))
}

/// The scan depths as written: `escaped-path:depth`.
pub open spec fn mode_pieces(modes: Seq<(Seq<char>, u8)>) -> Seq<Seq<char>> {
    modes.map_values(|m: (Seq<char>, u8)| escape(m.0) + seq![':'] + decimal(m.1 as nat))
}

/// The XML declaration line.
pub open spec fn xml_declaration() -> Seq<char> {
    "<?xml version=\"1.0\" encoding=\"UTF-8\"?>\n"@
}

/// The `(tag, content)` pairs of the settings' field lines: `gpu_enabled`,
/// `gpu_device` (escaped), `render_threads`, `language` (escaped),
/// `favorites` and `dir_scan_modes`.
pub open spec fn config_fields(c: AppConfigView) -> Seq<(Seq<char>, Seq<char>)> {
    seq![
        ("gpu_enabled"@, bool_text(c.gpu_enabled)),
        ("gpu_device"@, escape(c.gpu_device)),
        ("render_threads"@, decimal(c.render_threads as nat)),
        ("language"@, escape(c.language)),
        ("favorites"@, join(favorite_pieces(c.favorites), '|')),
        ("dir_scan_modes"@, join(mode_pieces(c.dir_scan_modes), '|')),
    ]
}

/// The XML text of the settings: the declaration, then the field lines
/// inside `<fff_viewer_config>`.
pub open spec fn config_xml(c: AppConfigView) -> Seq<char> {
    xml_declaration() + (open_tag("fff_viewer_config"@) + seq!['\n']) + crate::xml_text::lines_text(config_fields(c))
        + (close_tag("fff_viewer_config"@) + seq!['\n'])
}

/// The favourites read from the pieces of the `favorites` element: each
/// trimmed and unescaped, empty ones dropped.
pub open spec fn read_favorites(pieces: Seq<Seq<char>>) -> Seq<Seq<char>>
    decreases pieces.len(),
{
    if pieces.len() == 0 {
        seq![]
    } else {
        let u = unescape(trim(pieces.last()));
        let front = read_favorites(pieces.drop_last());
        if u.len() > 0 {
            front.push(u)
        } else {
            front
        }
    }
}

/// The last index of `c` in `s`.
pub open spec fn last_index(s: Seq<char>, c: char) -> Option<int>
    decreases s.len(),
{
    if s.len() == 0 {
        None
    } else if s.last() == c {
        Some(s.len() - 1)
    } else {
        last_index(s.drop_last(), c)
    }
}

/// The index of the entry for directory `k`.
pub open spec fn key_index(m: Seq<(Seq<char>, u8)>, k: Seq<char>) -> Option<int>
    decreases m.len(),
{
    if m.len() == 0 {
        None
    } else {
        match key_index(m.drop_last(), k) {
            Some(i) => Some(i),
            None => if m.last().0 == k {
                Some(m.len() - 1)
            } else {
                None
            },
        }
    }
}

/// `m` with directory `k` mapped to `v`: an existing entry is updated in
/// place, a new one is appended.
pub open spec fn map_insert(m: Seq<(Seq<char>, u8)>, k: Seq<char>, v: u8) -> Seq<(Seq<char>, u8)> {
    match key_index(m, k) {
        Some(i) => m.update(i, (k, v)),
        None => m.push((k, v)),
    }
}

/// The scan depths read from the pieces of the `dir_scan_modes` element:
/// each piece split at its last `:` into a trimmed, unescaped path and a
/// trimmed depth byte (limited to 2); pieces without `:` or without a valid
/// byte are skipped, and a later piece for the same path wins.
pub open spec fn read_modes(pieces: Seq<Seq<char>>) -> Seq<(Seq<char>, u8)>
    decreases pieces.len(),
{
    if pieces.len() == 0 {
        seq![]
    } else {
        let m = read_modes(pieces.drop_last());
        let pair = pieces.last();
        match last_index(pair, ':') {
            Some(c) => match parse_int_spec(trim(pair.skip(c + 1)), 0, 255) {
                Some(d) => map_insert(m, unescape(trim(pair.take(c))), if d > 2 { 2u8 } else { d as u8 }),
                None => m,
            },
            None => m,
        }
    }
}

/// The settings read from an XML text, with the given default thread count
/// (at least 1) and language; `None` when the text has no
/// `<fff_viewer_config>`.
pub open spec fn parse_config(xml: Seq<char>, threads: usize, language: Seq<char>) -> Option<AppConfigView> {
    if first_at(xml, "<fff_viewer_config>"@, 0) is None {
        None
    } else {
        Some(
            AppConfigView {
                gpu_enabled: match tag_text(xml, "gpu_enabled"@) {
                    Some(v) => v == "true"@,
                    None => true,
                },
                gpu_device: match tag_text(xml, "gpu_device"@) {
                    Some(v) => unescape(v),
                    None => seq![],
                },
                render_threads: match tag_text(xml, "render_threads"@) {
                    Some(v) => match parse_int_spec(v, 0, usize::MAX as int) {
                        Some(n) => if n < 1 {
                            1
                        } else {
                            n
                        },
                        None => if threads < 1 {
                            1
                        } else {
                            threads as int
                        },
                    },
                    None => if threads < 1 {
                        1
                    } else {
                        threads as int
                    },
                },
                language: match tag_text(xml, "language"@) {
                    Some(v) => unescape(v),
                    None => language,
                },
                favorites: match tag_text(xml, "favorites"@) {
                    Some(v) => if v.len() > 0 {
                        read_favorites(split_on(v, '|'))
                    } else {
                        seq![]
                    },
                    None => seq![],
                },
                dir_scan_modes: match tag_text(xml, "dir_scan_modes"@) {
                    Some(v) => if v.len() > 0 {
                        read_modes(split_on(v, '|'))
                    } else {
                        seq![]
                    },
                    None => seq![],
                },
            },
        )
    }
}

fn push_escaped(s: &mut String, t: &String)
    ensures
        final(s)@ == old(s)@ + escape(t@),
{
    let v = chars_of(t.as_str());
    let e = xml_escape(v.as_slice());
    push_chars(s, e.as_slice());
}

fn text_of(v: &[char]) -> (s: String)
    ensures
        s@ == v@,
{
    let s = string_from_chars(v, 0, v.len());
    assert(v@.subrange(0, v@.len() as int) =~= v@);
    s
}

/// The default number of render threads for a machine with `cpus`
/// processors: a quarter of them, at least one.
pub fn default_thread_count_for(cpus: usize) -> (r: usize)
    ensures
        r == if cpus / 4 < 1 { 1 } else { cpus / 4 },
        r >= 1,
{
    let q = cpus / 4;
    if q < 1 {
        1
    } else {
        q
    }
}

impl AppConfig {
    /// Settings with the given thread count and language, the GPU on with
    /// automatic device choice, and no favourites or scan depths.
    pub fn with_defaults(render_threads: usize, language: String) -> (r: Self)
        ensures
            r.gpu_enabled,
            r.gpu_device@ == Seq::<char>::empty(),
            r.render_threads == render_threads,
            r.language@ == language@,
            r.favorites@.len() == 0,
            r.dir_scan_modes@.len() == 0,
    {
        AppConfig {
            gpu_enabled: true,
            gpu_device: String::new(),
            render_threads,
            language,
            favorites: Vec::new(),
            dir_scan_modes: Vec::new(),
        }
    }

    /// The XML text of the settings.
    pub fn to_xml(&self) -> (s: String)
        ensures
            s@ == config_xml(self@),
    {
        let ghost fs = config_fields(self@);
        let mut s = String::new();
        append_str(&mut s, "<?xml version=\"1.0\" encoding=\"UTF-8\"?>\n");
        push_open_line(&mut s, "fff_viewer_config");
        let ghost head = s@;
        proof {
            reveal_strlit("<?xml version=\"1.0\" encoding=\"UTF-8\"?>\n");
            assert(head =~= xml_declaration() + (open_tag("fff_viewer_config"@) + seq!['\n']));
            assert(fs.take(0) =~= Seq::<(Seq<char>, Seq<char>)>::empty());
            reveal_strlit("gpu_enabled");
            reveal_strlit("gpu_device");
            reveal_strlit("render_threads");
            reveal_strlit("language");
            reveal_strlit("favorites");
            reveal_strlit("dir_scan_modes");
        }
        let b = if self.gpu_enabled {
            text_of_str("true")
        } else {
            text_of_str("false")
        };
        push_field(&mut s, "gpu_enabled", &b);
        proof {
            lemma_take_step(fs, 0);
        }
        let dev = escaped_string(&self.gpu_device);
        push_field(&mut s, "gpu_device", &dev);
        proof {
            lemma_take_step(fs, 1);
        }
        let t = u64_decimal(self.render_threads as u64);
        push_field(&mut s, "render_threads", &t);
        proof {
            lemma_take_step(fs, 2);
        }
        let lang = escaped_string(&self.language);
        push_field(&mut s, "language", &lang);
        proof {
            lemma_take_step(fs, 3);
        }
        let favs = self.favorites_text();
        push_field(&mut s, "favorites", &favs);
        proof {
            lemma_take_step(fs, 4);
        }
        let modes = self.modes_text();
        push_field(&mut s, "dir_scan_modes", &modes);
        proof {
            lemma_take_step(fs, 5);
            assert(fs.take(6) =~= fs);
        }
        push_close_line(&mut s, "fff_viewer_config");
        assert(s@ =~= config_xml(self@));
        s
    }

    fn favorites_text(&self) -> (s: String)
        ensures
            s@ == join(favorite_pieces(self@.favorites), '|'),
    {
        let mut s = String::new();
        let ghost favs = favorite_pieces(self@.favorites);
        let mut i: usize = 0;
        while i < self.favorites.len()
            invariant
                i <= self.favorites@.len(),
                favs == favorite_pieces(self@.favorites),
                favs.len() == self.favorites@.len(),
                s@ == join(favs.take(i as int), '|'),
            decreases self.favorites@.len() - i,
        {
            if i > 0 {
                append_str(&mut s, "|");
            }
            push_escaped(&mut s, &self.favorites[i]);
            proof {
                reveal_strlit("|");
                let tk = favs.take(i + 1);
                assert(tk.drop_last() =~= favs.take(i as int));
                assert(tk.last() == escape(self.favorites@[i as int]@));
                if i == 0 {
                    assert(join(tk, '|') == tk[0]);
                    assert(favs.take(0) =~= Seq::<Seq<char>>::empty());
                }
            }
            i = i + 1;
        }
        proof {
            if self.favorites@.len() == 0 {
                assert(favs.take(0) =~= Seq::<Seq<char>>::empty());
            }
        }
        assert(favs.take(i as int) =~= favs);
        s
    }

    fn modes_text(&self) -> (s: String)
        ensures
            s@ == join(mode_pieces(self@.dir_scan_modes), '|'),
    {
        let mut s = String::new();
        let ghost modes = mode_pieces(self@.dir_scan_modes);
        let mut j: usize = 0;
        proof {
            assert(modes.take(0) =~= Seq::<Seq<char>>::empty());
        }
        while j < self.dir_scan_modes.len()
            invariant
                j <= self.dir_scan_modes@.len(),
                modes == mode_pieces(self@.dir_scan_modes),
                modes.len() == self.dir_scan_modes@.len(),
                s@ == join(modes.take(j as int), '|'),
            decreases self.dir_scan_modes@.len() - j,
        {
            if j > 0 {
                append_str(&mut s, "|");
            }
            let ghost at2 = s@;
            push_escaped(&mut s, &self.dir_scan_modes[j].0);
            append_str(&mut s, ":");
            let d = u64_decimal(self.dir_scan_modes[j].1 as u64);
            append_str(&mut s, d.as_str());
            proof {
                reveal_strlit("|");
                reveal_strlit(":");
                let tk = modes.take(j + 1);
                assert(tk.drop_last() =~= modes.take(j as int));
                let m = self.dir_scan_modes@[j as int];
                assert(tk.last() == escape(m.0@) + seq![':'] + decimal(m.1 as nat));
                assert(s@ =~= at2 + tk.last());
                if j == 0 {
                    assert(join(tk, '|') == tk[0]);
                }
            }
            j = j + 1;
        }
        assert(modes.take(j as int) =~= modes);
        s
    }
}

proof fn lemma_take_step(fs: Seq<(Seq<char>, Seq<char>)>, k: int)
    requires
        0 <= k < fs.len(),
    ensures
        crate::xml_text::lines_text(fs.take(k + 1)) == crate::xml_text::lines_text(fs.take(k)) + field_line(
            fs[k].0,
            fs[k].1,
        ),
{
    assert(fs.take(k + 1).drop_last() =~= fs.take(k));
    assert(fs.take(k + 1).last() == fs[k]);
}

fn text_of_str(t: &str) -> (s: String)
    ensures
        s@ == t@,
{
    let mut s = String::new();
    append_str(&mut s, t);
    assert(s@ =~= t@);
    s
}

fn escaped_string(t: &String) -> (s: String)
    ensures
        s@ == escape(t@),
{
    let mut s = String::new();
    push_escaped(&mut s, t);
    assert(s@ =~= escape(t@));
    s
}

/// Appends `<tag>` and a line break.
fn push_open_line(s: &mut String, tag: &str)
    ensures
        final(s)@ == old(s)@ + (open_tag(tag@) + seq!['\n']),
{
    append_str(s, "<");
    append_str(s, tag);
    append_str(s, ">\n");
    proof {
        reveal_strlit("<");
        reveal_strlit(">\n");
    }
    assert(s@ =~= old(s)@ + (open_tag(tag@) + seq!['\n']));
}

/// Appends `</tag>` and a line break.
fn push_close_line(s: &mut String, tag: &str)
    ensures
        final(s)@ == old(s)@ + (close_tag(tag@) + seq!['\n']),
{
    append_str(s, "</");
    append_str(s, tag);
    append_str(s, ">\n");
    proof {
        reveal_strlit("</");
        reveal_strlit(">\n");
    }
    assert(s@ =~= old(s)@ + (close_tag(tag@) + seq!['\n']));
}

/// Appends the field line `  <tag>content</tag>`.
fn push_field(s: &mut String, tag: &str, content: &String)
    ensures
        final(s)@ == old(s)@ + field_line(tag@, content@),
{
    append_str(s, "  <");
    append_str(s, tag);
    append_str(s, ">");
    append_str(s, content.as_str());
    append_str(s, "</");
    append_str(s, tag);
    append_str(s, ">\n");
    proof {
        reveal_strlit("  <");
        reveal_strlit(">");
        reveal_strlit("</");
        reveal_strlit(">\n");
    }
    assert(s@ =~= old(s)@ + field_line(tag@, content@));
}

/// The characters `v[lo..hi]` without surrounding whitespace.
pub fn trimmed_chars(v: &[char], lo: usize, hi: usize) -> (r: Vec<char>)
    requires
        lo <= hi <= v@.len(),
    ensures
        r@ == trim(v@.subrange(lo as int, hi as int)),
{
    let (a, b) = trim_range(v, lo, hi);
    let mut out: Vec<char> = Vec::new();
    let mut m = a;
    while m < b
        invariant
            a <= m <= b <= v@.len(),
            out@ == v@.subrange(a as int, m as int),
        decreases b - m,
    {
        out.push(v[m]);
        m = m + 1;
        assert(out@ =~= v@.subrange(a as int, m as int));
    }
    out
}

proof fn lemma_last_index(s: Seq<char>, c: char, r: Option<usize>)
    requires
        r matches Some(i) ==> 0 <= i < s.len() && s[i as int] == c && forall|j: int| i < j < s.len() ==> s[j] != c,
        r is None ==> forall|j: int| 0 <= j < s.len() ==> s[j] != c,
    ensures
        last_index(s, c) == (match r {
            Some(i) => Some(i as int),
            None => None::<int>,
        }),
    decreases s.len(),
{
    if s.len() > 0 {
        if s.last() != c {
            if let Some(i) = r {
                assert(i as int != s.len() - 1);
            }
            lemma_last_index(s.drop_last(), c, r);
        } else {
            if let Some(i) = r {
                if (i as int) < s.len() - 1 {
                    assert(s[s.len() - 1] != c);
                }
            }
        }
    }
}

proof fn lemma_key_index(m: Seq<(Seq<char>, u8)>, k: Seq<char>, i: int)
    requires
        0 <= i <= m.len(),
        forall|j: int| 0 <= j < i ==> m[j].0 != k,
    ensures
        i < m.len() && m[i].0 == k ==> key_index(m, k) == Some(i),
        i == m.len() ==> key_index(m, k) is None,
    decreases m.len(),
{
    if m.len() > 0 {
        if i < m.len() && m[i].0 == k {
            lemma_key_index(m.drop_last(), k, i);
        } else if i == m.len() {
            lemma_key_index(m.drop_last(), k, i - 1);
        }
    }
}

fn insert_mode(modes: &mut Vec<(String, u8)>, path: String, depth: u8)
    ensures
        final(modes)@.map_values(|p: (String, u8)| (p.0@, p.1)) == map_insert(
            old(modes)@.map_values(|p: (String, u8)| (p.0@, p.1)),
            path@,
            depth,
        ),
{
    let ghost mv = modes@.map_values(|p: (String, u8)| (p.0@, p.1));
    let mut i: usize = 0;
    while i < modes.len()
        invariant
            i <= modes@.len(),
            mv == modes@.map_values(|p: (String, u8)| (p.0@, p.1)),
            modes@ == old(modes)@,
            forall|j: int| 0 <= j < i ==> mv[j].0 != path@,
        decreases modes@.len() - i,
    {
        if crate::text::str_equals(modes[i].0.as_str(), path.as_str()) {
            proof {
                lemma_key_index(mv, path@, i as int);
            }
            let ghost old_mv = mv;
            modes.set(i, (path, depth));
            assert(modes@.map_values(|p: (String, u8)| (p.0@, p.1)) =~= old_mv.update(i as int, (path@, depth)));
            return;
        }
        i = i + 1;
    }
    proof {
        lemma_key_index(mv, path@, i as int);
    }
    let ghost p = path@;
    modes.push((path, depth));
    assert(modes@.map_values(|q: (String, u8)| (q.0@, q.1)) =~= mv.push((p, depth)));
}

impl AppConfig {
    /// The settings read from an XML text (`parse_config`), starting from the
    /// given default thread count and language.
    pub fn parse_xml(xml: &str, default_threads: usize, default_language: String) -> (r: Option<Self>)
        ensures
            match r {
                Some(c) => parse_config(xml@, default_threads, default_language@) == Some(c@),
                None => parse_config(xml@, default_threads, default_language@) is None,
            },
    {
        let v = chars_of(xml);
        let marker = chars_of("<fff_viewer_config>");
        if crate::xml_text::find_first(v.as_slice(), marker.as_slice(), 0).is_none() {
            return None;
        }
        let mut config = AppConfig::with_defaults(if default_threads < 1 { 1 } else { default_threads }, default_language);
        match tag_content(v.as_slice(), "gpu_enabled") {
            Some(t) => {
                let tv = chars_of("true");
                config.gpu_enabled = crate::text::chars_equal(t.as_slice(), tv.as_slice());
            },
            None => {},
        }
        match tag_content(v.as_slice(), "gpu_device") {
            Some(t) => {
                let u = xml_unescape(t.as_slice());
                config.gpu_device = text_of(u.as_slice());
            },
            None => {},
        }
        match tag_content(v.as_slice(), "render_threads") {
            Some(t) => {
                match parse_int(t.as_slice(), 0, t.len(), 0, usize::MAX as i128) {
                    Some(n) => {
                        assert(t@.subrange(0, t@.len() as int) =~= t@);
                        config.render_threads = if n < 1 {
                            1
                        } else {
                            n as usize
                        };
                    },
                    None => {
                        assert(t@.subrange(0, t@.len() as int) =~= t@);
                    },
                }
            },
            None => {},
        }
        match tag_content(v.as_slice(), "language") {
            Some(t) => {
                let u = xml_unescape(t.as_slice());
                config.language = text_of(u.as_slice());
            },
            None => {},
        }
        match tag_content(v.as_slice(), "favorites") {
            Some(t) => {
                if t.len() > 0 {
                    let pieces = split_chars(t.as_slice(), '|');
                    let ghost ps = split_on(t@, '|');
                    let mut favs: Vec<String> = Vec::new();
                    let mut i: usize = 0;
                    while i < pieces.len()
                        invariant
                            i <= pieces@.len(),
                            pieces@.len() == ps.len(),
                            forall|m: int| 0 <= m < pieces@.len() ==> (#[trigger] pieces@[m])@ == ps[m],
                            favs@.map_values(|f: String| f@) == read_favorites(ps.take(i as int)),
                        decreases pieces@.len() - i,
                    {
                        let p = &pieces[i];
                        let tp = trimmed_chars(p.as_slice(), 0, p.len());
                        assert(p@.subrange(0, p@.len() as int) =~= p@);
                        let u = xml_unescape(tp.as_slice());
                        let ghost before = favs@.map_values(|f: String| f@);
                        proof {
                            assert(ps.take(i + 1).drop_last() =~= ps.take(i as int));
                            assert(ps.take(i + 1).last() == ps[i as int]);
                        }
                        if u.len() > 0 {
                            let f = text_of(u.as_slice());
                            favs.push(f);
                            assert(favs@.map_values(|f: String| f@) =~= before.push(u@));
                        }
                        i = i + 1;
                    }
                    assert(ps.take(i as int) =~= ps);
                    config.favorites = favs;
                }
            },
            None => {},
        }
        match tag_content(v.as_slice(), "dir_scan_modes") {
            Some(t) => {
                if t.len() > 0 {
                    let pieces = split_chars(t.as_slice(), '|');
                    let ghost ps = split_on(t@, '|');
                    let mut modes: Vec<(String, u8)> = Vec::new();
                    let mut i: usize = 0;
                    while i < pieces.len()
                        invariant
                            i <= pieces@.len(),
                            pieces@.len() == ps.len(),
                            forall|m: int| 0 <= m < pieces@.len() ==> (#[trigger] pieces@[m])@ == ps[m],
                            modes@.map_values(|p: (String, u8)| (p.0@, p.1)) == read_modes(ps.take(i as int)),
                        decreases pieces@.len() - i,
                    {
                        let p = &pieces[i];
                        proof {
                            assert(ps.take(i + 1).drop_last() =~= ps.take(i as int));
                            assert(ps.take(i + 1).last() == ps[i as int]);
                        }
                        let colon = crate::text::rfind_char(p.as_slice(), 0, p.len(), ':');
                        proof {
                            lemma_last_index(p@, ':', colon);
                        }
                        match colon {
                            Some(c) => {
                                let tp = trimmed_chars(p.as_slice(), 0, c);
                                let td = trimmed_chars(p.as_slice(), c + 1, p.len());
                                proof {
                                    assert(p@.subrange(0, c as int) =~= p@.take(c as int));
                                    assert(p@.subrange(c + 1, p@.len() as int) =~= p@.skip(c + 1));
                                }
                                match parse_int(td.as_slice(), 0, td.len(), 0, 255) {
                                    Some(d) => {
                                        assert(td@.subrange(0, td@.len() as int) =~= td@);
                                        let u = xml_unescape(tp.as_slice());
                                        let path = text_of(u.as_slice());
                                        let depth: u8 = if d > 2 {
                                            2
                                        } else {
                                            d as u8
                                        };
                                        insert_mode(&mut modes, path, depth);
                                    },
                                    None => {
                                        assert(td@.subrange(0, td@.len() as int) =~= td@);
                                    },
                                }
                            },
                            None => {},
                        }
                        i = i + 1;
                    }
                    assert(ps.take(i as int) =~= ps);
                    config.dir_scan_modes = modes;
                }
            },
            None => {},
        }
        proof {
            reveal_strlit("true");
            reveal_strlit("<fff_viewer_config>");
            let want = parse_config(xml@, default_threads, default_language@);
            assert(want is Some);
            assert(config@.gpu_enabled == want.unwrap().gpu_enabled);
            assert(config@.gpu_device =~= want.unwrap().gpu_device);
            assert(config@.render_threads == want.unwrap().render_threads);
            assert(config@.language =~= want.unwrap().language);
            assert(config@.favorites =~= want.unwrap().favorites);
            assert(config@.dir_scan_modes =~= want.unwrap().dir_scan_modes);
            assert(config@ =~= want.unwrap());
        }
        Some(config)
    }
}

// ─── Reading back what was written ─────────────────────────────────────────

/// `s` has no whitespace at either end.
pub open spec fn untrimmed(s: Seq<char>) -> bool {
    s.len() == 0 || (!is_ws(s[0]) && !is_ws(s.last()))
}

/// `s` does not hold `c`.
pub open spec fn lacks(s: Seq<char>, c: char) -> bool {
    forall|i: int| 0 <= i < s.len() ==> #[trigger] s[i] != c
}

/// Characters that escapes introduce.
pub open spec fn escape_letter(c: char) -> bool {
    c == '&' || c == 'a' || c == 'm' || c == 'p' || c == ';' || c == 'l' || c == 't' || c == 'g' || c == 'q'
        || c == 'u' || c == 'o'
}

pub proof fn lemma_trim_noop(s: Seq<char>)
    requires
        untrimmed(s),
    ensures
        trim(s) == s,
{
    assert(trim_start_index(s) == 0);
    let t = s.subrange(0, s.len() as int);
    assert(t =~= s);
    assert(trim_end_index(t) == t.len());
    assert(t.subrange(0, t.len() as int) =~= s);
}

pub proof fn lemma_escape_facts(d: Seq<char>)
    ensures
        escape(d).len() >= d.len(),
        d.len() > 0 ==> escape(d).len() > 0 && escape(d)[0] == escape_char(d[0])[0]
            && escape(d).last() == escape_char(d.last()).last(),
        forall|j: int|
            0 <= j < escape(d).len() ==> escape_letter(#[trigger] escape(d)[j]) || exists|i: int|
                0 <= i < d.len() && d[i] == escape(d)[j],
        no_lt(escape(d)),
    decreases d.len(),
{
    if d.len() > 0 {
        let rest = d.skip(1);
        lemma_escape_facts(rest);
        let e0 = escape_char(d[0]);
        let e = escape(d);
        assert(e =~= e0 + escape(rest));
        if rest.len() > 0 {
            assert(rest.last() == d.last());
        } else {
            assert(d.len() == 1);
        }
        assert forall|j: int| 0 <= j < e.len() implies escape_letter(#[trigger] e[j]) || exists|i: int|
            0 <= i < d.len() && d[i] == e[j] by {
            if j < e0.len() {
                if !escape_letter(e[j]) {
                    assert(e[j] == d[0]);
                }
            } else {
                let jj = j - e0.len();
                assert(e[j] == escape(rest)[jj]);
                if !escape_letter(e[j]) {
                    let i = choose|i: int| 0 <= i < rest.len() && rest[i] == escape(rest)[jj];
                    assert(d[i + 1] == rest[i]);
                }
            }
        }
        assert forall|j: int| 0 <= j < e.len() implies #[trigger] e[j] != '<' by {
            if j >= e0.len() {
                assert(e[j] == escape(rest)[j - e0.len()]);
            }
        }
    }
}

pub proof fn lemma_escape_untrimmed(d: Seq<char>)
    requires
        untrimmed(d),
    ensures
        untrimmed(escape(d)),
{
    lemma_escape_facts(d);
}

pub proof fn lemma_escape_lacks(d: Seq<char>, c: char)
    requires
        lacks(d, c),
        !escape_letter(c),
    ensures
        lacks(escape(d), c),
{
    lemma_escape_facts(d);
    assert forall|j: int| 0 <= j < escape(d).len() implies #[trigger] escape(d)[j] != c by {
        if escape(d)[j] == c {
            let i = choose|i: int| 0 <= i < d.len() && d[i] == escape(d)[j];
        }
    }
}

pub proof fn lemma_decimal_facts(n: nat)
    ensures
        decimal(n).len() > 0,
        all_digits(decimal(n)),
        digits_value(decimal(n)) == n,
    decreases n,
{
    if n >= 10 {
        lemma_decimal_facts(n / 10);
        let s = decimal(n / 10);
        let c = digit_char(n % 10);
        assert(decimal(n) == s.push(c));
        assert(s.push(c).drop_last() =~= s);
        assert((c as u32) == 48 + n % 10);
        assert(n == (n / 10) * 10 + n % 10) by (nonlinear_arith);
        assert(s.push(c).last() == c);
        assert(digits_value(s.push(c)) == digits_value(s) * 10 + ((c as u32 - '0' as u32) as nat));
        assert forall|i: int| 0 <= i < s.push(c).len() implies is_digit(#[trigger] s.push(c)[i]) by {
            if i < s.len() {
                assert(s.push(c)[i] == s[i]);
            }
        }
    } else {
        assert(seq![digit_char(n)].drop_last() =~= Seq::<char>::empty());
        assert((digit_char(n) as u32) == 48 + n);
        assert(digits_value(seq![digit_char(n)]) == digits_value(Seq::<char>::empty()) * 10 + ((digit_char(n) as u32 - '0' as u32) as nat));
    }
}

pub proof fn lemma_parse_decimal(n: nat, max: int)
    requires
        n <= max,
    ensures
        parse_int_spec(decimal(n), 0, max) == Some(n as int),
        untrimmed(decimal(n)),
        lacks(decimal(n), '|'),
        lacks(decimal(n), ':'),
        no_lt(decimal(n)),
{
    lemma_decimal_facts(n);
    let s = decimal(n);
    assert(is_digit(s[0]));
    assert(is_digit(s.last()));
    assert(!(s[0] == '-' || s[0] == '+'));
    assert forall|i: int| 0 <= i < s.len() implies #[trigger] s[i] != '|' && s[i] != ':' && s[i] != '<' by {
        assert(is_digit(s[i]));
    }
}

pub proof fn lemma_split_extend(a: Seq<char>, l: Seq<char>, sep: char)
    requires
        lacks(l, sep),
    ensures
        split_on(a + l, sep) == split_on(a, sep).update(
            split_on(a, sep).len() - 1,
            split_on(a, sep).last() + l,
        ),
        split_on(a + l, sep).len() == split_on(a, sep).len(),
    decreases l.len(),
{
    crate::xml_text::lemma_split_nonempty(a, sep);
    if l.len() == 0 {
        assert(a + l =~= a);
        let p = split_on(a, sep);
        assert(p.last() + l =~= p.last());
        assert(p.update(p.len() - 1, p.last()) =~= p);
    } else {
        let l0 = l.drop_last();
        assert(lacks(l0, sep));
        lemma_split_extend(a, l0, sep);
        assert((a + l).drop_last() =~= a + l0);
        assert((a + l).last() == l.last());
        let p = split_on(a, sep);
        let q = split_on(a + l0, sep);
        assert(q.last() == p.last() + l0);
        assert((p.last() + l0).push(l.last()) =~= p.last() + l);
        assert(split_on(a + l, sep) =~= p.update(p.len() - 1, p.last() + l));
    }
}

pub proof fn lemma_split_join(ps: Seq<Seq<char>>, sep: char)
    requires
        ps.len() >= 1,
        forall|i: int| 0 <= i < ps.len() ==> lacks(#[trigger] ps[i], sep),
    ensures
        split_on(join(ps, sep), sep) == ps,
    decreases ps.len(),
{
    if ps.len() == 1 {
        lemma_split_extend(seq![], ps[0], sep);
        assert(Seq::<char>::empty() + ps[0] =~= ps[0]);
        assert(split_on(Seq::<char>::empty(), sep) =~= seq![Seq::<char>::empty()]);
        assert(seq![Seq::<char>::empty()].update(0, Seq::<char>::empty() + ps[0]) =~= ps);
    } else {
        let front = ps.drop_last();
        assert forall|i: int| 0 <= i < front.len() implies lacks(#[trigger] front[i], sep) by {
            assert(front[i] == ps[i]);
        }
        lemma_split_join(front, sep);
        let x = join(front, sep) + seq![sep];
        assert(x.drop_last() =~= join(front, sep));
        assert(split_on(x, sep) == front.push(seq![]));
        lemma_split_extend(x, ps.last(), sep);
        assert(Seq::<char>::empty() + ps.last() =~= ps.last());
        assert(front.push(seq![]).update(front.len() as int, ps.last()) =~= ps);
    }
}

pub proof fn lemma_join_ends(ps: Seq<Seq<char>>, sep: char)
    requires
        ps.len() >= 1,
        ps[0].len() > 0,
        ps.last().len() > 0,
    ensures
        join(ps, sep).len() > 0,
        join(ps, sep)[0] == ps[0][0],
        join(ps, sep).last() == ps.last().last(),
    decreases ps.len(),
{
    if ps.len() > 1 {
        let front = ps.drop_last();
        if front.len() >= 1 && front.last().len() > 0 {
            lemma_join_ends(front, sep);
        } else {
            lemma_join_first(front, sep);
        }
    }
}

pub proof fn lemma_join_first(ps: Seq<Seq<char>>, sep: char)
    requires
        ps.len() >= 1,
        ps[0].len() > 0,
    ensures
        join(ps, sep).len() > 0,
        join(ps, sep)[0] == ps[0][0],
    decreases ps.len(),
{
    if ps.len() > 1 {
        lemma_join_first(ps.drop_last(), sep);
    }
}

pub proof fn lemma_join_lacks(ps: Seq<Seq<char>>, sep: char, c: char)
    requires
        c != sep,
        forall|i: int| 0 <= i < ps.len() ==> lacks(#[trigger] ps[i], c),
    ensures
        lacks(join(ps, sep), c),
    decreases ps.len(),
{
    if ps.len() > 1 {
        let front = ps.drop_last();
        assert forall|i: int| 0 <= i < front.len() implies lacks(#[trigger] front[i], c) by {
            assert(front[i] == ps[i]);
        }
        lemma_join_lacks(front, sep, c);
        let j = join(ps, sep);
        let a = join(front, sep);
        assert(j == a + seq![sep] + ps.last());
        assert forall|i: int| 0 <= i < j.len() implies #[trigger] j[i] != c by {
            if i < a.len() {
                assert(j[i] == a[i]);
            } else if i > a.len() {
                assert(j[i] == ps.last()[i - a.len() - 1]);
            }
        }
    } else if ps.len() == 1 {
        assert(lacks(ps[0], c));
    }
}

/// Settings that read back unchanged: at least one thread, names without
/// surrounding whitespace, favourites non-empty and without `|`, scan
/// paths without `|` and listed once, depths at most 2.
pub open spec fn config_round_trips(c: AppConfigView) -> bool {
    &&& c.render_threads >= 1
    &&& untrimmed(c.gpu_device)
    &&& untrimmed(c.language)
    &&& forall|i: int| 0 <= i < c.favorites.len() ==> (#[trigger] c.favorites[i]).len() > 0
        && untrimmed(c.favorites[i]) && lacks(c.favorites[i], '|')
    &&& forall|i: int| 0 <= i < c.dir_scan_modes.len() ==> untrimmed((#[trigger] c.dir_scan_modes[i]).0)
        && lacks(c.dir_scan_modes[i].0, '|') && c.dir_scan_modes[i].1 <= 2
    &&& forall|i: int, j: int|
        0 <= i < j < c.dir_scan_modes.len() ==> (#[trigger] c.dir_scan_modes[i]).0 != (#[trigger] c.dir_scan_modes[j]).0
}

proof fn lemma_read_favorites(favs: Seq<Seq<char>>)
    requires
        forall|i: int| 0 <= i < favs.len() ==> (#[trigger] favs[i]).len() > 0 && untrimmed(favs[i]),
    ensures
        read_favorites(favorite_pieces(favs)) == favs,
    decreases favs.len(),
{
    if favs.len() > 0 {
        let front = favs.drop_last();
        assert forall|i: int| 0 <= i < front.len() implies (#[trigger] front[i]).len() > 0 && untrimmed(front[i]) by {
            assert(front[i] == favs[i]);
        }
        lemma_read_favorites(front);
        let ps = favorite_pieces(favs);
        assert(ps.drop_last() =~= favorite_pieces(front));
        let f = favs.last();
        assert(ps.last() == escape(f));
        lemma_escape_untrimmed(f);
        lemma_trim_noop(escape(f));
        crate::xml_text::lemma_unescape_escape(f);
        assert(favs =~= front.push(f));
    }
}

proof fn lemma_last_colon(k: Seq<char>, n: nat)
    ensures
        last_index(escape(k) + seq![':'] + decimal(n), ':') == Some(escape(k).len() as int),
{
    lemma_parse_decimal(n, n as int);
    let e = escape(k) + seq![':'];
    lemma_last_index_skip(e, decimal(n), ':');
}

proof fn lemma_last_index_skip(a: Seq<char>, b: Seq<char>, c: char)
    requires
        lacks(b, c),
        a.len() > 0,
        a.last() == c,
    ensures
        last_index(a + b, c) == Some(a.len() - 1),
    decreases b.len(),
{
    if b.len() == 0 {
        assert(a + b =~= a);
    } else {
        assert((a + b).drop_last() =~= a + b.drop_last());
        assert((a + b).last() == b.last());
        lemma_last_index_skip(a, b.drop_last(), c);
    }
}

proof fn lemma_key_index_absent(m: Seq<(Seq<char>, u8)>, k: Seq<char>)
    requires
        forall|i: int| 0 <= i < m.len() ==> (#[trigger] m[i]).0 != k,
    ensures
        key_index(m, k) is None,
    decreases m.len(),
{
    if m.len() > 0 {
        lemma_key_index_absent(m.drop_last(), k);
    }
}

proof fn lemma_read_modes(modes: Seq<(Seq<char>, u8)>)
    requires
        forall|i: int| 0 <= i < modes.len() ==> untrimmed((#[trigger] modes[i]).0) && lacks(modes[i].0, '|')
            && modes[i].1 <= 2,
        forall|i: int, j: int| 0 <= i < j < modes.len() ==> (#[trigger] modes[i]).0 != (#[trigger] modes[j]).0,
    ensures
        read_modes(mode_pieces(modes)) == modes,
    decreases modes.len(),
{
    if modes.len() > 0 {
        let front = modes.drop_last();
        assert forall|i: int| 0 <= i < front.len() implies untrimmed((#[trigger] front[i]).0) && lacks(front[i].0, '|')
            && front[i].1 <= 2 by {
            assert(front[i] == modes[i]);
        }
        assert forall|i: int, j: int| 0 <= i < j < front.len() implies (#[trigger] front[i]).0 != (#[trigger] front[j]).0 by {
            assert(front[i] == modes[i] && front[j] == modes[j]);
        }
        lemma_read_modes(front);
        let ps = mode_pieces(modes);
        assert(ps.drop_last() =~= mode_pieces(front));
        let m = modes.last();
        let e = escape(m.0);
        let piece = e + seq![':'] + decimal(m.1 as nat);
        assert(ps.last() == piece);
        lemma_last_colon(m.0, m.1 as nat);
        assert(piece.take(e.len() as int) =~= e);
        assert(piece.skip(e.len() + 1int) =~= decimal(m.1 as nat));
        lemma_parse_decimal(m.1 as nat, 255);
        lemma_trim_noop(decimal(m.1 as nat));
        lemma_escape_untrimmed(m.0);
        lemma_trim_noop(e);
        crate::xml_text::lemma_unescape_escape(m.0);
        assert forall|i: int| 0 <= i < front.len() implies (#[trigger] front[i]).0 != m.0 by {
            assert(front[i] == modes[i]);
            assert(modes[modes.len() - 1] == m);
        }
        lemma_key_index_absent(front, m.0);
        assert(modes =~= front.push(m));
    }
}

proof fn lemma_word_tags()
    ensures
        crate::xml_text::is_word("gpu_enabled"@),
        crate::xml_text::is_word("gpu_device"@),
        crate::xml_text::is_word("render_threads"@),
        crate::xml_text::is_word("language"@),
        crate::xml_text::is_word("favorites"@),
        crate::xml_text::is_word("dir_scan_modes"@),
        crate::xml_text::is_word("fff_viewer_config"@),
{
    reveal_strlit("gpu_enabled");
    reveal_strlit("gpu_device");
    reveal_strlit("render_threads");
    reveal_strlit("language");
    reveal_strlit("favorites");
    reveal_strlit("dir_scan_modes");
    reveal_strlit("fff_viewer_config");
}

pub proof fn lemma_header_clean(tag: Seq<char>)
    requires
        crate::xml_text::is_word(tag),
    ensures
        crate::xml_text::clean(xml_declaration(), crate::xml_text::open_tag(tag)),
{
    reveal_strlit("<?xml version=\"1.0\" encoding=\"UTF-8\"?>\n");
    let hd = xml_declaration();
    let n = crate::xml_text::open_tag(tag);
    assert forall|q: int| 0 <= q < hd.len() && #[trigger] hd[q] == '<' implies exists|i: int|
        crate::xml_text::differs_at(hd, n, q, i) by {
        assert(q == 0);
        assert(hd[1] == '?' && n[1] == tag[0]);
        assert(crate::xml_text::differs_at(hd, n, 0, 1));
    }
}

proof fn lemma_escaped_pieces_lack(favs: Seq<Seq<char>>, c: char)
    requires
        !escape_letter(c),
        forall|i: int| 0 <= i < favs.len() ==> lacks(#[trigger] favs[i], c),
    ensures
        forall|i: int| 0 <= i < favorite_pieces(favs).len() ==> lacks(#[trigger] favorite_pieces(favs)[i], c),
{
    assert forall|i: int| 0 <= i < favorite_pieces(favs).len() implies lacks(#[trigger] favorite_pieces(favs)[i], c) by {
        lemma_escape_lacks(favs[i], c);
    }
}

proof fn lemma_mode_pieces_lack(modes: Seq<(Seq<char>, u8)>, c: char)
    requires
        !escape_letter(c),
        c != ':',
        c == '|' || c == '<',
        forall|i: int| 0 <= i < modes.len() ==> lacks((#[trigger] modes[i]).0, c),
    ensures
        forall|i: int| 0 <= i < mode_pieces(modes).len() ==> lacks(#[trigger] mode_pieces(modes)[i], c),
{
    assert forall|i: int| 0 <= i < mode_pieces(modes).len() implies lacks(#[trigger] mode_pieces(modes)[i], c) by {
        let k = modes[i].0;
        lemma_escape_lacks(k, c);
        lemma_parse_decimal(modes[i].1 as nat, 255);
        let p = escape(k) + seq![':'] + decimal(modes[i].1 as nat);
        assert forall|j: int| 0 <= j < p.len() implies #[trigger] p[j] != c by {
            if j < escape(k).len() {
                assert(p[j] == escape(k)[j]);
            } else if j > escape(k).len() {
                assert(p[j] == decimal(modes[i].1 as nat)[j - escape(k).len() - 1]);
            }
        }
    }
}

proof fn lemma_config_fields_wf(c: AppConfigView)
    requires
        config_round_trips(c),
    ensures
        crate::xml_text::well_formed_fields(config_fields(c)),
        forall|i: int, j: int| 0 <= i < j < 6 ==> (#[trigger] config_fields(c)[i]).0 != (#[trigger] config_fields(c)[j]).0,
        forall|i: int| 0 <= i < 6 ==> (#[trigger] config_fields(c)[i]).0 != "fff_viewer_config"@,
{
    reveal_strlit("fff_viewer_config");
    reveal_strlit("gpu_enabled");
    reveal_strlit("gpu_device");
    reveal_strlit("render_threads");
    reveal_strlit("language");
    reveal_strlit("favorites");
    reveal_strlit("dir_scan_modes");
    reveal_strlit("true");
    reveal_strlit("false");
    lemma_word_tags();
    let fs = config_fields(c);
    lemma_escape_facts(c.gpu_device);
    lemma_escape_facts(c.language);
    lemma_parse_decimal(c.render_threads as nat, c.render_threads as int);
    let fp = favorite_pieces(c.favorites);
    assert forall|i: int| 0 <= i < fp.len() implies lacks(#[trigger] fp[i], '<') by {
        lemma_escape_facts(c.favorites[i]);
    }
    lemma_join_lacks(fp, '|', '<');
    let mp = mode_pieces(c.dir_scan_modes);
    assert forall|i: int| 0 <= i < mp.len() implies lacks(#[trigger] mp[i], '<') by {
        let k = c.dir_scan_modes[i].0;
        lemma_escape_facts(k);
        lemma_parse_decimal(c.dir_scan_modes[i].1 as nat, 255);
        let p = escape(k) + seq![':'] + decimal(c.dir_scan_modes[i].1 as nat);
        assert forall|j: int| 0 <= j < p.len() implies #[trigger] p[j] != '<' by {
            if j < escape(k).len() {
                assert(p[j] == escape(k)[j]);
            } else if j > escape(k).len() {
                assert(p[j] == decimal(c.dir_scan_modes[i].1 as nat)[j - escape(k).len() - 1]);
            }
        }
    }
    lemma_join_lacks(mp, '|', '<');
    assert(no_lt(bool_text(c.gpu_enabled)));
    assert("gpu_enabled"@.len() != "gpu_device"@.len());
    assert("render_threads"@[0] != "dir_scan_modes"@[0]);
    assert("gpu_device"@[0] != "render_threads"@[0]);
    assert("language"@[0] != "favorites"@[0]);
}

proof fn lemma_config_tag(c: AppConfigView, k: int)
    requires
        config_round_trips(c),
        0 <= k < 6,
    ensures
        tag_text(config_xml(c), config_fields(c)[k].0) == Some(trim(config_fields(c)[k].1)),
{
    let fs = config_fields(c);
    lemma_config_fields_wf(c);
    let tag = fs[k].0;
    let hd = xml_declaration();
    let root = open_tag("fff_viewer_config"@) + seq!['\n'];
    lemma_word_tags();
    lemma_header_clean(tag);
    lemma_clean_other_open("fff_viewer_config"@, tag);
    lemma_clean_no_lt(seq!['\n'], open_tag(tag));
    lemma_clean_concat(open_tag("fff_viewer_config"@), seq!['\n'], open_tag(tag));
    lemma_clean_concat(hd, root, open_tag(tag));
    crate::xml_text::lemma_field_text(hd + root, fs, close_tag("fff_viewer_config"@) + seq!['\n'], k);
}

proof fn lemma_config_marker(c: AppConfigView)
    ensures
        first_at(config_xml(c), "<fff_viewer_config>"@, 0) is Some,
{
    reveal_strlit("<?xml version=\"1.0\" encoding=\"UTF-8\"?>\n");
    reveal_strlit("<fff_viewer_config>");
    reveal_strlit("fff_viewer_config");
    let hd = xml_declaration();
    let doc = config_xml(c);
    let mk = "<fff_viewer_config>"@;
    assert(mk =~= open_tag("fff_viewer_config"@));
    assert(doc.subrange(hd.len() as int, (hd.len() + mk.len()) as int) =~= mk);
    crate::xml_text::lemma_first_at_exists(doc, mk, 0, hd.len() as int);
}

proof fn lemma_favorites_read_back(c: AppConfigView)
    requires
        config_round_trips(c),
    ensures
        ({
            let f = join(favorite_pieces(c.favorites), '|');
            (if trim(f).len() > 0 {
                read_favorites(split_on(trim(f), '|'))
            } else {
                seq![]
            }) == c.favorites
        }),
{
    let fp = favorite_pieces(c.favorites);
    let f = join(fp, '|');
    lemma_escaped_pieces_lack(c.favorites, '|');
    if c.favorites.len() > 0 {
        lemma_escape_facts(c.favorites[0]);
        lemma_escape_facts(c.favorites.last());
        assert(fp[0] == escape(c.favorites[0]));
        assert(fp.last() == escape(c.favorites.last()));
        lemma_join_ends(fp, '|');
        lemma_trim_noop(f);
        lemma_split_join(fp, '|');
        lemma_read_favorites(c.favorites);
    } else {
        assert(f =~= Seq::<char>::empty());
        lemma_trim_noop(f);
    }
}

proof fn lemma_modes_read_back(c: AppConfigView)
    requires
        config_round_trips(c),
    ensures
        ({
            let m = join(mode_pieces(c.dir_scan_modes), '|');
            (if trim(m).len() > 0 {
                read_modes(split_on(trim(m), '|'))
            } else {
                seq![]
            }) == c.dir_scan_modes
        }),
{
    let mp = mode_pieces(c.dir_scan_modes);
    let m = join(mp, '|');
    lemma_mode_pieces_lack(c.dir_scan_modes, '|');
    if c.dir_scan_modes.len() > 0 {
        let k0 = c.dir_scan_modes[0].0;
        let kl = c.dir_scan_modes.last();
        lemma_escape_facts(k0);
        lemma_parse_decimal(c.dir_scan_modes[0].1 as nat, 255);
        lemma_parse_decimal(kl.1 as nat, 255);
        lemma_decimal_facts(kl.1 as nat);
        let p0 = escape(k0) + seq![':'] + decimal(c.dir_scan_modes[0].1 as nat);
        let pl = escape(kl.0) + seq![':'] + decimal(kl.1 as nat);
        assert(mp[0] == p0);
        assert(mp.last() == pl);
        assert(pl.last() == decimal(kl.1 as nat).last());
        if escape(k0).len() > 0 {
            assert(p0[0] == escape(k0)[0]);
        } else {
            assert(p0[0] == ':');
        }
        lemma_join_ends(mp, '|');
        lemma_trim_noop(m);
        lemma_split_join(mp, '|');
        lemma_read_modes(c.dir_scan_modes);
    } else {
        assert(m =~= Seq::<char>::empty());
        lemma_trim_noop(m);
    }
}

/// Settings read back from their own XML text are the settings themselves
/// (for settings that round-trip, whatever the defaults).
pub proof fn lemma_config_round_trip(c: AppConfigView, threads: usize, language: Seq<char>)
    requires
        config_round_trips(c),
        c.render_threads <= usize::MAX,
    ensures
        parse_config(config_xml(c), threads, language) == Some(c),
{
    reveal_strlit("gpu_enabled");
    reveal_strlit("gpu_device");
    reveal_strlit("render_threads");
    reveal_strlit("language");
    reveal_strlit("favorites");
    reveal_strlit("dir_scan_modes");
    reveal_strlit("true");
    reveal_strlit("false");
    lemma_config_marker(c);
    lemma_config_tag(c, 0);
    lemma_config_tag(c, 1);
    lemma_config_tag(c, 2);
    lemma_config_tag(c, 3);
    lemma_config_tag(c, 4);
    lemma_config_tag(c, 5);
    lemma_trim_noop(bool_text(c.gpu_enabled));
    lemma_escape_untrimmed(c.gpu_device);
    lemma_trim_noop(escape(c.gpu_device));
    crate::xml_text::lemma_unescape_escape(c.gpu_device);
    lemma_parse_decimal(c.render_threads as nat, usize::MAX as int);
    lemma_trim_noop(decimal(c.render_threads as nat));
    lemma_escape_untrimmed(c.language);
    lemma_trim_noop(escape(c.language));
    crate::xml_text::lemma_unescape_escape(c.language);
    lemma_favorites_read_back(c);
    lemma_modes_read_back(c);
    let r = parse_config(config_xml(c), threads, language);
    assert(r is Some);
    assert(r.unwrap().gpu_enabled == c.gpu_enabled);
    assert(r.unwrap().gpu_device =~= c.gpu_device);
    assert(r.unwrap().render_threads == c.render_threads);
    assert(r.unwrap().language =~= c.language);
    assert(r.unwrap().favorites =~= c.favorites);
    assert(r.unwrap().dir_scan_modes =~= c.dir_scan_modes);
    assert(r.unwrap() =~= c);
}


proof fn lemma_read_favorites_nonempty(pieces: Seq<Seq<char>>)
    ensures
        forall|i: int| 0 <= i < read_favorites(pieces).len() ==> #[trigger] read_favorites(pieces)[i].len() > 0,
    decreases pieces.len(),
{
    if pieces.len() > 0 {
        lemma_read_favorites_nonempty(pieces.drop_last());
        let u = unescape(trim(pieces.last()));
        let front = read_favorites(pieces.drop_last());
        assert(read_favorites(pieces) == if u.len() > 0 { front.push(u) } else { front });
        assert forall|i: int| 0 <= i < read_favorites(pieces).len() implies #[trigger] read_favorites(pieces)[i].len()
            > 0 by {
            if u.len() > 0 && i == front.len() {
                assert(read_favorites(pieces)[i] == u);
            } else {
                assert(read_favorites(pieces)[i] == front[i]);
            }
        }
    }
}

proof fn lemma_read_modes_bounded(pieces: Seq<Seq<char>>)
    ensures
        forall|i: int| 0 <= i < read_modes(pieces).len() ==> #[trigger] read_modes(pieces)[i].1 <= 2,
    decreases pieces.len(),
{
    if pieces.len() > 0 {
        lemma_read_modes_bounded(pieces.drop_last());
        let m = read_modes(pieces.drop_last());
        let pair = pieces.last();
        if let Some(c) = last_index(pair, ':') {
            if let Some(d) = parse_int_spec(trim(pair.skip(c + 1)), 0, 255) {
                let k = unescape(trim(pair.take(c)));
                let v: u8 = if d > 2 { 2u8 } else { d as u8 };
                let r = map_insert(m, k, v);
                assert(v <= 2);
                lemma_key_index_in_range(m, k);
                assert(read_modes(pieces) == r);
                assert forall|i: int| 0 <= i < r.len() implies #[trigger] r[i].1 <= 2 by {
                    match key_index(m, k) {
                        Some(j) => {
                            assert(r == m.update(j, (k, v)));
                            if i != j {
                                assert(r[i] == m[i]);
                            } else {
                                assert(r[i] == (k, v));
                            }
                        },
                        None => {
                            assert(r == m.push((k, v)));
                            if i < m.len() {
                                assert(r[i] == m[i]);
                            } else {
                                assert(r[i] == (k, v));
                            }
                        },
                    }
                }
            }
        }
    }
}

proof fn lemma_key_index_in_range(m: Seq<(Seq<char>, u8)>, k: Seq<char>)
    ensures
        key_index(m, k) matches Some(i) ==> 0 <= i < m.len(),
    decreases m.len(),
{
    if m.len() > 0 {
        lemma_key_index_in_range(m.drop_last(), k);
    }
}

/// What reading the settings guarantees: it fails exactly on a text
/// without `<fff_viewer_config>`; otherwise the thread count is at least 1,
/// every scan depth is at most 2, and no favourite is empty.
pub proof fn lemma_parse_config_bounds(xml: Seq<char>, threads: usize, language: Seq<char>)
    ensures
        parse_config(xml, threads, language) is None <==> first_at(xml, "<fff_viewer_config>"@, 0) is None,
        parse_config(xml, threads, language) matches Some(c) ==> {
            &&& c.render_threads >= 1
            &&& forall|i: int| 0 <= i < c.dir_scan_modes.len() ==> #[trigger] c.dir_scan_modes[i].1 <= 2
            &&& forall|i: int| 0 <= i < c.favorites.len() ==> #[trigger] c.favorites[i].len() > 0
        },
{
    if let Some(c) = parse_config(xml, threads, language) {
        if let Some(v) = tag_text(xml, "favorites"@) {
            lemma_read_favorites_nonempty(split_on(v, '|'));
        }
        if let Some(v) = tag_text(xml, "dir_scan_modes"@) {
            lemma_read_modes_bounded(split_on(v, '|'));
        }
    }
}

} // verus!
