//! Per-file settings kept beside each source file: the colour choices, the
//! adjustments that differ from the colour scheme's baseline, the gradation
//! curves and the split regions, and their XML form.
//!
//! Floating-point values are held as the decimal text they are written and
//! read as; a value is read only when its text is a number that `str::parse`
//! accepts. Converting between the text and the number is left to the caller.
use vstd::prelude::*;
use vstd::seq_lib::lemma_concat_associative;

use crate::config::{bool_text, join, trimmed_chars};
use crate::text::{
    append_str, chars_equal, chars_of, decimal, index_of, index_of_exec, occurs_at, slice_vec, push_char, string_from_chars, i64_decimal, is_float_literal, is_float_literal_exec, is_special_float_word_exec, special_float_word, parse_int,
    parse_int_spec, push_chars, signed_decimal, trim, u64_decimal,
};
use crate::xml_text::{
    close_tag, escape, find_first, first_at, open_tag, split_chars, split_on, tag_content, tag_text, unescape, xml_escape,
    xml_unescape, lemma_first_at_found,
};

verus! {

/// A split region: centre, size and angle, each as decimal text.
#[derive(Debug, Clone)]
pub struct SidecarRegion {
    pub cx: String,
    pub cy: String,
    pub w: String,
    pub h: String,
    pub angle: String,
}

/// The adjustments that differ from the baseline: each field is set only
/// when it was overridden. Levels hold four values, the colour matrix 36
/// and the sharpening colour factors three.
#[derive(Debug, Clone)]
pub struct SidecarAdjustOverrides {
    pub film_type: Option<i64>,
    pub film_curve: Option<i64>,
    pub film_gamma: Option<String>,
    pub apply_levels: Option<bool>,
    pub apply_curves: Option<bool>,
    pub apply_exposure: Option<bool>,
    pub apply_brightness: Option<bool>,
    pub apply_shadow_depth: Option<bool>,
    pub apply_midtone: Option<bool>,
    pub apply_contrast: Option<bool>,
    pub apply_highlights: Option<bool>,
    pub apply_shadows: Option<bool>,
    pub apply_saturation: Option<bool>,
    pub apply_color_balance: Option<bool>,
    pub apply_color_temp: Option<bool>,
    pub apply_color_corr: Option<bool>,
    pub apply_film_curve: Option<bool>,
    pub exposure: Option<String>,
    pub brightness: Option<String>,
    pub lightness: Option<String>,
    pub midtone: Option<String>,
    pub contrast: Option<String>,
    pub highlights: Option<String>,
    pub shadows: Option<String>,
    pub saturation: Option<String>,
    pub color_temperature: Option<String>,
    pub tint: Option<String>,
    pub r_shift: Option<String>,
    pub g_shift: Option<String>,
    pub b_shift: Option<String>,
    pub levels_black: Option<Vec<String>>,
    pub levels_gamma: Option<Vec<String>>,
    pub levels_white: Option<Vec<String>>,
    pub output_shadow: Option<Vec<String>>,
    pub output_highlight: Option<Vec<String>>,
    pub color_corr: Option<Vec<i64>>,
    pub apply_usm: Option<bool>,
    pub usm_amount: Option<i64>,
    pub usm_radius: Option<i64>,
    pub usm_dark_limit: Option<i64>,
    pub usm_noise_limit: Option<i64>,
    pub usm_col_factor: Option<Vec<i64>>,
    pub apply_dust: Option<bool>,
    pub dust_level: Option<i64>,
    pub apply_cn_filter: Option<bool>,
    pub color_noise_radius: Option<i64>,
    pub noise_filter_bias: Option<i64>,
    pub lens_correction: Option<i64>,
    pub vignette_amount: Option<i64>,
    pub enhanced_shadow: Option<bool>,
    pub remove_cast_highlight: Option<bool>,
    pub remove_cast_shadow: Option<bool>,
}

/// The per-file settings.
#[derive(Debug, Clone)]
pub struct SidecarConfig {
    pub use_embedded_correction: bool,
    pub use_embedded_icc: bool,
    /// The chosen entry of the embedded edit history.
    pub embedded_correction_index: Option<usize>,
    pub input_profile_name: Option<String>,
    pub preset_name: Option<String>,
    pub target_color_space: String,
    pub split_format: String,
    pub split_portrait: bool,
    pub split_naming_pattern: String,
    pub split_regions: Vec<SidecarRegion>,
    /// The overridden adjustments.
    pub adjust: SidecarAdjustOverrides,
    /// The seven gradation curves, when any of them differs from the identity.
    pub curve_points_override: Option<Vec<Vec<(i64, i64, i64)>>>,
}

// ─── The written text ──────────────────────────────────────────────────────

/// A field line indented by four spaces: `    <tag>content</tag>`.
pub open spec fn line4(tag: Seq<char>, content: Seq<char>) -> Seq<char> {
    seq![' ', ' ', ' ', ' '] + open_tag(tag) + content + close_tag(tag) + seq!['\n']
}

/// Consecutive four-space field lines.
pub open spec fn lines4(fields: Seq<(Seq<char>, Seq<char>)>) -> Seq<char>
    decreases fields.len(),
{
    if fields.len() == 0 {
        seq![]
    } else {
        lines4(fields.drop_last()) + line4(fields.last().0, fields.last().1)
    }
}

/// The field `(tag, content)` when there is a content, nothing otherwise.
pub open spec fn opt_field(tag: Seq<char>, content: Option<Seq<char>>) -> Seq<(Seq<char>, Seq<char>)> {
    match content {
        Some(c) => seq![(tag, c)],
        None => seq![],
    }
}

pub open spec fn i64_content(o: Option<i64>) -> Option<Seq<char>> {
    match o {
        Some(v) => Some(signed_decimal(v as int)),
        None => None,
    }
}

pub open spec fn bool_content(o: Option<bool>) -> Option<Seq<char>> {
    match o {
        Some(b) => Some(bool_text(b)),
        None => None,
    }
}

pub open spec fn text_content(o: Option<String>) -> Option<Seq<char>> {
    match o {
        Some(t) => Some(t@),
        None => None,
    }
}

/// Texts joined by commas.
pub open spec fn texts_joined(v: Seq<String>) -> Seq<char> {
    join(v.map_values(|t: String| t@), ',')
}

/// Integers joined by commas.
pub open spec fn ints_joined(v: Seq<i64>) -> Seq<char> {
    join(v.map_values(|n: i64| signed_decimal(n as int)), ',')
}

pub open spec fn texts_content(o: Option<Vec<String>>) -> Option<Seq<char>> {
    match o {
        Some(v) => Some(texts_joined(v@)),
        None => None,
    }
}

pub open spec fn ints_content(o: Option<Vec<i64>>) -> Option<Seq<char>> {
    match o {
        Some(v) => Some(ints_joined(v@)),
        None => None,
    }
}

/// Field lines of the adjustments, part 1.
pub open spec fn adjust_fields_1(a: SidecarAdjustOverrides) -> Seq<(Seq<char>, Seq<char>)> {
    opt_field("adj_film_type"@, i64_content(a.film_type))
        + opt_field("adj_film_curve"@, i64_content(a.film_curve))
        + opt_field("adj_film_gamma"@, text_content(a.film_gamma))
        + opt_field("adj_apply_levels"@, bool_content(a.apply_levels))
        + opt_field("adj_apply_curves"@, bool_content(a.apply_curves))
        + opt_field("adj_apply_exposure"@, bool_content(a.apply_exposure))
        + opt_field("adj_apply_brightness"@, bool_content(a.apply_brightness))
        + opt_field("adj_apply_shadow_depth"@, bool_content(a.apply_shadow_depth))
        + opt_field("adj_apply_midtone"@, bool_content(a.apply_midtone))
}

/// Field lines of the adjustments, part 2.
pub open spec fn adjust_fields_2(a: SidecarAdjustOverrides) -> Seq<(Seq<char>, Seq<char>)> {
    opt_field("adj_apply_contrast"@, bool_content(a.apply_contrast))
        + opt_field("adj_apply_highlights"@, bool_content(a.apply_highlights))
        + opt_field("adj_apply_shadows"@, bool_content(a.apply_shadows))
        + opt_field("adj_apply_saturation"@, bool_content(a.apply_saturation))
        + opt_field("adj_apply_color_balance"@, bool_content(a.apply_color_balance))
        + opt_field("adj_apply_color_temp"@, bool_content(a.apply_color_temp))
        + opt_field("adj_apply_color_corr"@, bool_content(a.apply_color_corr))
        + opt_field("adj_apply_film_curve"@, bool_content(a.apply_film_curve))
        + opt_field("adj_exposure"@, text_content(a.exposure))
}

/// Field lines of the adjustments, part 3.
pub open spec fn adjust_fields_3(a: SidecarAdjustOverrides) -> Seq<(Seq<char>, Seq<char>)> {
    opt_field("adj_brightness"@, text_content(a.brightness))
        + opt_field("adj_lightness"@, text_content(a.lightness))
        + opt_field("adj_midtone"@, text_content(a.midtone))
        + opt_field("adj_contrast"@, text_content(a.contrast))
        + opt_field("adj_highlights"@, text_content(a.highlights))
        + opt_field("adj_shadows"@, text_content(a.shadows))
        + opt_field("adj_saturation"@, text_content(a.saturation))
        + opt_field("adj_color_temperature"@, text_content(a.color_temperature))
        + opt_field("adj_tint"@, text_content(a.tint))
}

/// Field lines of the adjustments, part 4.
pub open spec fn adjust_fields_4(a: SidecarAdjustOverrides) -> Seq<(Seq<char>, Seq<char>)> {
    opt_field("adj_r_shift"@, text_content(a.r_shift))
        + opt_field("adj_g_shift"@, text_content(a.g_shift))
        + opt_field("adj_b_shift"@, text_content(a.b_shift))
        + opt_field("adj_levels_black"@, texts_content(a.levels_black))
        + opt_field("adj_levels_gamma"@, texts_content(a.levels_gamma))
        + opt_field("adj_levels_white"@, texts_content(a.levels_white))
        + opt_field("adj_output_shadow"@, texts_content(a.output_shadow))
        + opt_field("adj_output_highlight"@, texts_content(a.output_highlight))
        + opt_field("adj_color_corr"@, ints_content(a.color_corr))
}

/// Field lines of the adjustments, part 5.
pub open spec fn adjust_fields_5(a: SidecarAdjustOverrides) -> Seq<(Seq<char>, Seq<char>)> {
    opt_field("adj_apply_usm"@, bool_content(a.apply_usm))
        + opt_field("adj_usm_amount"@, i64_content(a.usm_amount))
        + opt_field("adj_usm_radius"@, i64_content(a.usm_radius))
        + opt_field("adj_usm_dark_limit"@, i64_content(a.usm_dark_limit))
        + opt_field("adj_usm_noise_limit"@, i64_content(a.usm_noise_limit))
        + opt_field("adj_usm_col_factor"@, ints_content(a.usm_col_factor))
        + opt_field("adj_apply_dust"@, bool_content(a.apply_dust))
        + opt_field("adj_dust_level"@, i64_content(a.dust_level))
        + opt_field("adj_apply_cn_filter"@, bool_content(a.apply_cn_filter))
}

/// Field lines of the adjustments, part 6.
pub open spec fn adjust_fields_6(a: SidecarAdjustOverrides) -> Seq<(Seq<char>, Seq<char>)> {
    opt_field("adj_color_noise_radius"@, i64_content(a.color_noise_radius))
        + opt_field("adj_noise_filter_bias"@, i64_content(a.noise_filter_bias))
        + opt_field("adj_lens_correction"@, i64_content(a.lens_correction))
        + opt_field("adj_vignette_amount"@, i64_content(a.vignette_amount))
        + opt_field("adj_enhanced_shadow"@, bool_content(a.enhanced_shadow))
        + opt_field("adj_remove_cast_highlight"@, bool_content(a.remove_cast_highlight))
        + opt_field("adj_remove_cast_shadow"@, bool_content(a.remove_cast_shadow))
}

/// The field lines of the set adjustments, in their fixed order.
pub open spec fn adjust_fields(a: SidecarAdjustOverrides) -> Seq<(Seq<char>, Seq<char>)> {
    adjust_fields_1(a) + adjust_fields_2(a) + adjust_fields_3(a) + adjust_fields_4(a) + adjust_fields_5(a) + adjust_fields_6(a)
}

/// Whether any adjustment is overridden.
pub open spec fn any_override(a: SidecarAdjustOverrides) -> bool {
    a.film_type is Some
        || a.film_curve is Some
        || a.film_gamma is Some
        || a.apply_levels is Some
        || a.apply_curves is Some
        || a.apply_exposure is Some
        || a.apply_brightness is Some
        || a.apply_shadow_depth is Some
        || a.apply_midtone is Some
        || a.apply_contrast is Some
        || a.apply_highlights is Some
        || a.apply_shadows is Some
        || a.apply_saturation is Some
        || a.apply_color_balance is Some
        || a.apply_color_temp is Some
        || a.apply_color_corr is Some
        || a.apply_film_curve is Some
        || a.exposure is Some
        || a.brightness is Some
        || a.lightness is Some
        || a.midtone is Some
        || a.contrast is Some
        || a.highlights is Some
        || a.shadows is Some
        || a.saturation is Some
        || a.color_temperature is Some
        || a.tint is Some
        || a.r_shift is Some
        || a.g_shift is Some
        || a.b_shift is Some
        || a.levels_black is Some
        || a.levels_gamma is Some
        || a.levels_white is Some
        || a.output_shadow is Some
        || a.output_highlight is Some
        || a.color_corr is Some
        || a.apply_usm is Some
        || a.usm_amount is Some
        || a.usm_radius is Some
        || a.usm_dark_limit is Some
        || a.usm_noise_limit is Some
        || a.usm_col_factor is Some
        || a.apply_dust is Some
        || a.dust_level is Some
        || a.apply_cn_filter is Some
        || a.color_noise_radius is Some
        || a.noise_filter_bias is Some
        || a.lens_correction is Some
        || a.vignette_amount is Some
        || a.enhanced_shadow is Some
        || a.remove_cast_highlight is Some
        || a.remove_cast_shadow is Some
}

/// The escaped text of an optional name.
pub open spec fn escaped_content(o: Option<String>) -> Option<Seq<char>> {
    match o {
        Some(n) => Some(escape(n@)),
        None => None,
    }
}

/// The decimal text of an optional index.
pub open spec fn index_content(o: Option<usize>) -> Option<Seq<char>> {
    match o {
        Some(i) => Some(decimal(i as nat)),
        None => None,
    }
}

/// The field lines of the colour section.
pub open spec fn color_fields(c: SidecarConfig) -> Seq<(Seq<char>, Seq<char>)> {
    seq![
        ("use_embedded_correction"@, bool_text(c.use_embedded_correction)),
        ("use_embedded_icc"@, bool_text(c.use_embedded_icc)),
    ] + opt_field("embedded_correction_index"@, index_content(c.embedded_correction_index))
        + opt_field("input_profile"@, escaped_content(c.input_profile_name))
        + opt_field("preset"@, escaped_content(c.preset_name))
        + seq![("target_color_space"@, escape(c.target_color_space@))]
}

/// A curve as written: `x,y,dy` triples joined by semicolons.
pub open spec fn points_text(pts: Seq<(i64, i64, i64)>) -> Seq<char> {
    join(
        pts.map_values(
            |p: (i64, i64, i64)|
                signed_decimal(p.0 as int) + seq![','] + signed_decimal(p.1 as int) + seq![','] + signed_decimal(
                    p.2 as int,
                ),
        ),
        ';',
    )
}

/// The line of curve `i`.
pub open spec fn curve_line(i: int, pts: Seq<(i64, i64, i64)>) -> Seq<char> {
    "      <curve ch=\""@ + decimal(i as nat) + "\">"@ + points_text(pts) + "</curve>\n"@
}

/// The lines of the first `n` curves.
pub open spec fn curve_lines(cs: Seq<Vec<(i64, i64, i64)>>, n: int) -> Seq<char>
    decreases n,
{
    if n <= 0 {
        seq![]
    } else {
        curve_lines(cs, n - 1) + curve_line(n - 1, cs[n - 1]@)
    }
}

/// The curve block of the adjustments.
pub open spec fn curves_text(o: Option<Vec<Vec<(i64, i64, i64)>>>) -> Seq<char> {
    match o {
        Some(cs) => "    <curve_points>\n"@ + curve_lines(cs@, cs@.len() as int) + "    </curve_points>\n"@,
        None => seq![],
    }
}

/// The adjustment section: written when an adjustment or the curves are set.
pub open spec fn adjust_section(c: SidecarConfig) -> Seq<char> {
    if any_override(c.adjust) || c.curve_points_override is Some {
        "  <adjust>\n"@ + lines4(adjust_fields(c.adjust)) + curves_text(c.curve_points_override) + "  </adjust>\n"@
    } else {
        seq![]
    }
}

/// The line of a split region.
pub open spec fn region_line(r: SidecarRegion) -> Seq<char> {
    "      <region cx=\""@ + r.cx@ + "\" cy=\""@ + r.cy@ + "\" w=\""@ + r.w@ + "\" h=\""@ + r.h@ + "\" angle=\""@
        + r.angle@ + "\"/>\n"@
}

/// The lines of the first `n` regions.
pub open spec fn region_lines(rs: Seq<SidecarRegion>, n: int) -> Seq<char>
    decreases n,
{
    if n <= 0 {
        seq![]
    } else {
        region_lines(rs, n - 1) + region_line(rs[n - 1])
    }
}

/// The field lines of the split section.
pub open spec fn split_fields(c: SidecarConfig) -> Seq<(Seq<char>, Seq<char>)> {
    seq![
        ("format"@, escape(c.split_format@)),
        ("portrait"@, bool_text(c.split_portrait)),
        ("naming_pattern"@, escape(c.split_naming_pattern@)),
    ]
}

/// The region block: written when there is a region.
pub open spec fn regions_text(rs: Seq<SidecarRegion>) -> Seq<char> {
    if rs.len() > 0 {
        "    <regions>\n"@ + region_lines(rs, rs.len() as int) + "    </regions>\n"@
    } else {
        seq![]
    }
}

/// The split section.
pub open spec fn split_section(c: SidecarConfig) -> Seq<char> {
    "  <split>\n"@ + lines4(split_fields(c)) + regions_text(c.split_regions@) + "  </split>\n"@
}

/// The XML text of the per-file settings.
pub open spec fn sidecar_xml(c: SidecarConfig) -> Seq<char> {
    crate::config::xml_declaration() + "<fff_viewer>\n"@ + "  <color>\n"@ + lines4(color_fields(c))
        + "  </color>\n"@ + adjust_section(c) + split_section(c) + "</fff_viewer>\n"@
}

pub proof fn lemma_lines4_opt(acc: Seq<(Seq<char>, Seq<char>)>, tag: Seq<char>, content: Option<Seq<char>>)
    ensures
        lines4(acc + opt_field(tag, content)) == lines4(acc) + match content {
            Some(c) => line4(tag, c),
            None => Seq::<char>::empty(),
        },
{
    match content {
        Some(c) => {
            assert((acc + seq![(tag, c)]).drop_last() =~= acc);
        },
        None => {
            assert(acc + Seq::<(Seq<char>, Seq<char>)>::empty() =~= acc);
            assert(lines4(acc) + Seq::<char>::empty() =~= lines4(acc));
        },
    }
}

pub proof fn lemma_lines4_concat(a: Seq<(Seq<char>, Seq<char>)>, b: Seq<(Seq<char>, Seq<char>)>)
    ensures
        lines4(a + b) == lines4(a) + lines4(b),
    decreases b.len(),
{
    if b.len() == 0 {
        assert(a + b =~= a);
        assert(lines4(a) + lines4(b) =~= lines4(a));
    } else {
        lemma_lines4_concat(a, b.drop_last());
        assert((a + b).drop_last() =~= a + b.drop_last());
        assert((a + b).last() == b.last());
        assert(lines4(a + b) =~= lines4(a) + lines4(b));
    }
}

/// Appends `    <tag>content</tag>` and a line break.
fn push_line4(s: &mut String, tag: &str, content: &String)
    ensures
        final(s)@ == old(s)@ + line4(tag@, content@),
{
    append_str(s, "    <");
    append_str(s, tag);
    append_str(s, ">");
    append_str(s, content.as_str());
    append_str(s, "</");
    append_str(s, tag);
    append_str(s, ">\n");
    proof {
        reveal_strlit("    <");
        reveal_strlit(">");
        reveal_strlit("</");
        reveal_strlit(">\n");
    }
    assert(s@ =~= old(s)@ + line4(tag@, content@));
}

fn bool_string(b: bool) -> (s: String)
    ensures
        s@ == bool_text(b),
{
    let mut s = String::new();
    if b {
        append_str(&mut s, "true");
    } else {
        append_str(&mut s, "false");
    }
    proof {
        reveal_strlit("true");
        reveal_strlit("false");
    }
    assert(s@ =~= bool_text(b));
    s
}

fn escaped(t: &String) -> (s: String)
    ensures
        s@ == escape(t@),
{
    let v = chars_of(t.as_str());
    let e = xml_escape(v.as_slice());
    let mut s = String::new();
    push_chars(&mut s, e.as_slice());
    assert(s@ =~= escape(t@));
    s
}

/// Texts joined by commas.
fn join_texts(v: &Vec<String>) -> (s: String)
    ensures
        s@ == texts_joined(v@),
{
    let ghost ps = v@.map_values(|t: String| t@);
    let mut s = String::new();
    let mut i: usize = 0;
    assert(ps.take(0) =~= Seq::<Seq<char>>::empty());
    while i < v.len()
        invariant
            i <= v@.len(),
            ps == v@.map_values(|t: String| t@),
            s@ == join(ps.take(i as int), ','),
        decreases v@.len() - i,
    {
        if i > 0 {
            append_str(&mut s, ",");
        }
        append_str(&mut s, v[i].as_str());
        proof {
            reveal_strlit(",");
            let tk = ps.take(i + 1);
            assert(tk.drop_last() =~= ps.take(i as int));
            if i == 0 {
                assert(join(tk, ',') == tk[0]);
            }
        }
        i = i + 1;
    }
    assert(ps.take(i as int) =~= ps);
    s
}

/// Integers joined by commas.
fn join_ints(v: &Vec<i64>) -> (s: String)
    ensures
        s@ == ints_joined(v@),
{
    let ghost ps = v@.map_values(|n: i64| signed_decimal(n as int));
    let mut s = String::new();
    let mut i: usize = 0;
    assert(ps.take(0) =~= Seq::<Seq<char>>::empty());
    while i < v.len()
        invariant
            i <= v@.len(),
            ps == v@.map_values(|n: i64| signed_decimal(n as int)),
            s@ == join(ps.take(i as int), ','),
        decreases v@.len() - i,
    {
        if i > 0 {
            append_str(&mut s, ",");
        }
        let d = i64_decimal(v[i]);
        append_str(&mut s, d.as_str());
        proof {
            reveal_strlit(",");
            let tk = ps.take(i + 1);
            assert(tk.drop_last() =~= ps.take(i as int));
            if i == 0 {
                assert(join(tk, ',') == tk[0]);
            }
        }
        i = i + 1;
    }
    assert(ps.take(i as int) =~= ps);
    s
}

/// Appends the line of a field when it has a content.
fn push_opt_line(
    s: &mut String,
    tag: &str,
    content: &Option<String>,
    Ghost(start): Ghost<Seq<char>>,
    Ghost(acc): Ghost<Seq<(Seq<char>, Seq<char>)>>,
)
    requires
        old(s)@ == start + lines4(acc),
    ensures
        final(s)@ == start + lines4(acc + opt_field(tag@, text_content(*content))),
{
    match content {
        Some(t) => {
            push_line4(s, tag, t);
        },
        None => {},
    }
    proof {
        lemma_lines4_opt(acc, tag@, text_content(*content));
        match content {
            Some(t) => {
                lemma_concat_associative(start, lines4(acc), line4(tag@, t@));
            },
            None => {
                assert(lines4(acc) + Seq::<char>::empty() =~= lines4(acc));
            },
        }
    }
}

fn opt_i64(o: Option<i64>) -> (r: Option<String>)
    ensures
        text_content(r) == i64_content(o),
{
    match o {
        Some(v) => Some(i64_decimal(v)),
        None => None,
    }
}

fn opt_bool(o: Option<bool>) -> (r: Option<String>)
    ensures
        text_content(r) == bool_content(o),
{
    match o {
        Some(b) => Some(bool_string(b)),
        None => None,
    }
}

fn opt_texts(o: &Option<Vec<String>>) -> (r: Option<String>)
    ensures
        text_content(r) == texts_content(*o),
{
    match o {
        Some(v) => Some(join_texts(v)),
        None => None,
    }
}

fn opt_ints(o: &Option<Vec<i64>>) -> (r: Option<String>)
    ensures
        text_content(r) == ints_content(*o),
{
    match o {
        Some(v) => Some(join_ints(v)),
        None => None,
    }
}

fn write_adjust_1(a: &SidecarAdjustOverrides, s: &mut String)
    ensures
        final(s)@ == old(s)@ + lines4(adjust_fields_1(*a)),
{
    let ghost start = s@;
    let ghost mut acc: Seq<(Seq<char>, Seq<char>)> = seq![];
    assert(start + lines4(acc) =~= start);
    push_opt_line(s, "adj_film_type", &opt_i64(a.film_type), Ghost(start), Ghost(acc));
    proof {
        acc = acc + opt_field("adj_film_type"@, i64_content(a.film_type));
    }
    push_opt_line(s, "adj_film_curve", &opt_i64(a.film_curve), Ghost(start), Ghost(acc));
    proof {
        acc = acc + opt_field("adj_film_curve"@, i64_content(a.film_curve));
    }
    push_opt_line(s, "adj_film_gamma", &a.film_gamma, Ghost(start), Ghost(acc));
    proof {
        acc = acc + opt_field("adj_film_gamma"@, text_content(a.film_gamma));
    }
    push_opt_line(s, "adj_apply_levels", &opt_bool(a.apply_levels), Ghost(start), Ghost(acc));
    proof {
        acc = acc + opt_field("adj_apply_levels"@, bool_content(a.apply_levels));
    }
    push_opt_line(s, "adj_apply_curves", &opt_bool(a.apply_curves), Ghost(start), Ghost(acc));
    proof {
        acc = acc + opt_field("adj_apply_curves"@, bool_content(a.apply_curves));
    }
    push_opt_line(s, "adj_apply_exposure", &opt_bool(a.apply_exposure), Ghost(start), Ghost(acc));
    proof {
        acc = acc + opt_field("adj_apply_exposure"@, bool_content(a.apply_exposure));
    }
    push_opt_line(s, "adj_apply_brightness", &opt_bool(a.apply_brightness), Ghost(start), Ghost(acc));
    proof {
        acc = acc + opt_field("adj_apply_brightness"@, bool_content(a.apply_brightness));
    }
    push_opt_line(s, "adj_apply_shadow_depth", &opt_bool(a.apply_shadow_depth), Ghost(start), Ghost(acc));
    proof {
        acc = acc + opt_field("adj_apply_shadow_depth"@, bool_content(a.apply_shadow_depth));
    }
    push_opt_line(s, "adj_apply_midtone", &opt_bool(a.apply_midtone), Ghost(start), Ghost(acc));
    proof {
        acc = acc + opt_field("adj_apply_midtone"@, bool_content(a.apply_midtone));
    }
    assert(acc =~= adjust_fields_1(*a));
}

fn write_adjust_2(a: &SidecarAdjustOverrides, s: &mut String)
    ensures
        final(s)@ == old(s)@ + lines4(adjust_fields_2(*a)),
{
    let ghost start = s@;
    let ghost mut acc: Seq<(Seq<char>, Seq<char>)> = seq![];
    assert(start + lines4(acc) =~= start);
    push_opt_line(s, "adj_apply_contrast", &opt_bool(a.apply_contrast), Ghost(start), Ghost(acc));
    proof {
        acc = acc + opt_field("adj_apply_contrast"@, bool_content(a.apply_contrast));
    }
    push_opt_line(s, "adj_apply_highlights", &opt_bool(a.apply_highlights), Ghost(start), Ghost(acc));
    proof {
        acc = acc + opt_field("adj_apply_highlights"@, bool_content(a.apply_highlights));
    }
    push_opt_line(s, "adj_apply_shadows", &opt_bool(a.apply_shadows), Ghost(start), Ghost(acc));
    proof {
        acc = acc + opt_field("adj_apply_shadows"@, bool_content(a.apply_shadows));
    }
    push_opt_line(s, "adj_apply_saturation", &opt_bool(a.apply_saturation), Ghost(start), Ghost(acc));
    proof {
        acc = acc + opt_field("adj_apply_saturation"@, bool_content(a.apply_saturation));
    }
    push_opt_line(s, "adj_apply_color_balance", &opt_bool(a.apply_color_balance), Ghost(start), Ghost(acc));
    proof {
        acc = acc + opt_field("adj_apply_color_balance"@, bool_content(a.apply_color_balance));
    }
    push_opt_line(s, "adj_apply_color_temp", &opt_bool(a.apply_color_temp), Ghost(start), Ghost(acc));
    proof {
        acc = acc + opt_field("adj_apply_color_temp"@, bool_content(a.apply_color_temp));
    }
    push_opt_line(s, "adj_apply_color_corr", &opt_bool(a.apply_color_corr), Ghost(start), Ghost(acc));
    proof {
        acc = acc + opt_field("adj_apply_color_corr"@, bool_content(a.apply_color_corr));
    }
    push_opt_line(s, "adj_apply_film_curve", &opt_bool(a.apply_film_curve), Ghost(start), Ghost(acc));
    proof {
        acc = acc + opt_field("adj_apply_film_curve"@, bool_content(a.apply_film_curve));
    }
    push_opt_line(s, "adj_exposure", &a.exposure, Ghost(start), Ghost(acc));
    proof {
        acc = acc + opt_field("adj_exposure"@, text_content(a.exposure));
    }
    assert(acc =~= adjust_fields_2(*a));
}

fn write_adjust_3(a: &SidecarAdjustOverrides, s: &mut String)
    ensures
        final(s)@ == old(s)@ + lines4(adjust_fields_3(*a)),
{
    let ghost start = s@;
    let ghost mut acc: Seq<(Seq<char>, Seq<char>)> = seq![];
    assert(start + lines4(acc) =~= start);
    push_opt_line(s, "adj_brightness", &a.brightness, Ghost(start), Ghost(acc));
    proof {
        acc = acc + opt_field("adj_brightness"@, text_content(a.brightness));
    }
    push_opt_line(s, "adj_lightness", &a.lightness, Ghost(start), Ghost(acc));
    proof {
        acc = acc + opt_field("adj_lightness"@, text_content(a.lightness));
    }
    push_opt_line(s, "adj_midtone", &a.midtone, Ghost(start), Ghost(acc));
    proof {
        acc = acc + opt_field("adj_midtone"@, text_content(a.midtone));
    }
    push_opt_line(s, "adj_contrast", &a.contrast, Ghost(start), Ghost(acc));
    proof {
        acc = acc + opt_field("adj_contrast"@, text_content(a.contrast));
    }
    push_opt_line(s, "adj_highlights", &a.highlights, Ghost(start), Ghost(acc));
    proof {
        acc = acc + opt_field("adj_highlights"@, text_content(a.highlights));
    }
    push_opt_line(s, "adj_shadows", &a.shadows, Ghost(start), Ghost(acc));
    proof {
        acc = acc + opt_field("adj_shadows"@, text_content(a.shadows));
    }
    push_opt_line(s, "adj_saturation", &a.saturation, Ghost(start), Ghost(acc));
    proof {
        acc = acc + opt_field("adj_saturation"@, text_content(a.saturation));
    }
    push_opt_line(s, "adj_color_temperature", &a.color_temperature, Ghost(start), Ghost(acc));
    proof {
        acc = acc + opt_field("adj_color_temperature"@, text_content(a.color_temperature));
    }
    push_opt_line(s, "adj_tint", &a.tint, Ghost(start), Ghost(acc));
    proof {
        acc = acc + opt_field("adj_tint"@, text_content(a.tint));
    }
    assert(acc =~= adjust_fields_3(*a));
}

fn write_adjust_4(a: &SidecarAdjustOverrides, s: &mut String)
    ensures
        final(s)@ == old(s)@ + lines4(adjust_fields_4(*a)),
{
    let ghost start = s@;
    let ghost mut acc: Seq<(Seq<char>, Seq<char>)> = seq![];
    assert(start + lines4(acc) =~= start);
    push_opt_line(s, "adj_r_shift", &a.r_shift, Ghost(start), Ghost(acc));
    proof {
        acc = acc + opt_field("adj_r_shift"@, text_content(a.r_shift));
    }
    push_opt_line(s, "adj_g_shift", &a.g_shift, Ghost(start), Ghost(acc));
    proof {
        acc = acc + opt_field("adj_g_shift"@, text_content(a.g_shift));
    }
    push_opt_line(s, "adj_b_shift", &a.b_shift, Ghost(start), Ghost(acc));
    proof {
        acc = acc + opt_field("adj_b_shift"@, text_content(a.b_shift));
    }
    push_opt_line(s, "adj_levels_black", &opt_texts(&a.levels_black), Ghost(start), Ghost(acc));
    proof {
        acc = acc + opt_field("adj_levels_black"@, texts_content(a.levels_black));
    }
    push_opt_line(s, "adj_levels_gamma", &opt_texts(&a.levels_gamma), Ghost(start), Ghost(acc));
    proof {
        acc = acc + opt_field("adj_levels_gamma"@, texts_content(a.levels_gamma));
    }
    push_opt_line(s, "adj_levels_white", &opt_texts(&a.levels_white), Ghost(start), Ghost(acc));
    proof {
        acc = acc + opt_field("adj_levels_white"@, texts_content(a.levels_white));
    }
    push_opt_line(s, "adj_output_shadow", &opt_texts(&a.output_shadow), Ghost(start), Ghost(acc));
    proof {
        acc = acc + opt_field("adj_output_shadow"@, texts_content(a.output_shadow));
    }
    push_opt_line(s, "adj_output_highlight", &opt_texts(&a.output_highlight), Ghost(start), Ghost(acc));
    proof {
        acc = acc + opt_field("adj_output_highlight"@, texts_content(a.output_highlight));
    }
    push_opt_line(s, "adj_color_corr", &opt_ints(&a.color_corr), Ghost(start), Ghost(acc));
    proof {
        acc = acc + opt_field("adj_color_corr"@, ints_content(a.color_corr));
    }
    assert(acc =~= adjust_fields_4(*a));
}

fn write_adjust_5(a: &SidecarAdjustOverrides, s: &mut String)
    ensures
        final(s)@ == old(s)@ + lines4(adjust_fields_5(*a)),
{
    let ghost start = s@;
    let ghost mut acc: Seq<(Seq<char>, Seq<char>)> = seq![];
    assert(start + lines4(acc) =~= start);
    push_opt_line(s, "adj_apply_usm", &opt_bool(a.apply_usm), Ghost(start), Ghost(acc));
    proof {
        acc = acc + opt_field("adj_apply_usm"@, bool_content(a.apply_usm));
    }
    push_opt_line(s, "adj_usm_amount", &opt_i64(a.usm_amount), Ghost(start), Ghost(acc));
    proof {
        acc = acc + opt_field("adj_usm_amount"@, i64_content(a.usm_amount));
    }
    push_opt_line(s, "adj_usm_radius", &opt_i64(a.usm_radius), Ghost(start), Ghost(acc));
    proof {
        acc = acc + opt_field("adj_usm_radius"@, i64_content(a.usm_radius));
    }
    push_opt_line(s, "adj_usm_dark_limit", &opt_i64(a.usm_dark_limit), Ghost(start), Ghost(acc));
    proof {
        acc = acc + opt_field("adj_usm_dark_limit"@, i64_content(a.usm_dark_limit));
    }
    push_opt_line(s, "adj_usm_noise_limit", &opt_i64(a.usm_noise_limit), Ghost(start), Ghost(acc));
    proof {
        acc = acc + opt_field("adj_usm_noise_limit"@, i64_content(a.usm_noise_limit));
    }
    push_opt_line(s, "adj_usm_col_factor", &opt_ints(&a.usm_col_factor), Ghost(start), Ghost(acc));
    proof {
        acc = acc + opt_field("adj_usm_col_factor"@, ints_content(a.usm_col_factor));
    }
    push_opt_line(s, "adj_apply_dust", &opt_bool(a.apply_dust), Ghost(start), Ghost(acc));
    proof {
        acc = acc + opt_field("adj_apply_dust"@, bool_content(a.apply_dust));
    }
    push_opt_line(s, "adj_dust_level", &opt_i64(a.dust_level), Ghost(start), Ghost(acc));
    proof {
        acc = acc + opt_field("adj_dust_level"@, i64_content(a.dust_level));
    }
    push_opt_line(s, "adj_apply_cn_filter", &opt_bool(a.apply_cn_filter), Ghost(start), Ghost(acc));
    proof {
        acc = acc + opt_field("adj_apply_cn_filter"@, bool_content(a.apply_cn_filter));
    }
    assert(acc =~= adjust_fields_5(*a));
}

fn write_adjust_6(a: &SidecarAdjustOverrides, s: &mut String)
    ensures
        final(s)@ == old(s)@ + lines4(adjust_fields_6(*a)),
{
    let ghost start = s@;
    let ghost mut acc: Seq<(Seq<char>, Seq<char>)> = seq![];
    assert(start + lines4(acc) =~= start);
    push_opt_line(s, "adj_color_noise_radius", &opt_i64(a.color_noise_radius), Ghost(start), Ghost(acc));
    proof {
        acc = acc + opt_field("adj_color_noise_radius"@, i64_content(a.color_noise_radius));
    }
    push_opt_line(s, "adj_noise_filter_bias", &opt_i64(a.noise_filter_bias), Ghost(start), Ghost(acc));
    proof {
        acc = acc + opt_field("adj_noise_filter_bias"@, i64_content(a.noise_filter_bias));
    }
    push_opt_line(s, "adj_lens_correction", &opt_i64(a.lens_correction), Ghost(start), Ghost(acc));
    proof {
        acc = acc + opt_field("adj_lens_correction"@, i64_content(a.lens_correction));
    }
    push_opt_line(s, "adj_vignette_amount", &opt_i64(a.vignette_amount), Ghost(start), Ghost(acc));
    proof {
        acc = acc + opt_field("adj_vignette_amount"@, i64_content(a.vignette_amount));
    }
    push_opt_line(s, "adj_enhanced_shadow", &opt_bool(a.enhanced_shadow), Ghost(start), Ghost(acc));
    proof {
        acc = acc + opt_field("adj_enhanced_shadow"@, bool_content(a.enhanced_shadow));
    }
    push_opt_line(s, "adj_remove_cast_highlight", &opt_bool(a.remove_cast_highlight), Ghost(start), Ghost(acc));
    proof {
        acc = acc + opt_field("adj_remove_cast_highlight"@, bool_content(a.remove_cast_highlight));
    }
    push_opt_line(s, "adj_remove_cast_shadow", &opt_bool(a.remove_cast_shadow), Ghost(start), Ghost(acc));
    proof {
        acc = acc + opt_field("adj_remove_cast_shadow"@, bool_content(a.remove_cast_shadow));
    }
    assert(acc =~= adjust_fields_6(*a));
}

fn write_adjust_fields(a: &SidecarAdjustOverrides, s: &mut String)
    ensures
        final(s)@ == old(s)@ + lines4(adjust_fields(*a)),
{
    let ghost s0 = s@;
    write_adjust_1(a, s);
    let ghost p1 = adjust_fields_1(*a);
    write_adjust_2(a, s);
    let ghost p2 = p1 + adjust_fields_2(*a);
    proof {
        lemma_lines4_concat(p1, adjust_fields_2(*a));
        lemma_concat_associative(s0, lines4(p1), lines4(adjust_fields_2(*a)));
    }
    write_adjust_3(a, s);
    let ghost p3 = p2 + adjust_fields_3(*a);
    proof {
        lemma_lines4_concat(p2, adjust_fields_3(*a));
        lemma_concat_associative(s0, lines4(p2), lines4(adjust_fields_3(*a)));
    }
    write_adjust_4(a, s);
    let ghost p4 = p3 + adjust_fields_4(*a);
    proof {
        lemma_lines4_concat(p3, adjust_fields_4(*a));
        lemma_concat_associative(s0, lines4(p3), lines4(adjust_fields_4(*a)));
    }
    write_adjust_5(a, s);
    let ghost p5 = p4 + adjust_fields_5(*a);
    proof {
        lemma_lines4_concat(p4, adjust_fields_5(*a));
        lemma_concat_associative(s0, lines4(p4), lines4(adjust_fields_5(*a)));
    }
    write_adjust_6(a, s);
    proof {
        lemma_lines4_concat(p5, adjust_fields_6(*a));
        lemma_concat_associative(s0, lines4(p5), lines4(adjust_fields_6(*a)));
    }
}

fn write_color(c: &SidecarConfig, s: &mut String)
    ensures
        final(s)@ == old(s)@ + lines4(color_fields(*c)),
{
    let ghost start = s@;
    let ghost mut acc: Seq<(Seq<char>, Seq<char>)> = seq![];
    assert(start + lines4(acc) =~= start);
    let t = Some(bool_string(c.use_embedded_correction));
    push_opt_line(s, "use_embedded_correction", &t, Ghost(start), Ghost(acc));
    proof {
        acc = acc + opt_field("use_embedded_correction"@, Some(bool_text(c.use_embedded_correction)));
    }
    let t = Some(bool_string(c.use_embedded_icc));
    push_opt_line(s, "use_embedded_icc", &t, Ghost(start), Ghost(acc));
    proof {
        acc = acc + opt_field("use_embedded_icc"@, Some(bool_text(c.use_embedded_icc)));
    }
    let t = match c.embedded_correction_index {
        Some(i) => Some(u64_decimal(i as u64)),
        None => None,
    };
    push_opt_line(s, "embedded_correction_index", &t, Ghost(start), Ghost(acc));
    proof {
        acc = acc + opt_field("embedded_correction_index"@, index_content(c.embedded_correction_index));
    }
    let t = match &c.input_profile_name {
        Some(n) => Some(escaped(n)),
        None => None,
    };
    push_opt_line(s, "input_profile", &t, Ghost(start), Ghost(acc));
    proof {
        acc = acc + opt_field("input_profile"@, escaped_content(c.input_profile_name));
    }
    let t = match &c.preset_name {
        Some(n) => Some(escaped(n)),
        None => None,
    };
    push_opt_line(s, "preset", &t, Ghost(start), Ghost(acc));
    proof {
        acc = acc + opt_field("preset"@, escaped_content(c.preset_name));
    }
    let t = Some(escaped(&c.target_color_space));
    push_opt_line(s, "target_color_space", &t, Ghost(start), Ghost(acc));
    proof {
        acc = acc + opt_field("target_color_space"@, Some(escape(c.target_color_space@)));
    }
    assert(acc =~= color_fields(*c));
}

/// A curve's points as `x,y,dy` triples joined by semicolons.
fn points_string(pts: &Vec<(i64, i64, i64)>) -> (s: String)
    ensures
        s@ == points_text(pts@),
{
    let ghost ps = pts@.map_values(
        |p: (i64, i64, i64)|
            signed_decimal(p.0 as int) + seq![','] + signed_decimal(p.1 as int) + seq![','] + signed_decimal(p.2 as int),
    );
    let mut s = String::new();
    let mut i: usize = 0;
    assert(ps.take(0) =~= Seq::<Seq<char>>::empty());
    while i < pts.len()
        invariant
            i <= pts@.len(),
            ps == pts@.map_values(
                |p: (i64, i64, i64)|
                    signed_decimal(p.0 as int) + seq![','] + signed_decimal(p.1 as int) + seq![','] + signed_decimal(
                        p.2 as int,
                    ),
            ),
            s@ == join(ps.take(i as int), ';'),
        decreases pts@.len() - i,
    {
        let ghost before = s@;
        if i > 0 {
            push_char(&mut s, ';');
        }
        let (x, y, dy) = pts[i];
        let a = i64_decimal(x);
        let b = i64_decimal(y);
        let c = i64_decimal(dy);
        append_str(&mut s, a.as_str());
        push_char(&mut s, ',');
        append_str(&mut s, b.as_str());
        push_char(&mut s, ',');
        append_str(&mut s, c.as_str());
        proof {
            let tk = ps.take(i + 1);
            assert(tk.drop_last() =~= ps.take(i as int));
            assert(tk.last() == ps[i as int]);
            if i == 0 {
                assert(join(tk, ';') == tk[0]);
                assert(s@ =~= ps[i as int]);
            } else {
                assert(s@ =~= before + seq![';'] + ps[i as int]);
            }
        }
        i = i + 1;
    }
    assert(ps.take(i as int) =~= ps);
    s
}

fn write_curves(o: &Option<Vec<Vec<(i64, i64, i64)>>>, s: &mut String)
    ensures
        final(s)@ == old(s)@ + curves_text(*o),
{
    match o {
        Some(cs) => {
            let ghost start = s@;
            append_str(s, "    <curve_points>\n");
            let mut i: usize = 0;
            while i < cs.len()
                invariant
                    i <= cs@.len(),
                    s@ == start + "    <curve_points>\n"@ + curve_lines(cs@, i as int),
                decreases cs@.len() - i,
            {
                let ghost before = s@;
                append_str(s, "      <curve ch=\"");
                let d = u64_decimal(i as u64);
                append_str(s, d.as_str());
                append_str(s, "\">");
                let p = points_string(&cs[i]);
                append_str(s, p.as_str());
                append_str(s, "</curve>\n");
                assert(s@ =~= before + curve_line(i as int, cs@[i as int]@));
                i = i + 1;
            }
            append_str(s, "    </curve_points>\n");
            assert(s@ =~= start + curves_text(*o));
        },
        None => {
            assert(old(s)@ + curves_text(*o) =~= old(s)@);
        },
    }
}

fn write_regions(rs: &Vec<SidecarRegion>, s: &mut String)
    ensures
        final(s)@ == old(s)@ + region_lines(rs@, rs@.len() as int),
{
    let ghost start = s@;
    let mut i: usize = 0;
    assert(start + region_lines(rs@, 0) =~= start);
    while i < rs.len()
        invariant
            i <= rs@.len(),
            s@ == start + region_lines(rs@, i as int),
        decreases rs@.len() - i,
    {
        let ghost before = s@;
        let r = &rs[i];
        append_str(s, "      <region cx=\"");
        append_str(s, r.cx.as_str());
        append_str(s, "\" cy=\"");
        append_str(s, r.cy.as_str());
        append_str(s, "\" w=\"");
        append_str(s, r.w.as_str());
        append_str(s, "\" h=\"");
        append_str(s, r.h.as_str());
        append_str(s, "\" angle=\"");
        append_str(s, r.angle.as_str());
        append_str(s, "\"/>\n");
        assert(s@ =~= before + region_line(rs@[i as int]));
        i = i + 1;
    }
}

fn write_split(c: &SidecarConfig, s: &mut String)
    ensures
        final(s)@ == old(s)@ + split_section(*c),
{
    let ghost start = s@;
    append_str(s, "  <split>\n");
    let f = escaped(&c.split_format);
    push_line4(s, "format", &f);
    let p = bool_string(c.split_portrait);
    push_line4(s, "portrait", &p);
    let n = escaped(&c.split_naming_pattern);
    push_line4(s, "naming_pattern", &n);
    let ghost fs = split_fields(*c);
    proof {
        let e = Seq::<(Seq<char>, Seq<char>)>::empty();
        let f1 = e.push(fs[0]);
        let f2 = f1.push(fs[1]);
        assert(f1.drop_last() =~= e);
        assert(lines4(e) == Seq::<char>::empty());
        assert(f1.last() == fs[0]);
        assert(f2.drop_last() =~= f1);
        assert(fs.drop_last() =~= f2);
        assert(lines4(f1) =~= line4(fs[0].0, fs[0].1));
        assert(lines4(f2) == lines4(f1) + line4(fs[1].0, fs[1].1));
        assert(lines4(fs) == lines4(f2) + line4(fs[2].0, fs[2].1));
    }
    let ghost mid = s@;
    assert(mid =~= start + "  <split>\n"@ + lines4(fs));
    if rs_nonempty(&c.split_regions) {
        append_str(s, "    <regions>\n");
        write_regions(&c.split_regions, s);
        append_str(s, "    </regions>\n");
    }
    append_str(s, "  </split>\n");
    assert(s@ =~= start + split_section(*c));
}

fn rs_nonempty(rs: &Vec<SidecarRegion>) -> (r: bool)
    ensures
        r == (rs@.len() > 0),
{
    rs.len() > 0
}

impl SidecarConfig {
    /// The XML text of the settings: the colour section, the adjustment
    /// section when an adjustment or the curves are overridden, and the
    /// split section.
    pub fn to_xml(&self) -> (s: String)
        ensures
            s@ == sidecar_xml(*self),
    {
        let mut s = String::new();
        append_str(&mut s, "<?xml version=\"1.0\" encoding=\"UTF-8\"?>\n");
        append_str(&mut s, "<fff_viewer>\n");
        append_str(&mut s, "  <color>\n");
        write_color(self, &mut s);
        append_str(&mut s, "  </color>\n");
        let ghost head = s@;
        if self.adjust.any_set() || self.curve_points_override.is_some() {
            append_str(&mut s, "  <adjust>\n");
            write_adjust_fields(&self.adjust, &mut s);
            write_curves(&self.curve_points_override, &mut s);
            append_str(&mut s, "  </adjust>\n");
            assert(s@ =~= head + adjust_section(*self));
        } else {
            assert(head + adjust_section(*self) =~= head);
        }
        let ghost mid = s@;
        write_split(self, &mut s);
        append_str(&mut s, "</fff_viewer>\n");
        assert(s@ =~= sidecar_xml(*self));
        s
    }
}

// ─── Reading ───────────────────────────────────────────────────────────────

/// A `true`/`false` field: `Some(text == "true")` when the element is there.
pub open spec fn read_bool(xml: Seq<char>, tag: Seq<char>) -> Option<bool> {
    match tag_text(xml, tag) {
        Some(v) => Some(v == "true"@),
        None => None,
    }
}

/// An integer field: its text when `str::parse::<i64>` accepts it.
pub open spec fn read_i64(xml: Seq<char>, tag: Seq<char>) -> Option<i64> {
    match tag_text(xml, tag) {
        Some(v) => match parse_int_spec(v, i64::MIN as int, i64::MAX as int) {
            Some(n) => Some(n as i64),
            None => None,
        },
        None => None,
    }
}

/// A number field: its text when `str::parse::<f32>` accepts it.
pub open spec fn read_float(xml: Seq<char>, tag: Seq<char>) -> Option<Seq<char>> {
    match tag_text(xml, tag) {
        Some(v) => if is_float_literal(v) {
            Some(v)
        } else {
            None
        },
        None => None,
    }
}

/// A number field that must not be infinite or NaN: its text when
/// `str::parse` reads it as a number other than `inf`, `infinity` or `nan`.
pub open spec fn read_finite_float(xml: Seq<char>, tag: Seq<char>) -> Option<Seq<char>> {
    match tag_text(xml, tag) {
        Some(v) => if is_float_literal(v) && !special_float_word(v) {
            Some(v)
        } else {
            None
        },
        None => None,
    }
}

/// The trimmed pieces that read as numbers, in order.
pub open spec fn float_pieces(ps: Seq<Seq<char>>) -> Seq<Seq<char>>
    decreases ps.len(),
{
    if ps.len() == 0 {
        seq![]
    } else {
        let rest = float_pieces(ps.drop_last());
        if is_float_literal(trim(ps.last())) {
            rest.push(trim(ps.last()))
        } else {
            rest
        }
    }
}

/// The trimmed pieces that read as 64-bit integers, in order.
pub open spec fn int_pieces(ps: Seq<Seq<char>>) -> Seq<i64>
    decreases ps.len(),
{
    if ps.len() == 0 {
        seq![]
    } else {
        let rest = int_pieces(ps.drop_last());
        match parse_int_spec(trim(ps.last()), i64::MIN as int, i64::MAX as int) {
            Some(n) => rest.push(n as i64),
            None => rest,
        }
    }
}

/// A four-value field: the comma-separated numbers when there are four of
/// them, one number repeated four times when there is one, nothing otherwise.
pub open spec fn read_float4(xml: Seq<char>, tag: Seq<char>) -> Option<Seq<Seq<char>>> {
    match tag_text(xml, tag) {
        Some(v) => {
            let vals = float_pieces(split_on(v, ','));
            if vals.len() == 4 {
                Some(vals)
            } else if vals.len() == 1 {
                Some(seq![vals[0], vals[0], vals[0], vals[0]])
            } else {
                None
            }
        },
        None => None,
    }
}

/// A field of `n` comma-separated integers, when there are exactly `n`.
pub open spec fn read_ints(xml: Seq<char>, tag: Seq<char>, n: nat) -> Option<Seq<i64>> {
    match tag_text(xml, tag) {
        Some(v) => {
            let vals = int_pieces(split_on(v, ','));
            if vals.len() == n {
                Some(vals)
            } else {
                None
            }
        },
        None => None,
    }
}

pub open spec fn texts_view(o: Option<Vec<String>>) -> Option<Seq<Seq<char>>> {
    match o {
        Some(v) => Some(v@.map_values(|t: String| t@)),
        None => None,
    }
}

pub open spec fn ints_view(o: Option<Vec<i64>>) -> Option<Seq<i64>> {
    match o {
        Some(v) => Some(v@),
        None => None,
    }
}

/// The adjustments of part 1 as read from `xml`.
pub open spec fn adjust_read_1(a: SidecarAdjustOverrides, xml: Seq<char>) -> bool {
    &&& a.film_type == read_i64(xml, "adj_film_type"@)
    &&& a.film_curve == read_i64(xml, "adj_film_curve"@)
    &&& text_content(a.film_gamma) == read_float(xml, "adj_film_gamma"@)
    &&& a.apply_levels == read_bool(xml, "adj_apply_levels"@)
    &&& a.apply_curves == read_bool(xml, "adj_apply_curves"@)
    &&& a.apply_exposure == read_bool(xml, "adj_apply_exposure"@)
    &&& a.apply_brightness == read_bool(xml, "adj_apply_brightness"@)
    &&& a.apply_shadow_depth == read_bool(xml, "adj_apply_shadow_depth"@)
    &&& a.apply_midtone == read_bool(xml, "adj_apply_midtone"@)
}

/// The adjustments of part 2 as read from `xml`.
pub open spec fn adjust_read_2(a: SidecarAdjustOverrides, xml: Seq<char>) -> bool {
    &&& a.apply_contrast == read_bool(xml, "adj_apply_contrast"@)
    &&& a.apply_highlights == read_bool(xml, "adj_apply_highlights"@)
    &&& a.apply_shadows == read_bool(xml, "adj_apply_shadows"@)
    &&& a.apply_saturation == read_bool(xml, "adj_apply_saturation"@)
    &&& a.apply_color_balance == read_bool(xml, "adj_apply_color_balance"@)
    &&& a.apply_color_temp == read_bool(xml, "adj_apply_color_temp"@)
    &&& a.apply_color_corr == read_bool(xml, "adj_apply_color_corr"@)
    &&& a.apply_film_curve == read_bool(xml, "adj_apply_film_curve"@)
    &&& text_content(a.exposure) == read_finite_float(xml, "adj_exposure"@)
}

/// The adjustments of part 3 as read from `xml`.
pub open spec fn adjust_read_3(a: SidecarAdjustOverrides, xml: Seq<char>) -> bool {
    &&& text_content(a.brightness) == read_float(xml, "adj_brightness"@)
    &&& text_content(a.lightness) == read_float(xml, "adj_lightness"@)
    &&& text_content(a.midtone) == read_float(xml, "adj_midtone"@)
    &&& text_content(a.contrast) == read_float(xml, "adj_contrast"@)
    &&& text_content(a.highlights) == read_float(xml, "adj_highlights"@)
    &&& text_content(a.shadows) == read_float(xml, "adj_shadows"@)
    &&& text_content(a.saturation) == read_float(xml, "adj_saturation"@)
    &&& text_content(a.color_temperature) == read_float(xml, "adj_color_temperature"@)
    &&& text_content(a.tint) == read_float(xml, "adj_tint"@)
}

/// The adjustments of part 4 as read from `xml`.
pub open spec fn adjust_read_4(a: SidecarAdjustOverrides, xml: Seq<char>) -> bool {
    &&& text_content(a.r_shift) == read_float(xml, "adj_r_shift"@)
    &&& text_content(a.g_shift) == read_float(xml, "adj_g_shift"@)
    &&& text_content(a.b_shift) == read_float(xml, "adj_b_shift"@)
    &&& texts_view(a.levels_black) == read_float4(xml, "adj_levels_black"@)
    &&& texts_view(a.levels_gamma) == read_float4(xml, "adj_levels_gamma"@)
    &&& texts_view(a.levels_white) == read_float4(xml, "adj_levels_white"@)
    &&& texts_view(a.output_shadow) == read_float4(xml, "adj_output_shadow"@)
    &&& texts_view(a.output_highlight) == read_float4(xml, "adj_output_highlight"@)
    &&& ints_view(a.color_corr) == read_ints(xml, "adj_color_corr"@, 36)
}

/// The adjustments of part 5 as read from `xml`.
pub open spec fn adjust_read_5(a: SidecarAdjustOverrides, xml: Seq<char>) -> bool {
    &&& a.apply_usm == read_bool(xml, "adj_apply_usm"@)
    &&& a.usm_amount == read_i64(xml, "adj_usm_amount"@)
    &&& a.usm_radius == read_i64(xml, "adj_usm_radius"@)
    &&& a.usm_dark_limit == read_i64(xml, "adj_usm_dark_limit"@)
    &&& a.usm_noise_limit == read_i64(xml, "adj_usm_noise_limit"@)
    &&& ints_view(a.usm_col_factor) == read_ints(xml, "adj_usm_col_factor"@, 3)
    &&& a.apply_dust == read_bool(xml, "adj_apply_dust"@)
    &&& a.dust_level == read_i64(xml, "adj_dust_level"@)
    &&& a.apply_cn_filter == read_bool(xml, "adj_apply_cn_filter"@)
}

/// The adjustments of part 6 as read from `xml`.
pub open spec fn adjust_read_6(a: SidecarAdjustOverrides, xml: Seq<char>) -> bool {
    &&& a.color_noise_radius == read_i64(xml, "adj_color_noise_radius"@)
    &&& a.noise_filter_bias == read_i64(xml, "adj_noise_filter_bias"@)
    &&& a.lens_correction == read_i64(xml, "adj_lens_correction"@)
    &&& a.vignette_amount == read_i64(xml, "adj_vignette_amount"@)
    &&& a.enhanced_shadow == read_bool(xml, "adj_enhanced_shadow"@)
    &&& a.remove_cast_highlight == read_bool(xml, "adj_remove_cast_highlight"@)
    &&& a.remove_cast_shadow == read_bool(xml, "adj_remove_cast_shadow"@)
}

/// The adjustments as read from `xml`.
pub open spec fn adjust_read(a: SidecarAdjustOverrides, xml: Seq<char>) -> bool {
    &&& adjust_read_1(a, xml)
    &&& adjust_read_2(a, xml)
    &&& adjust_read_3(a, xml)
    &&& adjust_read_4(a, xml)
    &&& adjust_read_5(a, xml)
    &&& adjust_read_6(a, xml)
}

/// The unescaped text of an element, when it is there.
pub open spec fn read_unescaped(xml: Seq<char>, tag: Seq<char>) -> Option<Seq<char>> {
    match tag_text(xml, tag) {
        Some(v) => Some(unescape(v)),
        None => None,
    }
}

/// An index field: its text when `str::parse::<usize>` accepts it.
pub open spec fn read_index(xml: Seq<char>, tag: Seq<char>) -> Option<usize> {
    match tag_text(xml, tag) {
        Some(v) => match parse_int_spec(v, 0, usize::MAX as int) {
            Some(n) => Some(n as usize),
            None => None,
        },
        None => None,
    }
}

/// `o`, or `d` when there is none.
pub open spec fn text_or(o: Option<Seq<char>>, d: Seq<char>) -> Seq<char> {
    match o {
        Some(t) => t,
        None => d,
    }
}

/// The colour choices and split options as read from `xml`; an absent
/// element keeps the value of `SidecarConfig::empty`.
pub open spec fn settings_read(c: SidecarConfig, xml: Seq<char>) -> bool {
    &&& c.use_embedded_correction == (read_bool(xml, "use_embedded_correction"@) == Some(true))
    &&& c.use_embedded_icc == (read_bool(xml, "use_embedded_icc"@) == Some(true))
    &&& c.embedded_correction_index == read_index(xml, "embedded_correction_index"@)
    &&& text_content(c.input_profile_name) == read_unescaped(xml, "input_profile"@)
    &&& text_content(c.preset_name) == read_unescaped(xml, "preset"@)
    &&& c.target_color_space@ == text_or(read_unescaped(xml, "target_color_space"@), "ProPhotoRGB"@)
    &&& c.split_format@ == text_or(read_unescaped(xml, "format"@), "Free"@)
    &&& c.split_portrait == (read_bool(xml, "portrait"@) == Some(true))
    &&& c.split_naming_pattern@ == text_or(read_unescaped(xml, "naming_pattern"@), "{name}_{n}"@)
}

/// `<curve ch="`.
pub open spec fn curve_open() -> Seq<char> {
    seq!['<', 'c', 'u', 'r', 'v', 'e', ' ', 'c', 'h', '=', '"']
}

/// `</curve>`.
pub open spec fn curve_close() -> Seq<char> {
    seq!['<', '/', 'c', 'u', 'r', 'v', 'e', '>']
}

/// The identity curve: `(0,0,0)` and `(255,255,0)`.
pub open spec fn identity_points() -> Seq<(i64, i64, i64)> {
    seq![(0i64, 0i64, 0i64), (255i64, 255i64, 0i64)]
}

/// Seven identity curves.
pub open spec fn default_curves() -> Seq<Seq<(i64, i64, i64)>> {
    Seq::new(7, |i: int| identity_points())
}

/// The points of a curve body: each `;`-separated piece whose `,`-separated
/// parts give exactly three integers.
pub open spec fn triple_points(ts: Seq<Seq<char>>) -> Seq<(i64, i64, i64)>
    decreases ts.len(),
{
    if ts.len() == 0 {
        seq![]
    } else {
        let rest = triple_points(ts.drop_last());
        let nums = int_pieces(split_on(ts.last(), ','));
        if nums.len() == 3 {
            rest.push((nums[0], nums[1], nums[2]))
        } else {
            rest
        }
    }
}

/// The text of attribute `name` in `tag`: from the first `name="` to the
/// next `"`.
pub open spec fn attr_text(tag: Seq<char>, name: Seq<char>) -> Option<Seq<char>> {
    match first_at(tag, name + seq!['=', '"'], 0) {
        Some(p) => {
            let rest = tag.skip(p + name.len() + 2);
            match index_of(rest, '"') {
                Some(q) => Some(rest.take(q)),
                None => None,
            }
        },
        None => None,
    }
}

/// The channel of a curve element, when its `ch` attribute is an index below 7.
pub open spec fn curve_channel(tag: Seq<char>) -> Option<int> {
    match attr_text(tag, seq!['c', 'h']) {
        Some(t) => match parse_int_spec(t, 0, usize::MAX as int) {
            Some(ch) => if ch < 7 {
                Some(ch)
            } else {
                None
            },
            None => None,
        },
        None => None,
    }
}

/// Where the body of a curve element starts: after its first `>`.
pub open spec fn body_start(tag: Seq<char>) -> int {
    match index_of(tag, '>') {
        Some(p) => p + 1,
        None => 0,
    }
}

/// Whether a curve element (ending in `</curve>`) cannot be read: its
/// channel is valid and its first `>` is the one that closes it, so that
/// its body would start after its end. Reading such an element panics.
pub open spec fn curve_unreadable(tag: Seq<char>) -> bool {
    curve_channel(tag) is Some && body_start(tag) > tag.len() - curve_close().len()
}

/// The curves after reading one curve element: a valid channel with at
/// least one point replaces that channel's curve.
pub open spec fn curve_step(tag: Seq<char>, cs: Seq<Seq<(i64, i64, i64)>>) -> Seq<Seq<(i64, i64, i64)>> {
    match curve_channel(tag) {
        Some(ch) => {
            let body = tag.subrange(body_start(tag), tag.len() - curve_close().len());
            let pts = triple_points(split_on(body, ';'));
            if pts.len() > 0 {
                cs.update(ch, pts)
            } else {
                cs
            }
        },
        None => cs,
    }
}

/// The curve elements from `from` on: each runs from `<curve ch="` to the
/// next `</curve>`. `None` when one of them cannot be read.
pub open spec fn scan_curves(xml: Seq<char>, from: int, cs: Seq<Seq<(i64, i64, i64)>>) -> Option<
    Seq<Seq<(i64, i64, i64)>>,
>
    decreases xml.len() + 1 - from,
{
    match first_at(xml, curve_open(), from) {
        None => Some(cs),
        Some(st) => match first_at(xml, curve_close(), st) {
            None => Some(cs),
            Some(e) => {
                proof {
                    lemma_first_at_found(xml, curve_open(), from);
                    lemma_first_at_found(xml, curve_close(), st);
                }
                let tag = xml.subrange(st, e + 8);
                if curve_unreadable(tag) {
                    None
                } else {
                    scan_curves(xml, e + 8, curve_step(tag, cs))
                }
            },
        },
    }
}

/// `<curve_points>`.
pub open spec fn curves_marker() -> Seq<char> {
    "<curve_points>"@
}

/// The curves as read from `xml`: seven identity curves updated by the
/// curve elements, when the document holds `<curve_points>`.
pub open spec fn read_curves(xml: Seq<char>) -> Option<Seq<Seq<(i64, i64, i64)>>> {
    if first_at(xml, curves_marker(), 0) is Some {
        scan_curves(xml, 0, default_curves())
    } else {
        None
    }
}

/// Whether every curve element of `xml` can be read.
pub open spec fn curves_readable(xml: Seq<char>) -> bool {
    first_at(xml, curves_marker(), 0) is Some ==> scan_curves(xml, 0, default_curves()) is Some
}

pub open spec fn curves_view(o: Option<Vec<Vec<(i64, i64, i64)>>>) -> Option<Seq<Seq<(i64, i64, i64)>>> {
    match o {
        Some(cs) => Some(cs@.map_values(|v: Vec<(i64, i64, i64)>| v@)),
        None => None,
    }
}

/// `<region `.
pub open spec fn region_open() -> Seq<char> {
    seq!['<', 'r', 'e', 'g', 'i', 'o', 'n', ' ']
}

/// A number attribute: its text when `str::parse::<f32>` accepts it.
pub open spec fn attr_float(tag: Seq<char>, name: Seq<char>) -> Option<Seq<char>> {
    match attr_text(tag, name) {
        Some(t) => if is_float_literal(t) {
            Some(t)
        } else {
            None
        },
        None => None,
    }
}

/// The region of a `<region .../>` element as its five texts (centre x
/// and y, width, height, angle), when the first four are numbers; the
/// angle is `0` when it is absent or not a number.
pub open spec fn region_of(tag: Seq<char>) -> Option<Seq<Seq<char>>> {
    match (
        attr_float(tag, seq!['c', 'x']),
        attr_float(tag, seq!['c', 'y']),
        attr_float(tag, seq!['w']),
        attr_float(tag, seq!['h']),
    ) {
        (Some(cx), Some(cy), Some(w), Some(h)) => Some(
            seq![cx, cy, w, h, text_or(attr_float(tag, seq!['a', 'n', 'g', 'l', 'e']), seq!['0'])],
        ),
        _ => None,
    }
}

/// The regions from `from` on: each element runs from `<region ` to the
/// next `/>`.
pub open spec fn scan_regions(xml: Seq<char>, from: int) -> Seq<Seq<Seq<char>>>
    decreases xml.len() + 1 - from,
{
    match first_at(xml, region_open(), from) {
        None => seq![],
        Some(st) => match first_at(xml, seq!['/', '>'], st) {
            None => seq![],
            Some(e) => {
                proof {
                    lemma_first_at_found(xml, region_open(), from);
                    lemma_first_at_found(xml, seq!['/', '>'], st);
                }
                let rest = scan_regions(xml, e + 2);
                match region_of(xml.subrange(st, e + 2)) {
                    Some(r) => seq![r] + rest,
                    None => rest,
                }
            },
        },
    }
}

pub open spec fn region_texts(r: SidecarRegion) -> Seq<Seq<char>> {
    seq![r.cx@, r.cy@, r.w@, r.h@, r.angle@]
}

/// The settings as read from `xml`.
pub open spec fn sidecar_read(c: SidecarConfig, xml: Seq<char>) -> bool {
    &&& settings_read(c, xml)
    &&& adjust_read(c.adjust, xml)
    &&& curves_view(c.curve_points_override) == read_curves(xml)
    &&& c.split_regions@.map_values(|r: SidecarRegion| region_texts(r)) == scan_regions(xml, 0)
}

fn read_bool_at(xml: &[char], tag: &str) -> (r: Option<bool>)
    ensures
        r == read_bool(xml@, tag@),
{
    match tag_content(xml, tag) {
        Some(v) => {
            let t = chars_of("true");
            Some(chars_equal(v.as_slice(), t.as_slice()))
        },
        None => None,
    }
}

fn read_i64_at(xml: &[char], tag: &str) -> (r: Option<i64>)
    ensures
        r == read_i64(xml@, tag@),
{
    match tag_content(xml, tag) {
        Some(v) => {
            assert(v@.subrange(0, v@.len() as int) =~= v@);
            match parse_int(v.as_slice(), 0, v.len(), i64::MIN as i128, i64::MAX as i128) {
                Some(n) => Some(n as i64),
                None => None,
            }
        },
        None => None,
    }
}

fn read_float_at(xml: &[char], tag: &str) -> (r: Option<String>)
    ensures
        text_content(r) == read_float(xml@, tag@),
{
    match tag_content(xml, tag) {
        Some(v) => {
            if is_float_literal_exec(v.as_slice()) {
                assert(v@.subrange(0, v@.len() as int) =~= v@);
                Some(string_from_chars(v.as_slice(), 0, v.len()))
            } else {
                None
            }
        },
        None => None,
    }
}

fn read_finite_float_at(xml: &[char], tag: &str) -> (r: Option<String>)
    ensures
        text_content(r) == read_finite_float(xml@, tag@),
{
    match tag_content(xml, tag) {
        Some(v) => {
            if is_float_literal_exec(v.as_slice()) && !is_special_float_word_exec(v.as_slice()) {
                assert(v@.subrange(0, v@.len() as int) =~= v@);
                Some(string_from_chars(v.as_slice(), 0, v.len()))
            } else {
                None
            }
        },
        None => None,
    }
}

/// The trimmed pieces of `v` split at commas that read as numbers.
fn float_texts(v: &[char]) -> (r: Vec<String>)
    ensures
        r@.map_values(|t: String| t@) == float_pieces(split_on(v@, ',')),
{
    let ps = split_chars(v, ',');
    let ghost sp = split_on(v@, ',');
    let mut out: Vec<String> = Vec::new();
    let mut i: usize = 0;
    assert(sp.take(0) =~= Seq::<Seq<char>>::empty());
    assert(out@.map_values(|t: String| t@) =~= Seq::<Seq<char>>::empty());
    while i < ps.len()
        invariant
            i <= ps@.len(),
            ps@.len() == sp.len(),
            sp == split_on(v@, ','),
            forall|m: int| 0 <= m < ps@.len() ==> (#[trigger] ps@[m])@ == sp[m],
            out@.map_values(|t: String| t@) == float_pieces(sp.take(i as int)),
        decreases ps@.len() - i,
    {
        let p = &ps[i];
        let t = trimmed_chars(p.as_slice(), 0, p.len());
        proof {
            assert(p@.subrange(0, p@.len() as int) =~= p@);
            assert(sp.take(i + 1).drop_last() =~= sp.take(i as int));
            assert(sp.take(i + 1).last() == sp[i as int]);
        }
        let ghost before = out@;
        if is_float_literal_exec(t.as_slice()) {
            assert(t@.subrange(0, t@.len() as int) =~= t@);
            let s = string_from_chars(t.as_slice(), 0, t.len());
            out.push(s);
            assert(out@.map_values(|t: String| t@) =~= before.map_values(|t: String| t@).push(t@));
        }
        i = i + 1;
    }
    assert(sp.take(i as int) =~= sp);
    out
}

/// The trimmed pieces of `v` split at commas that read as 64-bit integers.
fn int_values(v: &[char]) -> (r: Vec<i64>)
    ensures
        r@ == int_pieces(split_on(v@, ',')),
{
    let ps = split_chars(v, ',');
    let ghost sp = split_on(v@, ',');
    let mut out: Vec<i64> = Vec::new();
    let mut i: usize = 0;
    assert(sp.take(0) =~= Seq::<Seq<char>>::empty());
    while i < ps.len()
        invariant
            i <= ps@.len(),
            ps@.len() == sp.len(),
            sp == split_on(v@, ','),
            forall|m: int| 0 <= m < ps@.len() ==> (#[trigger] ps@[m])@ == sp[m],
            out@ == int_pieces(sp.take(i as int)),
        decreases ps@.len() - i,
    {
        let p = &ps[i];
        let t = trimmed_chars(p.as_slice(), 0, p.len());
        proof {
            assert(p@.subrange(0, p@.len() as int) =~= p@);
            assert(t@.subrange(0, t@.len() as int) =~= t@);
            assert(sp.take(i + 1).drop_last() =~= sp.take(i as int));
            assert(sp.take(i + 1).last() == sp[i as int]);
        }
        match parse_int(t.as_slice(), 0, t.len(), i64::MIN as i128, i64::MAX as i128) {
            Some(n) => {
                out.push(n as i64);
            },
            None => {},
        }
        i = i + 1;
    }
    assert(sp.take(i as int) =~= sp);
    out
}

fn read_float4_at(xml: &[char], tag: &str) -> (r: Option<Vec<String>>)
    ensures
        texts_view(r) == read_float4(xml@, tag@),
{
    match tag_content(xml, tag) {
        Some(v) => {
            let vals = float_texts(v.as_slice());
            let ghost vv = vals@.map_values(|t: String| t@);
            assert(vv.len() == vals@.len());
            if vals.len() == 4 {
                Some(vals)
            } else if vals.len() == 1 {
                let mut r: Vec<String> = Vec::new();
                r.push(vals[0].clone());
                r.push(vals[0].clone());
                r.push(vals[0].clone());
                r.push(vals[0].clone());
                assert(vv[0] == vals@[0]@);
                assert(r@.map_values(|t: String| t@) =~= seq![vv[0], vv[0], vv[0], vv[0]]);
                Some(r)
            } else {
                None
            }
        },
        None => None,
    }
}

fn read_ints_at(xml: &[char], tag: &str, n: usize) -> (r: Option<Vec<i64>>)
    ensures
        ints_view(r) == read_ints(xml@, tag@, n as nat),
{
    match tag_content(xml, tag) {
        Some(v) => {
            let vals = int_values(v.as_slice());
            if vals.len() == n {
                Some(vals)
            } else {
                None
            }
        },
        None => None,
    }
}

fn read_adjust(xml: &[char]) -> (a: SidecarAdjustOverrides)
    ensures
        adjust_read(a, xml@),
{
    SidecarAdjustOverrides {
        film_type: read_i64_at(xml, "adj_film_type"),
        film_curve: read_i64_at(xml, "adj_film_curve"),
        film_gamma: read_float_at(xml, "adj_film_gamma"),
        apply_levels: read_bool_at(xml, "adj_apply_levels"),
        apply_curves: read_bool_at(xml, "adj_apply_curves"),
        apply_exposure: read_bool_at(xml, "adj_apply_exposure"),
        apply_brightness: read_bool_at(xml, "adj_apply_brightness"),
        apply_shadow_depth: read_bool_at(xml, "adj_apply_shadow_depth"),
        apply_midtone: read_bool_at(xml, "adj_apply_midtone"),
        apply_contrast: read_bool_at(xml, "adj_apply_contrast"),
        apply_highlights: read_bool_at(xml, "adj_apply_highlights"),
        apply_shadows: read_bool_at(xml, "adj_apply_shadows"),
        apply_saturation: read_bool_at(xml, "adj_apply_saturation"),
        apply_color_balance: read_bool_at(xml, "adj_apply_color_balance"),
        apply_color_temp: read_bool_at(xml, "adj_apply_color_temp"),
        apply_color_corr: read_bool_at(xml, "adj_apply_color_corr"),
        apply_film_curve: read_bool_at(xml, "adj_apply_film_curve"),
        exposure: read_finite_float_at(xml, "adj_exposure"),
        brightness: read_float_at(xml, "adj_brightness"),
        lightness: read_float_at(xml, "adj_lightness"),
        midtone: read_float_at(xml, "adj_midtone"),
        contrast: read_float_at(xml, "adj_contrast"),
        highlights: read_float_at(xml, "adj_highlights"),
        shadows: read_float_at(xml, "adj_shadows"),
        saturation: read_float_at(xml, "adj_saturation"),
        color_temperature: read_float_at(xml, "adj_color_temperature"),
        tint: read_float_at(xml, "adj_tint"),
        r_shift: read_float_at(xml, "adj_r_shift"),
        g_shift: read_float_at(xml, "adj_g_shift"),
        b_shift: read_float_at(xml, "adj_b_shift"),
        levels_black: read_float4_at(xml, "adj_levels_black"),
        levels_gamma: read_float4_at(xml, "adj_levels_gamma"),
        levels_white: read_float4_at(xml, "adj_levels_white"),
        output_shadow: read_float4_at(xml, "adj_output_shadow"),
        output_highlight: read_float4_at(xml, "adj_output_highlight"),
        color_corr: read_ints_at(xml, "adj_color_corr", 36),
        apply_usm: read_bool_at(xml, "adj_apply_usm"),
        usm_amount: read_i64_at(xml, "adj_usm_amount"),
        usm_radius: read_i64_at(xml, "adj_usm_radius"),
        usm_dark_limit: read_i64_at(xml, "adj_usm_dark_limit"),
        usm_noise_limit: read_i64_at(xml, "adj_usm_noise_limit"),
        usm_col_factor: read_ints_at(xml, "adj_usm_col_factor", 3),
        apply_dust: read_bool_at(xml, "adj_apply_dust"),
        dust_level: read_i64_at(xml, "adj_dust_level"),
        apply_cn_filter: read_bool_at(xml, "adj_apply_cn_filter"),
        color_noise_radius: read_i64_at(xml, "adj_color_noise_radius"),
        noise_filter_bias: read_i64_at(xml, "adj_noise_filter_bias"),
        lens_correction: read_i64_at(xml, "adj_lens_correction"),
        vignette_amount: read_i64_at(xml, "adj_vignette_amount"),
        enhanced_shadow: read_bool_at(xml, "adj_enhanced_shadow"),
        remove_cast_highlight: read_bool_at(xml, "adj_remove_cast_highlight"),
        remove_cast_shadow: read_bool_at(xml, "adj_remove_cast_shadow"),
    }
}

fn read_unescaped_at(xml: &[char], tag: &str) -> (r: Option<String>)
    ensures
        text_content(r) == read_unescaped(xml@, tag@),
{
    match tag_content(xml, tag) {
        Some(v) => {
            let u = xml_unescape(v.as_slice());
            assert(u@.subrange(0, u@.len() as int) =~= u@);
            Some(string_from_chars(u.as_slice(), 0, u.len()))
        },
        None => None,
    }
}

fn read_index_at(xml: &[char], tag: &str) -> (r: Option<usize>)
    ensures
        r == read_index(xml@, tag@),
{
    match tag_content(xml, tag) {
        Some(v) => {
            assert(v@.subrange(0, v@.len() as int) =~= v@);
            match parse_int(v.as_slice(), 0, v.len(), 0, usize::MAX as i128) {
                Some(n) => Some(n as usize),
                None => None,
            }
        },
        None => None,
    }
}

/// The text of an element, unescaped, or `d` when it is absent.
fn read_text_or(xml: &[char], tag: &str, d: &str) -> (r: String)
    ensures
        r@ == text_or(read_unescaped(xml@, tag@), d@),
{
    match read_unescaped_at(xml, tag) {
        Some(t) => t,
        None => {
            let mut s = String::new();
            append_str(&mut s, d);
            assert(s@ =~= d@);
            s
        },
    }
}

/// The text of attribute `name` in `tag`: from the first `name="` to the next `"`.
fn attr_text_at(tag: &[char], name: &[char]) -> (r: Option<Vec<char>>)
    ensures
        match r {
            Some(v) => attr_text(tag@, name@) == Some(v@),
            None => attr_text(tag@, name@) is None,
        },
{
    let mut needle: Vec<char> = Vec::new();
    let mut k: usize = 0;
    while k < name.len()
        invariant
            k <= name@.len(),
            needle@ == name@.take(k as int),
        decreases name@.len() - k,
    {
        needle.push(name[k]);
        k = k + 1;
        assert(needle@ =~= name@.take(k as int));
    }
    needle.push('=');
    needle.push('"');
    assert(needle@ =~= name@ + seq!['=', '"']);
    match find_first(tag, needle.as_slice(), 0) {
        Some(p) => {
            assert(occurs_at(tag@, needle@, p as int));
            assert(needle@.len() == needle.len());
            let tl = tag.len();
            assert(p + needle.len() <= tl);
            let start = p + needle.len();
            let rest = slice_vec(tag, start, tag.len());
            assert(rest@ =~= tag@.skip(p + name@.len() + 2));
            match index_of_exec(rest.as_slice(), '"') {
                Some(q) => {
                    let t = slice_vec(rest.as_slice(), 0, q);
                    assert(t@ =~= rest@.take(q as int));
                    Some(t)
                },
                None => None,
            }
        },
        None => None,
    }
}

fn curve_channel_at(tag: &[char]) -> (r: Option<usize>)
    ensures
        match r {
            Some(ch) => curve_channel(tag@) == Some(ch as int),
            None => curve_channel(tag@) is None,
        },
{
    let name = vec!['c', 'h'];
    match attr_text_at(tag, name.as_slice()) {
        Some(t) => {
            assert(t@.subrange(0, t@.len() as int) =~= t@);
            match parse_int(t.as_slice(), 0, t.len(), 0, usize::MAX as i128) {
                Some(ch) => {
                    if ch < 7 {
                        Some(ch as usize)
                    } else {
                        None
                    }
                },
                None => None,
            }
        },
        None => None,
    }
}

/// The points of the `;`-separated triples of `body`.
fn triples_at(body: &[char]) -> (r: Vec<(i64, i64, i64)>)
    ensures
        r@ == triple_points(split_on(body@, ';')),
{
    let ts = split_chars(body, ';');
    let ghost sp = split_on(body@, ';');
    let mut out: Vec<(i64, i64, i64)> = Vec::new();
    let mut i: usize = 0;
    assert(sp.take(0) =~= Seq::<Seq<char>>::empty());
    while i < ts.len()
        invariant
            i <= ts@.len(),
            ts@.len() == sp.len(),
            sp == split_on(body@, ';'),
            forall|m: int| 0 <= m < ts@.len() ==> (#[trigger] ts@[m])@ == sp[m],
            out@ == triple_points(sp.take(i as int)),
        decreases ts@.len() - i,
    {
        let nums = int_values(ts[i].as_slice());
        proof {
            assert(sp.take(i + 1).drop_last() =~= sp.take(i as int));
            assert(sp.take(i + 1).last() == sp[i as int]);
        }
        if nums.len() == 3 {
            out.push((nums[0], nums[1], nums[2]));
        }
        i = i + 1;
    }
    assert(sp.take(i as int) =~= sp);
    out
}

/// Reads the curve elements of `xml`, starting from seven identity curves;
/// `None` when one of them cannot be read.
fn scan_curves_at(xml: &[char]) -> (r: Option<Vec<Vec<(i64, i64, i64)>>>)
    ensures
        match r {
            Some(cs) => scan_curves(xml@, 0, default_curves()) == Some(
                cs@.map_values(|v: Vec<(i64, i64, i64)>| v@),
            ),
            None => scan_curves(xml@, 0, default_curves()) is None,
        },
{
    let open = vec!['<', 'c', 'u', 'r', 'v', 'e', ' ', 'c', 'h', '=', '"'];
    let close = vec!['<', '/', 'c', 'u', 'r', 'v', 'e', '>'];
    assert(open@ == curve_open());
    assert(close@ == curve_close());
    let mut cs: Vec<Vec<(i64, i64, i64)>> = Vec::new();
    let mut k: usize = 0;
    while k < 7
        invariant
            k <= 7,
            cs@.len() == k,
            forall|m: int| 0 <= m < k ==> (#[trigger] cs@[m])@ == identity_points(),
        decreases 7 - k,
    {
        let mut id: Vec<(i64, i64, i64)> = Vec::new();
        id.push((0, 0, 0));
        id.push((255, 255, 0));
        assert(id@ =~= identity_points());
        cs.push(id);
        k = k + 1;
    }
    assert(cs@.map_values(|v: Vec<(i64, i64, i64)>| v@) =~= default_curves());
    let mut from: usize = 0;
    loop
        invariant
            from <= xml@.len(),
            open@ == curve_open(),
            close@ == curve_close(),
            cs@.len() == 7,
            scan_curves(xml@, 0, default_curves()) == scan_curves(
                xml@,
                from as int,
                cs@.map_values(|v: Vec<(i64, i64, i64)>| v@),
            ),
        decreases xml@.len() - from,
    {
        let ghost cv = cs@.map_values(|v: Vec<(i64, i64, i64)>| v@);
        let st = match find_first(xml, open.as_slice(), from) {
            Some(st) => st,
            None => {
                return Some(cs);
            },
        };
        let e = match find_first(xml, close.as_slice(), st) {
            Some(e) => e,
            None => {
                return Some(cs);
            },
        };
        assert(occurs_at(xml@, close@, e as int));
        assert(close@.len() == 8);
        let n = xml.len();
        assert(e + 8 <= n);
        let end = e + 8;
        let tag = slice_vec(xml, st, end);
        let ch = curve_channel_at(tag.as_slice());
        let bs: usize = match index_of_exec(tag.as_slice(), '>') {
            Some(p) => p + 1,
            None => 0,
        };
        assert(bs as int == body_start(tag@));
        match ch {
            Some(c) => {
                if bs > tag.len() - 8 {
                    return None;
                }
                let body = slice_vec(tag.as_slice(), bs, tag.len() - 8);
                let pts = triples_at(body.as_slice());
                if pts.len() > 0 {
                    cs.set(c, pts);
                }
            },
            None => {},
        }
        assert(cs@.map_values(|v: Vec<(i64, i64, i64)>| v@) =~= curve_step(tag@, cv));
        from = end;
    }
}

/// Reads the `<region .../>` elements of `xml`.
fn scan_regions_at(xml: &[char]) -> (r: Vec<SidecarRegion>)
    ensures
        r@.map_values(|r: SidecarRegion| region_texts(r)) == scan_regions(xml@, 0),
{
    let open = vec!['<', 'r', 'e', 'g', 'i', 'o', 'n', ' '];
    let close = vec!['/', '>'];
    assert(open@ == region_open());
    let mut out: Vec<SidecarRegion> = Vec::new();
    let mut from: usize = 0;
    assert(out@.map_values(|r: SidecarRegion| region_texts(r)) + scan_regions(xml@, 0) =~= scan_regions(xml@, 0));
    loop
        invariant
            from <= xml@.len(),
            open@ == region_open(),
            close@ == seq!['/', '>'],
            out@.map_values(|r: SidecarRegion| region_texts(r)) + scan_regions(xml@, from as int) == scan_regions(
                xml@,
                0,
            ),
        decreases xml@.len() - from,
    {
        let ghost ov = out@.map_values(|r: SidecarRegion| region_texts(r));
        let st = match find_first(xml, open.as_slice(), from) {
            Some(st) => st,
            None => {
                assert(ov + scan_regions(xml@, from as int) =~= ov);
                return out;
            },
        };
        let e = match find_first(xml, close.as_slice(), st) {
            Some(e) => e,
            None => {
                assert(ov + scan_regions(xml@, from as int) =~= ov);
                return out;
            },
        };
        assert(occurs_at(xml@, close@, e as int));
        assert(close@.len() == 2);
        let n = xml.len();
        assert(e + 2 <= n);
        let end = e + 2;
        let tag = slice_vec(xml, st, end);
        let ghost rest = scan_regions(xml@, end as int);
        match region_at(tag.as_slice()) {
            Some(r) => {
                let ghost rv = region_texts(r);
                out.push(r);
                assert(out@.map_values(|r: SidecarRegion| region_texts(r)) =~= ov.push(rv));
                assert(ov + (seq![rv] + rest) =~= ov.push(rv) + rest);
            },
            None => {},
        }
        from = end;
    }
}

fn attr_float_at(tag: &[char], name: &[char]) -> (r: Option<String>)
    ensures
        text_content(r) == attr_float(tag@, name@),
{
    match attr_text_at(tag, name) {
        Some(t) => {
            if is_float_literal_exec(t.as_slice()) {
                assert(t@.subrange(0, t@.len() as int) =~= t@);
                Some(string_from_chars(t.as_slice(), 0, t.len()))
            } else {
                None
            }
        },
        None => None,
    }
}

fn region_at(tag: &[char]) -> (r: Option<SidecarRegion>)
    ensures
        match r {
            Some(g) => region_of(tag@) == Some(region_texts(g)),
            None => region_of(tag@) is None,
        },
{
    let cx_name = vec!['c', 'x'];
    let cy_name = vec!['c', 'y'];
    let w_name = vec!['w'];
    let h_name = vec!['h'];
    let angle_name = vec!['a', 'n', 'g', 'l', 'e'];
    assert(cx_name@ == seq!['c', 'x']);
    assert(cy_name@ == seq!['c', 'y']);
    assert(w_name@ == seq!['w']);
    assert(h_name@ == seq!['h']);
    assert(angle_name@ == seq!['a', 'n', 'g', 'l', 'e']);
    let cx = attr_float_at(tag, cx_name.as_slice());
    let cy = attr_float_at(tag, cy_name.as_slice());
    let w = attr_float_at(tag, w_name.as_slice());
    let h = attr_float_at(tag, h_name.as_slice());
    match (cx, cy, w, h) {
        (Some(cx), Some(cy), Some(w), Some(h)) => {
            let angle = match attr_float_at(tag, angle_name.as_slice()) {
                Some(a) => a,
                None => {
                    let mut z = String::new();
                    push_char(&mut z, '0');
                    assert(z@ =~= seq!['0']);
                    z
                },
            };
            let g = SidecarRegion { cx, cy, w, h, angle };
            assert(region_of(tag@) == Some(region_texts(g)));
            Some(g)
        },
        _ => None,
    }
}

impl SidecarConfig {
    /// No settings: colour choices off, the ProPhoto RGB target, the free
    /// split format, landscape, the naming pattern `{name}_{n}`, no regions,
    /// no overridden adjustment and no curves.
    pub fn empty() -> (r: Self)
        ensures
            !r.use_embedded_correction,
            !r.use_embedded_icc,
            r.embedded_correction_index is None,
            r.input_profile_name is None,
            r.preset_name is None,
            r.target_color_space@ == "ProPhotoRGB"@,
            r.split_format@ == "Free"@,
            !r.split_portrait,
            r.split_naming_pattern@ == "{name}_{n}"@,
            r.split_regions@.len() == 0,
            !any_override(r.adjust),
            r.curve_points_override is None,
    {
        let mut target = String::new();
        append_str(&mut target, "ProPhotoRGB");
        let mut format = String::new();
        append_str(&mut format, "Free");
        let mut naming = String::new();
        append_str(&mut naming, "{name}_{n}");
        assert(target@ =~= "ProPhotoRGB"@);
        assert(format@ =~= "Free"@);
        assert(naming@ =~= "{name}_{n}"@);
        SidecarConfig {
            use_embedded_correction: false,
            use_embedded_icc: false,
            embedded_correction_index: None,
            input_profile_name: None,
            preset_name: None,
            target_color_space: target,
            split_format: format,
            split_portrait: false,
            split_naming_pattern: naming,
            split_regions: Vec::new(),
            adjust: SidecarAdjustOverrides::none(),
            curve_points_override: None,
        }
    }

    /// Whether every curve element of `xml` can be read (reading one whose
    /// body would start after its end panics).
    pub fn curves_readable(xml: &str) -> (r: bool)
        ensures
            r == curves_readable(xml@),
    {
        let v = chars_of(xml);
        let marker = chars_of("<curve_points>");
        match find_first(v.as_slice(), marker.as_slice(), 0) {
            Some(_) => scan_curves_at(v.as_slice()).is_some(),
            None => true,
        }
    }

    /// Reads settings from their XML text: `None` when it holds no
    /// `<fff_viewer>`; otherwise each element that is there and reads as
    /// its field's kind sets that field, and the others keep the values of
    /// `empty`.
    pub fn parse_xml(xml: &str) -> (r: Option<Self>)
        requires
            curves_readable(xml@),
        ensures
            r is None <==> first_at(xml@, "<fff_viewer>"@, 0) is None,
            r matches Some(c) ==> sidecar_read(c, xml@),
    {
        let v = chars_of(xml);
        let root = chars_of("<fff_viewer>");
        if find_first(v.as_slice(), root.as_slice(), 0).is_none() {
            return None;
        }
        let x = v.as_slice();
        let marker = chars_of("<curve_points>");
        let curves = match find_first(x, marker.as_slice(), 0) {
            Some(_) => scan_curves_at(x),
            None => None,
        };
        let c = SidecarConfig {
            use_embedded_correction: read_bool_at(x, "use_embedded_correction") == Some(true),
            use_embedded_icc: read_bool_at(x, "use_embedded_icc") == Some(true),
            embedded_correction_index: read_index_at(x, "embedded_correction_index"),
            input_profile_name: read_unescaped_at(x, "input_profile"),
            preset_name: read_unescaped_at(x, "preset"),
            target_color_space: read_text_or(x, "target_color_space", "ProPhotoRGB"),
            split_format: read_text_or(x, "format", "Free"),
            split_portrait: read_bool_at(x, "portrait") == Some(true),
            split_naming_pattern: read_text_or(x, "naming_pattern", "{name}_{n}"),
            split_regions: scan_regions_at(x),
            adjust: read_adjust(x),
            curve_points_override: curves,
        };
        Some(c)
    }
}

impl SidecarAdjustOverrides {
    /// No overridden adjustment.
    pub fn none() -> (r: Self)
        ensures
            !any_override(r),
    {
        SidecarAdjustOverrides {
            film_type: None,
            film_curve: None,
            film_gamma: None,
            apply_levels: None,
            apply_curves: None,
            apply_exposure: None,
            apply_brightness: None,
            apply_shadow_depth: None,
            apply_midtone: None,
            apply_contrast: None,
            apply_highlights: None,
            apply_shadows: None,
            apply_saturation: None,
            apply_color_balance: None,
            apply_color_temp: None,
            apply_color_corr: None,
            apply_film_curve: None,
            exposure: None,
            brightness: None,
            lightness: None,
            midtone: None,
            contrast: None,
            highlights: None,
            shadows: None,
            saturation: None,
            color_temperature: None,
            tint: None,
            r_shift: None,
            g_shift: None,
            b_shift: None,
            levels_black: None,
            levels_gamma: None,
            levels_white: None,
            output_shadow: None,
            output_highlight: None,
            color_corr: None,
            apply_usm: None,
            usm_amount: None,
            usm_radius: None,
            usm_dark_limit: None,
            usm_noise_limit: None,
            usm_col_factor: None,
            apply_dust: None,
            dust_level: None,
            apply_cn_filter: None,
            color_noise_radius: None,
            noise_filter_bias: None,
            lens_correction: None,
            vignette_amount: None,
            enhanced_shadow: None,
            remove_cast_highlight: None,
            remove_cast_shadow: None,
        }
    }

    /// Whether any adjustment is overridden.
    pub fn any_set(&self) -> (r: bool)
        ensures
            r == any_override(*self),
    {
        self.film_type.is_some()
            || self.film_curve.is_some()
            || self.film_gamma.is_some()
            || self.apply_levels.is_some()
            || self.apply_curves.is_some()
            || self.apply_exposure.is_some()
            || self.apply_brightness.is_some()
            || self.apply_shadow_depth.is_some()
            || self.apply_midtone.is_some()
            || self.apply_contrast.is_some()
            || self.apply_highlights.is_some()
            || self.apply_shadows.is_some()
            || self.apply_saturation.is_some()
            || self.apply_color_balance.is_some()
            || self.apply_color_temp.is_some()
            || self.apply_color_corr.is_some()
            || self.apply_film_curve.is_some()
            || self.exposure.is_some()
            || self.brightness.is_some()
            || self.lightness.is_some()
            || self.midtone.is_some()
            || self.contrast.is_some()
            || self.highlights.is_some()
            || self.shadows.is_some()
            || self.saturation.is_some()
            || self.color_temperature.is_some()
            || self.tint.is_some()
            || self.r_shift.is_some()
            || self.g_shift.is_some()
            || self.b_shift.is_some()
            || self.levels_black.is_some()
            || self.levels_gamma.is_some()
            || self.levels_white.is_some()
            || self.output_shadow.is_some()
            || self.output_highlight.is_some()
            || self.color_corr.is_some()
            || self.apply_usm.is_some()
            || self.usm_amount.is_some()
            || self.usm_radius.is_some()
            || self.usm_dark_limit.is_some()
            || self.usm_noise_limit.is_some()
            || self.usm_col_factor.is_some()
            || self.apply_dust.is_some()
            || self.dust_level.is_some()
            || self.apply_cn_filter.is_some()
            || self.color_noise_radius.is_some()
            || self.noise_filter_bias.is_some()
            || self.lens_correction.is_some()
            || self.vignette_amount.is_some()
            || self.enhanced_shadow.is_some()
            || self.remove_cast_highlight.is_some()
            || self.remove_cast_shadow.is_some()
    }
}


/// Whether `needle` occurs somewhere in `hay`.
pub open spec fn contains_text(hay: Seq<char>, needle: Seq<char>) -> bool {
    exists|i: int| occurs_at(hay, needle, i)
}

proof fn lemma_occurs_in_middle(a: Seq<char>, b: Seq<char>, c: Seq<char>, needle: Seq<char>, k: int)
    requires
        occurs_at(b, needle, k),
    ensures
        occurs_at(a + b + c, needle, a.len() + k),
{
    assert((a + b + c).subrange(a.len() + k, a.len() + k + needle.len()) =~= b.subrange(k, k + needle.len()));
}

proof fn lemma_sections_of_concat(
    decl: Seq<char>,
    root: Seq<char>,
    color: Seq<char>,
    mid: Seq<char>,
    adj: Seq<char>,
    split: Seq<char>,
    end: Seq<char>,
)
    requires
        occurs_at(root, "<fff_viewer>"@, 0),
        occurs_at(color, "<color>"@, 2),
        occurs_at(split, "<split>"@, 2),
    ensures
        contains_text(decl + root + color + mid + adj + split + end, "<fff_viewer>"@),
        contains_text(decl + root + color + mid + adj + split + end, "<color>"@),
        contains_text(decl + root + color + mid + adj + split + end, "<split>"@),
        occurs_at(adj, "<adjust>"@, 2) ==> contains_text(decl + root + color + mid + adj + split + end, "<adjust>"@),
{
    let x = decl + root + color + mid + adj + split + end;
    lemma_occurs_in_middle(decl, root, color + mid + adj + split + end, "<fff_viewer>"@, 0);
    assert(decl + root + (color + mid + adj + split + end) =~= x);
    assert(occurs_at(x, "<fff_viewer>"@, decl.len() as int));
    lemma_occurs_in_middle(decl + root, color, mid + adj + split + end, "<color>"@, 2);
    assert(decl + root + color + (mid + adj + split + end) =~= x);
    assert(occurs_at(x, "<color>"@, (decl + root).len() + 2int));
    let before_split = decl + root + color + mid + adj;
    lemma_occurs_in_middle(before_split, split, end, "<split>"@, 2);
    assert(occurs_at(x, "<split>"@, before_split.len() + 2int));
    if occurs_at(adj, "<adjust>"@, 2) {
        let before_adj = decl + root + color + mid;
        lemma_occurs_in_middle(before_adj, adj, split + end, "<adjust>"@, 2);
        assert(before_adj + adj + (split + end) =~= x);
        assert(occurs_at(x, "<adjust>"@, before_adj.len() + 2int));
    }
}

/// The sidecar text always holds the root, colour and split sections, and
/// holds the adjustment section when an adjustment or a curve is set; when
/// none is set the adjustment section is empty.
pub proof fn lemma_sidecar_sections(c: SidecarConfig)
    ensures
        contains_text(sidecar_xml(c), "<fff_viewer>"@),
        contains_text(sidecar_xml(c), "<color>"@),
        contains_text(sidecar_xml(c), "<split>"@),
        any_override(c.adjust) || c.curve_points_override is Some ==> contains_text(sidecar_xml(c), "<adjust>"@),
        !(any_override(c.adjust) || c.curve_points_override is Some) ==> adjust_section(c) == Seq::<char>::empty(),
{
    let root = "<fff_viewer>\n"@;
    let color = "  <color>\n"@;
    let mid = lines4(color_fields(c)) + "  </color>\n"@;
    let adj = adjust_section(c);
    let split = split_section(c);
    assert(occurs_at(root, "<fff_viewer>"@, 0)) by {
        reveal_strlit("<fff_viewer>");
        reveal_strlit("<fff_viewer>\n");
        assert(root.subrange(0, 12) =~= "<fff_viewer>"@);
    }
    assert(occurs_at(color, "<color>"@, 2)) by {
        reveal_strlit("<color>");
        reveal_strlit("  <color>\n");
        assert(color.subrange(2, 9) =~= "<color>"@);
    }
    assert(occurs_at(split, "<split>"@, 2)) by {
        reveal_strlit("<split>");
        reveal_strlit("  <split>\n");
        let rest = lines4(split_fields(c)) + regions_text(c.split_regions@) + "  </split>\n"@;
        assert(split == "  <split>\n"@ + rest);
        assert(split.subrange(2, 9) =~= "<split>"@);
    }
    if any_override(c.adjust) || c.curve_points_override is Some {
        assert(occurs_at(adj, "<adjust>"@, 2)) by {
            reveal_strlit("<adjust>");
            reveal_strlit("  <adjust>\n");
            let rest = lines4(adjust_fields(c.adjust)) + curves_text(c.curve_points_override) + "  </adjust>\n"@;
            assert(adj == "  <adjust>\n"@ + rest);
            assert(adj.subrange(2, 10) =~= "<adjust>"@);
        }
    }
    lemma_sections_of_concat(crate::config::xml_declaration(), root, color, mid, adj, split, "</fff_viewer>\n"@);
    assert(sidecar_xml(c) =~= crate::config::xml_declaration() + root + color + mid + adj + split + "</fff_viewer>\n"@);
}

} // verus!
