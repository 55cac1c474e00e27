//! Reading back the settings document: what `SidecarConfig::parse_xml`
//! reads from the text that `SidecarConfig::to_xml` writes.
use vstd::prelude::*;

use crate::config::{
    lemma_header_clean, xml_declaration, bool_text, join, lacks, lemma_join_ends, lemma_escape_facts, lemma_join_lacks, lemma_parse_decimal, lemma_split_join, lemma_trim_noop, untrimmed,
};
use crate::sidecar::{
    adjust_fields, adjust_fields_1, adjust_fields_2, adjust_fields_3, adjust_fields_4, adjust_fields_5,
    adjust_fields_6, adjust_read, adjust_read_1, adjust_read_2, adjust_read_3, adjust_read_4, adjust_read_5,
    adjust_read_6, bool_content, i64_content, ints_content, text_content, texts_content, texts_joined,
    SidecarAdjustOverrides, SidecarConfig, SidecarRegion, ints_view, region_texts, sidecar_read, texts_view, curve_step, curve_unreadable, scan_curves, scan_regions, settings_read, sidecar_xml, region_line, region_lines, regions_text, split_section,
    adjust_section, any_override, contains_text, lemma_sidecar_sections, curve_line, curves_text, color_fields, escaped_content, index_content, split_fields, float_pieces, int_pieces, ints_joined, line4, lines4, lemma_lines4_concat, lemma_lines4_opt, opt_field, points_text,
    triple_points,
};
use crate::text::{
    all_digits, decimal, special_float_word, occurs_at, index_of, is_digit, is_float_literal, lower, mantissa_ok, number_ok, parse_int_spec,
    signed_decimal, trim, unsigned_part,
};
use crate::xml_text::{
    clean, close_tag, differs_at, escape, field_line, unescape, first_at, lemma_clean_close, lemma_clean_other_open, split_on, is_word, lemma_clean_concat, lemma_clean_no_lt, lemma_clean_other_line,
    lemma_first_at_clean, lemma_tag_text_of_line, no_lt, open_tag, tag_text,
};

verus! {

/// The element names of the settings document, in the order they are written.
pub open spec fn tag_of(i: int) -> Seq<char> {
    if i == 0 {
        "fff_viewer"@
    } else if i == 1 {
        "color"@
    } else if i == 2 {
        "use_embedded_correction"@
    } else if i == 3 {
        "use_embedded_icc"@
    } else if i == 4 {
        "embedded_correction_index"@
    } else if i == 5 {
        "input_profile"@
    } else if i == 6 {
        "preset"@
    } else if i == 7 {
        "target_color_space"@
    } else if i == 8 {
        "adjust"@
    } else if i == 9 {
        "adj_film_type"@
    } else if i == 10 {
        "adj_film_curve"@
    } else if i == 11 {
        "adj_film_gamma"@
    } else if i == 12 {
        "adj_apply_levels"@
    } else if i == 13 {
        "adj_apply_curves"@
    } else if i == 14 {
        "adj_apply_exposure"@
    } else if i == 15 {
        "adj_apply_brightness"@
    } else if i == 16 {
        "adj_apply_shadow_depth"@
    } else if i == 17 {
        "adj_apply_midtone"@
    } else if i == 18 {
        "adj_apply_contrast"@
    } else if i == 19 {
        "adj_apply_highlights"@
    } else if i == 20 {
        "adj_apply_shadows"@
    } else if i == 21 {
        "adj_apply_saturation"@
    } else if i == 22 {
        "adj_apply_color_balance"@
    } else if i == 23 {
        "adj_apply_color_temp"@
    } else if i == 24 {
        "adj_apply_color_corr"@
    } else if i == 25 {
        "adj_apply_film_curve"@
    } else if i == 26 {
        "adj_exposure"@
    } else if i == 27 {
        "adj_brightness"@
    } else if i == 28 {
        "adj_lightness"@
    } else if i == 29 {
        "adj_midtone"@
    } else if i == 30 {
        "adj_contrast"@
    } else if i == 31 {
        "adj_highlights"@
    } else if i == 32 {
        "adj_shadows"@
    } else if i == 33 {
        "adj_saturation"@
    } else if i == 34 {
        "adj_color_temperature"@
    } else if i == 35 {
        "adj_tint"@
    } else if i == 36 {
        "adj_r_shift"@
    } else if i == 37 {
        "adj_g_shift"@
    } else if i == 38 {
        "adj_b_shift"@
    } else if i == 39 {
        "adj_levels_black"@
    } else if i == 40 {
        "adj_levels_gamma"@
    } else if i == 41 {
        "adj_levels_white"@
    } else if i == 42 {
        "adj_output_shadow"@
    } else if i == 43 {
        "adj_output_highlight"@
    } else if i == 44 {
        "adj_color_corr"@
    } else if i == 45 {
        "adj_apply_usm"@
    } else if i == 46 {
        "adj_usm_amount"@
    } else if i == 47 {
        "adj_usm_radius"@
    } else if i == 48 {
        "adj_usm_dark_limit"@
    } else if i == 49 {
        "adj_usm_noise_limit"@
    } else if i == 50 {
        "adj_usm_col_factor"@
    } else if i == 51 {
        "adj_apply_dust"@
    } else if i == 52 {
        "adj_dust_level"@
    } else if i == 53 {
        "adj_apply_cn_filter"@
    } else if i == 54 {
        "adj_color_noise_radius"@
    } else if i == 55 {
        "adj_noise_filter_bias"@
    } else if i == 56 {
        "adj_lens_correction"@
    } else if i == 57 {
        "adj_vignette_amount"@
    } else if i == 58 {
        "adj_enhanced_shadow"@
    } else if i == 59 {
        "adj_remove_cast_highlight"@
    } else if i == 60 {
        "adj_remove_cast_shadow"@
    } else if i == 61 {
        "curve_points"@
    } else if i == 62 {
        "split"@
    } else if i == 63 {
        "format"@
    } else if i == 64 {
        "portrait"@
    } else if i == 65 {
        "naming_pattern"@
    } else if i == 66 {
        "regions"@
    } else {
        seq![]
    }
}

/// The position of a name in `tag_of`, or -1.
pub open spec fn tag_code(s: Seq<char>) -> int {
    if s.len() == 5 {
        if s[0] == 'c' {
            1
        } else if s[0] == 's' {
            62
        } else {
            -1
        }
    } else if s.len() == 6 {
        if s[0] == 'a' {
            8
        } else if s[0] == 'f' {
            63
        } else if s[0] == 'p' {
            6
        } else {
            -1
        }
    } else if s.len() == 7 {
        66
    } else if s.len() == 8 {
        if s[0] == 'a' {
            35
        } else if s[0] == 'p' {
            64
        } else {
            -1
        }
    } else if s.len() == 10 {
        0
    } else if s.len() == 11 {
        if s[4] == 'b' {
            38
        } else if s[4] == 'g' {
            37
        } else if s[4] == 'm' {
            29
        } else if s[4] == 'r' {
            36
        } else if s[4] == 's' {
            32
        } else {
            -1
        }
    } else if s.len() == 12 {
        if s[5] == '_' {
            61
        } else if s[5] == 'o' {
            30
        } else if s[5] == 'x' {
            26
        } else {
            -1
        }
    } else if s.len() == 13 {
        if s[4] == 'a' {
            45
        } else if s[4] == 'f' {
            9
        } else if s[4] == 'l' {
            28
        } else if s[4] == 't' {
            5
        } else {
            -1
        }
    } else if s.len() == 14 {
        if s[4] == 'a' {
            51
        } else if s[4] == 'b' {
            27
        } else if s[4] == 'c' {
            44
        } else if s[4] == 'd' {
            52
        } else if s[4] == 'f' {
            if s[9] == 'c' {
                10
            } else if s[9] == 'g' {
                11
            } else {
                -1
            }
        } else if s[4] == 'h' {
            31
        } else if s[4] == 'n' {
            65
        } else if s[4] == 's' {
            33
        } else if s[4] == 'u' {
            if s[8] == 'a' {
                46
            } else if s[8] == 'r' {
                47
            } else {
                -1
            }
        } else {
            -1
        }
    } else if s.len() == 16 {
        if s[11] == 'b' {
            39
        } else if s[11] == 'd' {
            3
        } else if s[11] == 'e' {
            12
        } else if s[11] == 'g' {
            40
        } else if s[11] == 'u' {
            13
        } else if s[11] == 'w' {
            41
        } else {
            -1
        }
    } else if s.len() == 17 {
        if s[10] == '_' {
            42
        } else if s[10] == 'm' {
            17
        } else if s[10] == 's' {
            20
        } else {
            -1
        }
    } else if s.len() == 18 {
        if s[10] == 'c' {
            18
        } else if s[10] == 'e' {
            14
        } else if s[10] == 'l' {
            50
        } else if s[10] == 'o' {
            7
        } else if s[10] == 'r' {
            48
        } else {
            -1
        }
    } else if s.len() == 19 {
        if s[4] == 'a' {
            53
        } else if s[4] == 'e' {
            58
        } else if s[4] == 'l' {
            56
        } else if s[4] == 'u' {
            49
        } else if s[4] == 'v' {
            57
        } else {
            -1
        }
    } else if s.len() == 20 {
        if s[18] == 'h' {
            43
        } else if s[18] == 'm' {
            23
        } else if s[18] == 'o' {
            21
        } else if s[18] == 'r' {
            24
        } else if s[18] == 's' {
            15
        } else if s[18] == 't' {
            19
        } else if s[18] == 'v' {
            25
        } else {
            -1
        }
    } else if s.len() == 21 {
        if s[4] == 'c' {
            34
        } else if s[4] == 'n' {
            55
        } else {
            -1
        }
    } else if s.len() == 22 {
        if s[4] == 'a' {
            16
        } else if s[4] == 'c' {
            54
        } else if s[4] == 'r' {
            60
        } else {
            -1
        }
    } else if s.len() == 23 {
        if s[0] == 'a' {
            22
        } else if s[0] == 'u' {
            2
        } else {
            -1
        }
    } else if s.len() == 25 {
        if s[0] == 'a' {
            59
        } else if s[0] == 'e' {
            4
        } else {
            -1
        }
    } else {
        -1
    }
}

pub open spec fn tag_count() -> int {
    67
}

/// Each name is a word and `tag_code` finds its position.
pub proof fn lemma_tag_table(i: int)
    requires
        0 <= i < tag_count(),
    ensures
        is_word(tag_of(i)),
        tag_code(tag_of(i)) == i,
{
    if i == 0 {
        reveal_strlit("fff_viewer");
    } else if i == 1 {
        reveal_strlit("color");
    } else if i == 2 {
        reveal_strlit("use_embedded_correction");
    } else if i == 3 {
        reveal_strlit("use_embedded_icc");
    } else if i == 4 {
        reveal_strlit("embedded_correction_index");
    } else if i == 5 {
        reveal_strlit("input_profile");
    } else if i == 6 {
        reveal_strlit("preset");
    } else if i == 7 {
        reveal_strlit("target_color_space");
    } else if i == 8 {
        reveal_strlit("adjust");
    } else if i == 9 {
        reveal_strlit("adj_film_type");
    } else if i == 10 {
        reveal_strlit("adj_film_curve");
    } else if i == 11 {
        reveal_strlit("adj_film_gamma");
    } else if i == 12 {
        reveal_strlit("adj_apply_levels");
    } else if i == 13 {
        reveal_strlit("adj_apply_curves");
    } else if i == 14 {
        reveal_strlit("adj_apply_exposure");
    } else if i == 15 {
        reveal_strlit("adj_apply_brightness");
    } else if i == 16 {
        reveal_strlit("adj_apply_shadow_depth");
    } else if i == 17 {
        reveal_strlit("adj_apply_midtone");
    } else if i == 18 {
        reveal_strlit("adj_apply_contrast");
    } else if i == 19 {
        reveal_strlit("adj_apply_highlights");
    } else if i == 20 {
        reveal_strlit("adj_apply_shadows");
    } else if i == 21 {
        reveal_strlit("adj_apply_saturation");
    } else if i == 22 {
        reveal_strlit("adj_apply_color_balance");
    } else if i == 23 {
        reveal_strlit("adj_apply_color_temp");
    } else if i == 24 {
        reveal_strlit("adj_apply_color_corr");
    } else if i == 25 {
        reveal_strlit("adj_apply_film_curve");
    } else if i == 26 {
        reveal_strlit("adj_exposure");
    } else if i == 27 {
        reveal_strlit("adj_brightness");
    } else if i == 28 {
        reveal_strlit("adj_lightness");
    } else if i == 29 {
        reveal_strlit("adj_midtone");
    } else if i == 30 {
        reveal_strlit("adj_contrast");
    } else if i == 31 {
        reveal_strlit("adj_highlights");
    } else if i == 32 {
        reveal_strlit("adj_shadows");
    } else if i == 33 {
        reveal_strlit("adj_saturation");
    } else if i == 34 {
        reveal_strlit("adj_color_temperature");
    } else if i == 35 {
        reveal_strlit("adj_tint");
    } else if i == 36 {
        reveal_strlit("adj_r_shift");
    } else if i == 37 {
        reveal_strlit("adj_g_shift");
    } else if i == 38 {
        reveal_strlit("adj_b_shift");
    } else if i == 39 {
        reveal_strlit("adj_levels_black");
    } else if i == 40 {
        reveal_strlit("adj_levels_gamma");
    } else if i == 41 {
        reveal_strlit("adj_levels_white");
    } else if i == 42 {
        reveal_strlit("adj_output_shadow");
    } else if i == 43 {
        reveal_strlit("adj_output_highlight");
    } else if i == 44 {
        reveal_strlit("adj_color_corr");
    } else if i == 45 {
        reveal_strlit("adj_apply_usm");
    } else if i == 46 {
        reveal_strlit("adj_usm_amount");
    } else if i == 47 {
        reveal_strlit("adj_usm_radius");
    } else if i == 48 {
        reveal_strlit("adj_usm_dark_limit");
    } else if i == 49 {
        reveal_strlit("adj_usm_noise_limit");
    } else if i == 50 {
        reveal_strlit("adj_usm_col_factor");
    } else if i == 51 {
        reveal_strlit("adj_apply_dust");
    } else if i == 52 {
        reveal_strlit("adj_dust_level");
    } else if i == 53 {
        reveal_strlit("adj_apply_cn_filter");
    } else if i == 54 {
        reveal_strlit("adj_color_noise_radius");
    } else if i == 55 {
        reveal_strlit("adj_noise_filter_bias");
    } else if i == 56 {
        reveal_strlit("adj_lens_correction");
    } else if i == 57 {
        reveal_strlit("adj_vignette_amount");
    } else if i == 58 {
        reveal_strlit("adj_enhanced_shadow");
    } else if i == 59 {
        reveal_strlit("adj_remove_cast_highlight");
    } else if i == 60 {
        reveal_strlit("adj_remove_cast_shadow");
    } else if i == 61 {
        reveal_strlit("curve_points");
    } else if i == 62 {
        reveal_strlit("split");
    } else if i == 63 {
        reveal_strlit("format");
    } else if i == 64 {
        reveal_strlit("portrait");
    } else if i == 65 {
        reveal_strlit("naming_pattern");
    } else if i == 66 {
        reveal_strlit("regions");
    }
}
/// An element name with its content, when it is written.
pub type Entry = (Seq<char>, Option<Seq<char>>);

/// The written `(name, content)` pairs of `es`, in order.
pub open spec fn present(es: Seq<Entry>) -> Seq<(Seq<char>, Seq<char>)>
    decreases es.len(),
{
    if es.len() == 0 {
        seq![]
    } else {
        present(es.drop_last()) + opt_field(es.last().0, es.last().1)
    }
}

/// The names of `es` are those of `tag_of` from position `base` on, and
/// the contents hold no `<`.
pub open spec fn coded(es: Seq<Entry>, base: int) -> bool {
    &&& 0 <= base
    &&& base + es.len() <= tag_count()
    &&& forall|i: int| 0 <= i < es.len() ==> (#[trigger] es[i]).0 == tag_of(base + i)
    &&& forall|i: int| 0 <= i < es.len() ==> ((#[trigger] es[i]).1 matches Some(c) ==> no_lt(c))
}

/// No written entry of `es` has position `g`.
pub open spec fn not_written(es: Seq<Entry>, base: int, g: int) -> bool {
    forall|i: int| 0 <= i < es.len() ==> (#[trigger] es[i]).1 is Some ==> base + i != g
}

pub proof fn lemma_present_concat(a: Seq<Entry>, b: Seq<Entry>)
    ensures
        present(a + b) == present(a) + present(b),
    decreases b.len(),
{
    if b.len() == 0 {
        assert(a + b =~= a);
        assert(present(a) + present(b) =~= present(a));
    } else {
        lemma_present_concat(a, b.drop_last());
        assert((a + b).drop_last() =~= a + b.drop_last());
        assert((a + b).last() == b.last());
        assert(present(a + b) =~= present(a) + present(b));
    }
}

/// A four-space line of a name other than `tag` is clean for a search of `tag`.
pub proof fn lemma_clean_line4(name: Seq<char>, content: Seq<char>, tag: Seq<char>)
    requires
        is_word(name),
        is_word(tag),
        name != tag,
        no_lt(content),
    ensures
        clean(line4(name, content), open_tag(tag)),
{
    lemma_clean_other_line(name, content, tag);
    lemma_clean_no_lt(seq![' ', ' '], open_tag(tag));
    lemma_clean_concat(seq![' ', ' '], field_line(name, content), open_tag(tag));
    assert(line4(name, content) =~= seq![' ', ' '] + field_line(name, content));
}

/// The lines of entries none of which is written at the position of `tag`
/// are clean for a search of `tag`.
pub proof fn lemma_present_clean(es: Seq<Entry>, base: int, tag: Seq<char>)
    requires
        coded(es, base),
        is_word(tag),
        not_written(es, base, tag_code(tag)),
    ensures
        clean(lines4(present(es)), open_tag(tag)),
    decreases es.len(),
{
    if es.len() == 0 {
        lemma_clean_no_lt(seq![], open_tag(tag));
    } else {
        let front = es.drop_last();
        assert forall|i: int| 0 <= i < front.len() implies (#[trigger] front[i]).0 == tag_of(base + i) by {
            assert(front[i] == es[i]);
        }
        assert forall|i: int| 0 <= i < front.len() implies ((#[trigger] front[i]).1 matches Some(c) ==> no_lt(c)) by {
            assert(front[i] == es[i]);
        }
        assert forall|i: int| 0 <= i < front.len() implies ((#[trigger] front[i]).1 is Some ==> base + i != tag_code(tag)) by {
            assert(front[i] == es[i]);
        }
        lemma_present_clean(front, base, tag);
        let l = es.last();
        let k = es.len() - 1;
        assert(l == es[k]);
        lemma_lines4_opt(present(front), l.0, l.1);
        match l.1 {
            Some(c) => {
                lemma_tag_table(base + k);
                assert(l.0 != tag);
                lemma_clean_line4(l.0, c, tag);
                lemma_clean_concat(lines4(present(front)), line4(l.0, c), open_tag(tag));
            },
            None => {
                assert(lines4(present(front)) + Seq::<char>::empty() =~= lines4(present(front)));
            },
        }
    }
}

proof fn lemma_present_split(es: Seq<Entry>, j: int, tag: Seq<char>, c: Seq<char>)
    requires
        0 <= j < es.len(),
        es[j] == (tag, Some(c)),
    ensures
        lines4(present(es)) == lines4(present(es.take(j))) + line4(tag, c) + lines4(present(es.skip(j + 1))),
{
    let a = es.take(j);
    let b = es.skip(j + 1);
    assert(es =~= a + seq![es[j]] + b);
    lemma_present_concat(a + seq![es[j]], b);
    lemma_present_concat(a, seq![es[j]]);
    assert(seq![es[j]].drop_last() =~= Seq::<Entry>::empty());
    assert(present(Seq::<Entry>::empty()) == Seq::<(Seq<char>, Seq<char>)>::empty());
    assert(seq![es[j]].last() == es[j]);
    assert(present(seq![es[j]]) =~= seq![(tag, c)]);
    lemma_lines4_concat(present(a) + seq![(tag, c)], present(b));
    lemma_lines4_concat(present(a), seq![(tag, c)]);
    lemma_lines4_opt(Seq::<(Seq<char>, Seq<char>)>::empty(), tag, Some(c));
    assert(Seq::<(Seq<char>, Seq<char>)>::empty() + opt_field(tag, Some(c)) =~= seq![(tag, c)]);
    assert(lines4(seq![(tag, c)]) =~= line4(tag, c));
}

proof fn lemma_prefix_coded(es: Seq<Entry>, base: int, j: int)
    requires
        coded(es, base),
        0 <= j <= es.len(),
    ensures
        coded(es.take(j), base),
        not_written(es.take(j), base, base + j),
{
    let a = es.take(j);
    assert forall|i: int| 0 <= i < a.len() implies (#[trigger] a[i]).0 == tag_of(base + i) by {
        assert(a[i] == es[i]);
    }
    assert forall|i: int| 0 <= i < a.len() implies ((#[trigger] a[i]).1 matches Some(c) ==> no_lt(c)) by {
        assert(a[i] == es[i]);
    }
}

/// In a document whose text before some lines is clean for the name of a
/// written entry, that entry's text is its content, trimmed.
#[verifier::spinoff_prover]
#[verifier::rlimit(50)]
pub proof fn lemma_present_text(pre: Seq<char>, es: Seq<Entry>, base: int, post: Seq<char>, j: int, c: Seq<char>)
    requires
        coded(es, base),
        0 <= j < es.len(),
        es[j].1 == Some(c),
        clean(pre, open_tag(tag_of(base + j))),
    ensures
        tag_text(pre + lines4(present(es)) + post, tag_of(base + j)) == Some(trim(c)),
{
    let tag = tag_of(base + j);
    lemma_tag_table(base + j);
    assert(es[j] == (tag, Some(c)));
    lemma_present_split(es, j, tag, c);
    lemma_prefix_coded(es, base, j);
    let la = lines4(present(es.take(j)));
    let lb = lines4(present(es.skip(j + 1)));
    lemma_present_clean(es.take(j), base, tag);
    lemma_clean_concat(pre, la, open_tag(tag));
    lemma_clean_no_lt(seq![' ', ' '], open_tag(tag));
    lemma_clean_concat(pre + la, seq![' ', ' '], open_tag(tag));
    let p2 = pre + la + seq![' ', ' '];
    assert(line4(tag, c) =~= seq![' ', ' '] + field_line(tag, c));
    assert(pre + lines4(present(es)) + post =~= p2 + field_line(tag, c) + (lb + post));
    lemma_tag_text_of_line(p2, tag, c, lb + post);
}

/// A name whose opening tag does not occur has no text.
pub proof fn lemma_absent_text(doc: Seq<char>, tag: Seq<char>)
    requires
        is_word(tag),
        clean(doc, open_tag(tag)),
    ensures
        tag_text(doc, tag) is None,
{
    lemma_first_at_clean(doc, seq![], open_tag(tag));
    assert(doc + Seq::<char>::empty() =~= doc);
}

/// A character that a number's text can hold (either case of the letters).
pub open spec fn number_char(c: char) -> bool {
    let l = lower(c);
    ('0' <= l <= '9') || l == '.' || l == '+' || l == '-' || l == 'e' || l == 'i' || l == 'n' || l == 'f'
        || l == 't' || l == 'y' || l == 'a'
}

pub proof fn lemma_index_found(s: Seq<char>, c: char)
    ensures
        index_of(s, c) matches Some(i) ==> 0 <= i < s.len() && s[i] == c,
    decreases s.len(),
{
    if s.len() > 0 {
        lemma_index_found(s.drop_last(), c);
    }
}

proof fn lemma_digits_number(s: Seq<char>)
    requires
        all_digits(s),
    ensures
        forall|k: int| 0 <= k < s.len() ==> number_char(#[trigger] s[k]),
{
    assert forall|k: int| 0 <= k < s.len() implies number_char(#[trigger] s[k]) by {
        assert(is_digit(s[k]));
    }
}

proof fn lemma_mantissa_number(m: Seq<char>)
    requires
        mantissa_ok(m),
    ensures
        forall|k: int| 0 <= k < m.len() ==> number_char(#[trigger] m[k]),
{
    lemma_index_found(m, '.');
    match index_of(m, '.') {
        None => {
            lemma_digits_number(m);
        },
        Some(d) => {
            lemma_digits_number(m.take(d));
            lemma_digits_number(m.skip(d + 1));
            assert forall|k: int| 0 <= k < m.len() implies number_char(#[trigger] m[k]) by {
                if k < d {
                    assert(m[k] == m.take(d)[k]);
                } else if k > d {
                    assert(m[k] == m.skip(d + 1)[k - d - 1]);
                }
            }
        },
    }
}

proof fn lemma_number_number(b: Seq<char>)
    requires
        number_ok(b),
    ensures
        forall|k: int| 0 <= k < b.len() ==> number_char(#[trigger] b[k]),
{
    lemma_index_found(b, 'e');
    match index_of(b, 'e') {
        None => {
            lemma_mantissa_number(b);
        },
        Some(e) => {
            lemma_mantissa_number(b.take(e));
            let x = b.skip(e + 1);
            let u = unsigned_part(x);
            lemma_digits_number(u);
            assert forall|k: int| 0 <= k < b.len() implies number_char(#[trigger] b[k]) by {
                if k < e {
                    assert(b[k] == b.take(e)[k]);
                } else if k > e {
                    assert(b[k] == x[k - e - 1]);
                    if x.len() > 0 && (x[0] == '+' || x[0] == '-') && k > e + 1 {
                        assert(x[k - e - 1] == u[k - e - 2]);
                    } else if !(x.len() > 0 && (x[0] == '+' || x[0] == '-')) {
                        assert(x[k - e - 1] == u[k - e - 1]);
                    }
                }
            }
        },
    }
}

/// Every character of a number's text is a number character.
pub proof fn lemma_float_chars(t: Seq<char>)
    requires
        is_float_literal(t),
    ensures
        forall|k: int| 0 <= k < t.len() ==> number_char(#[trigger] t[k]),
        t.len() > 0,
{
    let l = t.map_values(|c: char| lower(c));
    let b = unsigned_part(l);
    assert forall|k: int| 0 <= k < b.len() implies number_char(#[trigger] b[k]) by {
        if b == "inf"@ || b == "infinity"@ || b == "nan"@ {
            reveal_strlit("inf");
            reveal_strlit("infinity");
            reveal_strlit("nan");
        } else {
            lemma_number_number(b);
        }
    }
    if b == "inf"@ || b == "infinity"@ || b == "nan"@ {
        reveal_strlit("inf");
        reveal_strlit("infinity");
        reveal_strlit("nan");
    } else {
        lemma_index_found(b, 'e');
        lemma_index_found(b, '.');
    }
    assert(b.len() > 0);
    assert forall|k: int| 0 <= k < t.len() implies number_char(#[trigger] t[k]) by {
        assert(l[k] == lower(t[k]));
        if l.len() > 0 && (l[0] == '+' || l[0] == '-') {
            if k > 0 {
                assert(l[k] == b[k - 1]);
            }
        } else {
            assert(l[k] == b[k]);
        }
        assert(lower(lower(t[k])) == lower(t[k]));
    }
}

/// A number's text has no surrounding whitespace and none of the
/// characters that delimit the written fields.
pub proof fn lemma_float_text(t: Seq<char>)
    requires
        is_float_literal(t),
    ensures
        untrimmed(t),
        no_lt(t),
        lacks(t, ','),
        lacks(t, ';'),
        lacks(t, '"'),
        lacks(t, '/'),
        trim(t) == t,
{
    lemma_float_chars(t);
    assert(number_char(t[0]));
    assert(number_char(t.last()));
    assert(lacks(t, ',') && lacks(t, ';') && lacks(t, '"') && lacks(t, '/') && no_lt(t)) by {
        assert forall|k: int| 0 <= k < t.len() implies #[trigger] t[k] != ',' && t[k] != ';' && t[k] != '"' && t[k]
            != '/' && t[k] != '<' by {
            assert(number_char(t[k]));
        }
    }
    lemma_trim_noop(t);
}

/// A signed decimal reads back as its value.
pub proof fn lemma_parse_signed(v: int, min: int, max: int)
    requires
        min <= v <= max,
        min <= 0,
    ensures
        parse_int_spec(signed_decimal(v), min, max) == Some(v),
        untrimmed(signed_decimal(v)),
        no_lt(signed_decimal(v)),
        lacks(signed_decimal(v), ','),
        lacks(signed_decimal(v), ';'),
        trim(signed_decimal(v)) == signed_decimal(v),
{
    if v < 0 {
        let n = (-v) as nat;
        crate::config::lemma_decimal_facts(n);
        let d = decimal(n);
        let s = seq!['-'] + d;
        assert(s.subrange(1, s.len() as int) =~= d);
        assert(is_digit(d.last()));
        assert(s.last() == d.last());
        assert forall|k: int| 0 <= k < s.len() implies #[trigger] s[k] != ',' && s[k] != ';' && s[k] != '<' by {
            if k > 0 {
                assert(s[k] == d[k - 1]);
                assert(is_digit(d[k - 1]));
            }
        }
        lemma_trim_noop(s);
    } else {
        lemma_parse_decimal(v as nat, max);
        crate::config::lemma_decimal_facts(v as nat);
        let d = decimal(v as nat);
        assert forall|k: int| 0 <= k < d.len() implies #[trigger] d[k] != ',' && d[k] != ';' by {
            assert(is_digit(d[k]));
        }
        lemma_trim_noop(d);
    }
}

/// Texts that are all numbers read back as themselves.
pub proof fn lemma_float_pieces(ps: Seq<Seq<char>>)
    requires
        forall|i: int| 0 <= i < ps.len() ==> is_float_literal(#[trigger] ps[i]),
    ensures
        float_pieces(ps) == ps,
    decreases ps.len(),
{
    if ps.len() > 0 {
        let front = ps.drop_last();
        assert forall|i: int| 0 <= i < front.len() implies is_float_literal(#[trigger] front[i]) by {
            assert(front[i] == ps[i]);
        }
        lemma_float_pieces(front);
        assert(is_float_literal(ps[ps.len() - 1]));
        lemma_float_text(ps.last());
        assert(front.push(ps.last()) =~= ps);
    }
}

/// Number texts joined by commas read back as the texts.
pub proof fn lemma_read_texts(v: Seq<Seq<char>>)
    requires
        v.len() >= 1,
        forall|i: int| 0 <= i < v.len() ==> is_float_literal(#[trigger] v[i]),
    ensures
        float_pieces(split_on(join(v, ','), ',')) == v,
{
    assert forall|i: int| 0 <= i < v.len() implies lacks(#[trigger] v[i], ',') by {
        lemma_float_text(v[i]);
    }
    lemma_split_join(v, ',');
    lemma_float_pieces(v);
}

/// Decimals of integers read back as the integers.
pub proof fn lemma_int_pieces(vals: Seq<i64>)
    ensures
        int_pieces(vals.map_values(|n: i64| signed_decimal(n as int))) == vals,
    decreases vals.len(),
{
    if vals.len() > 0 {
        let front = vals.drop_last();
        lemma_int_pieces(front);
        let ps = vals.map_values(|n: i64| signed_decimal(n as int));
        assert(ps.drop_last() =~= front.map_values(|n: i64| signed_decimal(n as int)));
        let n = vals.last();
        assert(ps.last() == signed_decimal(n as int));
        lemma_parse_signed(n as int, i64::MIN as int, i64::MAX as int);
        assert(front.push(n) =~= vals);
    }
}

/// Integers joined by commas read back as the integers.
pub proof fn lemma_read_ints(vals: Seq<i64>)
    requires
        vals.len() >= 1,
    ensures
        int_pieces(split_on(ints_joined(vals), ',')) == vals,
{
    let ps = vals.map_values(|n: i64| signed_decimal(n as int));
    assert forall|i: int| 0 <= i < ps.len() implies lacks(#[trigger] ps[i], ',') by {
        lemma_parse_signed(vals[i] as int, i64::MIN as int, i64::MAX as int);
    }
    lemma_split_join(ps, ',');
    lemma_int_pieces(vals);
}

/// The text of a point: `x,y,dy`.
pub open spec fn triple_text(p: (i64, i64, i64)) -> Seq<char> {
    signed_decimal(p.0 as int) + seq![','] + signed_decimal(p.1 as int) + seq![','] + signed_decimal(p.2 as int)
}

proof fn lemma_triple_read(p: (i64, i64, i64))
    ensures
        int_pieces(split_on(triple_text(p), ',')) == seq![p.0, p.1, p.2],
        lacks(triple_text(p), ';'),
        no_lt(triple_text(p)),
{
    let v = seq![p.0, p.1, p.2];
    let ps = v.map_values(|n: i64| signed_decimal(n as int));
    let a = signed_decimal(p.0 as int);
    let b = signed_decimal(p.1 as int);
    let c = signed_decimal(p.2 as int);
    assert(ps =~= seq![a, b, c]);
    assert(seq![a, b, c].drop_last() =~= seq![a, b]);
    assert(seq![a, b].drop_last() =~= seq![a]);
    assert(join(seq![a], ',') == a);
    assert(join(seq![a, b], ',') == a + seq![','] + b);
    assert(join(seq![a, b, c], ',') == a + seq![','] + b + seq![','] + c);
    lemma_read_ints(v);
    lemma_parse_signed(p.0 as int, i64::MIN as int, i64::MAX as int);
    lemma_parse_signed(p.1 as int, i64::MIN as int, i64::MAX as int);
    lemma_parse_signed(p.2 as int, i64::MIN as int, i64::MAX as int);
    let t = triple_text(p);
    assert forall|k: int| 0 <= k < t.len() implies #[trigger] t[k] != ';' && t[k] != '<' by {
        if k < a.len() {
            assert(t[k] == a[k]);
        } else if k == a.len() {
        } else if k < a.len() + 1 + b.len() {
            assert(t[k] == b[k - a.len() - 1]);
        } else if k == a.len() + 1 + b.len() {
        } else {
            assert(t[k] == c[k - a.len() - 2 - b.len()]);
        }
    }
}

proof fn lemma_triple_points(ts: Seq<(i64, i64, i64)>)
    ensures
        triple_points(ts.map_values(|p: (i64, i64, i64)| triple_text(p))) == ts,
    decreases ts.len(),
{
    if ts.len() > 0 {
        let front = ts.drop_last();
        lemma_triple_points(front);
        let ps = ts.map_values(|p: (i64, i64, i64)| triple_text(p));
        assert(ps.drop_last() =~= front.map_values(|p: (i64, i64, i64)| triple_text(p)));
        assert(ps.last() == triple_text(ts.last()));
        lemma_triple_read(ts.last());
        assert(front.push(ts.last()) =~= ts);
    }
}

/// A curve's text reads back as its points.
pub proof fn lemma_read_points(pts: Seq<(i64, i64, i64)>)
    requires
        pts.len() >= 1,
    ensures
        triple_points(split_on(points_text(pts), ';')) == pts,
        no_lt(points_text(pts)),
{
    let ps = pts.map_values(|p: (i64, i64, i64)| triple_text(p));
    assert(ps =~= pts.map_values(
        |p: (i64, i64, i64)|
            signed_decimal(p.0 as int) + seq![','] + signed_decimal(p.1 as int) + seq![','] + signed_decimal(p.2 as int),
    ));
    assert forall|i: int| 0 <= i < ps.len() implies lacks(#[trigger] ps[i], ';') && lacks(ps[i], '<') by {
        lemma_triple_read(pts[i]);
    }
    lemma_split_join(ps, ';');
    lemma_triple_points(pts);
    lemma_join_lacks(ps, ';', '<');
}

pub proof fn lemma_present_step(es: Seq<Entry>, k: int)
    requires
        0 <= k < es.len(),
    ensures
        present(es.take(k + 1)) == present(es.take(k)) + opt_field(es[k].0, es[k].1),
{
    assert(es.take(k + 1).drop_last() =~= es.take(k));
    assert(es.take(k + 1).last() == es[k]);
}

/// An optional content, trimmed.
pub open spec fn trimmed(o: Option<Seq<char>>) -> Option<Seq<char>> {
    match o {
        Some(c) => Some(trim(c)),
        None => None,
    }
}

pub proof fn lemma_bool_read(b: bool)
    ensures
        trim(bool_text(b)) == bool_text(b),
        (bool_text(b) == "true"@) == b,
        no_lt(bool_text(b)),
{
    reveal_strlit("true");
    reveal_strlit("false");
    lemma_trim_noop(bool_text(b));
}

proof fn lemma_texts_facts(v: Seq<String>)
    requires
        v.len() == 4,
        forall|i: int| 0 <= i < 4 ==> is_float_literal(#[trigger] v[i]@),
    ensures
        no_lt(texts_joined(v)),
        trim(texts_joined(v)) == texts_joined(v),
        float_pieces(split_on(texts_joined(v), ',')) == v.map_values(|t: String| t@),
{
    let ps = v.map_values(|t: String| t@);
    assert forall|i: int| 0 <= i < ps.len() implies is_float_literal(#[trigger] ps[i]) && lacks(ps[i], '<') by {
        assert(ps[i] == v[i]@);
        lemma_float_text(ps[i]);
    }
    lemma_read_texts(ps);
    lemma_join_lacks(ps, ',', '<');
    lemma_float_chars(ps[0]);
    lemma_float_chars(ps[3]);
    assert(ps.last() == ps[3]);
    lemma_float_text(ps[0]);
    lemma_float_text(ps[3]);
    lemma_join_ends(ps, ',');
    lemma_trim_noop(join(ps, ','));
}

pub proof fn lemma_texts_no_lt(v: Seq<String>)
    requires
        v.len() == 4,
        forall|i: int| 0 <= i < 4 ==> is_float_literal(#[trigger] v[i]@),
    ensures
        no_lt(texts_joined(v)),
{
    lemma_texts_facts(v);
}

pub proof fn lemma_texts_read(v: Seq<String>)
    requires
        v.len() == 4,
        forall|i: int| 0 <= i < 4 ==> is_float_literal(#[trigger] v[i]@),
    ensures
        trim(texts_joined(v)) == texts_joined(v),
        float_pieces(split_on(texts_joined(v), ',')) == v.map_values(|t: String| t@),
{
    lemma_texts_facts(v);
}

proof fn lemma_ints_facts(v: Seq<i64>)
    requires
        v.len() >= 1,
    ensures
        no_lt(ints_joined(v)),
        trim(ints_joined(v)) == ints_joined(v),
        int_pieces(split_on(ints_joined(v), ',')) == v,
{
    let ps = v.map_values(|n: i64| signed_decimal(n as int));
    assert forall|i: int| 0 <= i < ps.len() implies lacks(#[trigger] ps[i], '<') by {
        lemma_parse_signed(v[i] as int, i64::MIN as int, i64::MAX as int);
    }
    lemma_read_ints(v);
    lemma_join_lacks(ps, ',', '<');
    let last = v.len() - 1;
    lemma_parse_signed(v[0] as int, i64::MIN as int, i64::MAX as int);
    lemma_parse_signed(v[last] as int, i64::MIN as int, i64::MAX as int);
    lemma_signed_nonempty(v[0] as int);
    lemma_signed_nonempty(v[last] as int);
    assert(ps[0] == signed_decimal(v[0] as int));
    assert(ps.last() == signed_decimal(v[last] as int));
    lemma_join_ends(ps, ',');
    lemma_trim_noop(join(ps, ','));
}

proof fn lemma_signed_nonempty(n: int)
    ensures
        signed_decimal(n).len() > 0,
{
    if n < 0 {
        crate::config::lemma_decimal_facts((-n) as nat);
    } else {
        crate::config::lemma_decimal_facts(n as nat);
    }
}

pub proof fn lemma_ints_no_lt(v: Seq<i64>)
    ensures
        no_lt(ints_joined(v)),
{
    if v.len() >= 1 {
        lemma_ints_facts(v);
    }
}

pub proof fn lemma_ints_read(v: Seq<i64>)
    requires
        v.len() >= 1,
    ensures
        trim(ints_joined(v)) == ints_joined(v),
        int_pieces(split_on(ints_joined(v), ',')) == v,
{
    lemma_ints_facts(v);
}

/// The written content of adjustment `i` (in writing order), if any.
pub open spec fn adj_content(a: SidecarAdjustOverrides, i: int) -> Option<Seq<char>> {
    if i == 0 {
        i64_content(a.film_type)
    } else if i == 1 {
        i64_content(a.film_curve)
    } else if i == 2 {
        text_content(a.film_gamma)
    } else if i == 3 {
        bool_content(a.apply_levels)
    } else if i == 4 {
        bool_content(a.apply_curves)
    } else if i == 5 {
        bool_content(a.apply_exposure)
    } else if i == 6 {
        bool_content(a.apply_brightness)
    } else if i == 7 {
        bool_content(a.apply_shadow_depth)
    } else if i == 8 {
        bool_content(a.apply_midtone)
    } else if i == 9 {
        bool_content(a.apply_contrast)
    } else if i == 10 {
        bool_content(a.apply_highlights)
    } else if i == 11 {
        bool_content(a.apply_shadows)
    } else if i == 12 {
        bool_content(a.apply_saturation)
    } else if i == 13 {
        bool_content(a.apply_color_balance)
    } else if i == 14 {
        bool_content(a.apply_color_temp)
    } else if i == 15 {
        bool_content(a.apply_color_corr)
    } else if i == 16 {
        bool_content(a.apply_film_curve)
    } else if i == 17 {
        text_content(a.exposure)
    } else if i == 18 {
        text_content(a.brightness)
    } else if i == 19 {
        text_content(a.lightness)
    } else if i == 20 {
        text_content(a.midtone)
    } else if i == 21 {
        text_content(a.contrast)
    } else if i == 22 {
        text_content(a.highlights)
    } else if i == 23 {
        text_content(a.shadows)
    } else if i == 24 {
        text_content(a.saturation)
    } else if i == 25 {
        text_content(a.color_temperature)
    } else if i == 26 {
        text_content(a.tint)
    } else if i == 27 {
        text_content(a.r_shift)
    } else if i == 28 {
        text_content(a.g_shift)
    } else if i == 29 {
        text_content(a.b_shift)
    } else if i == 30 {
        texts_content(a.levels_black)
    } else if i == 31 {
        texts_content(a.levels_gamma)
    } else if i == 32 {
        texts_content(a.levels_white)
    } else if i == 33 {
        texts_content(a.output_shadow)
    } else if i == 34 {
        texts_content(a.output_highlight)
    } else if i == 35 {
        ints_content(a.color_corr)
    } else if i == 36 {
        bool_content(a.apply_usm)
    } else if i == 37 {
        i64_content(a.usm_amount)
    } else if i == 38 {
        i64_content(a.usm_radius)
    } else if i == 39 {
        i64_content(a.usm_dark_limit)
    } else if i == 40 {
        i64_content(a.usm_noise_limit)
    } else if i == 41 {
        ints_content(a.usm_col_factor)
    } else if i == 42 {
        bool_content(a.apply_dust)
    } else if i == 43 {
        i64_content(a.dust_level)
    } else if i == 44 {
        bool_content(a.apply_cn_filter)
    } else if i == 45 {
        i64_content(a.color_noise_radius)
    } else if i == 46 {
        i64_content(a.noise_filter_bias)
    } else if i == 47 {
        i64_content(a.lens_correction)
    } else if i == 48 {
        i64_content(a.vignette_amount)
    } else if i == 49 {
        bool_content(a.enhanced_shadow)
    } else if i == 50 {
        bool_content(a.remove_cast_highlight)
    } else if i == 51 {
        bool_content(a.remove_cast_shadow)
    } else {
        None
    }
}

/// The adjustment entries: names from position 9 of `tag_of` on.
pub open spec fn adjust_entries(a: SidecarAdjustOverrides) -> Seq<Entry> {
    Seq::new(52, |i: int| (tag_of(9 + i), adj_content(a, i)))
}

/// Adjustments that read back unchanged: number texts are numbers, and the
/// lists have their lengths (four levels, 36 matrix entries, three factors).
pub open spec fn adjust_round_trips(a: SidecarAdjustOverrides) -> bool {
    &&& (a.film_gamma matches Some(t) ==> is_float_literal(t@))
    &&& (a.exposure matches Some(t) ==> is_float_literal(t@) && !special_float_word(t@))
    &&& (a.brightness matches Some(t) ==> is_float_literal(t@))
    &&& (a.lightness matches Some(t) ==> is_float_literal(t@))
    &&& (a.midtone matches Some(t) ==> is_float_literal(t@))
    &&& (a.contrast matches Some(t) ==> is_float_literal(t@))
    &&& (a.highlights matches Some(t) ==> is_float_literal(t@))
    &&& (a.shadows matches Some(t) ==> is_float_literal(t@))
    &&& (a.saturation matches Some(t) ==> is_float_literal(t@))
    &&& (a.color_temperature matches Some(t) ==> is_float_literal(t@))
    &&& (a.tint matches Some(t) ==> is_float_literal(t@))
    &&& (a.r_shift matches Some(t) ==> is_float_literal(t@))
    &&& (a.g_shift matches Some(t) ==> is_float_literal(t@))
    &&& (a.b_shift matches Some(t) ==> is_float_literal(t@))
    &&& (a.levels_black matches Some(v) ==> v@.len() == 4 && forall|i: int| 0 <= i < 4 ==> is_float_literal(#[trigger] v@[i]@))
    &&& (a.levels_gamma matches Some(v) ==> v@.len() == 4 && forall|i: int| 0 <= i < 4 ==> is_float_literal(#[trigger] v@[i]@))
    &&& (a.levels_white matches Some(v) ==> v@.len() == 4 && forall|i: int| 0 <= i < 4 ==> is_float_literal(#[trigger] v@[i]@))
    &&& (a.output_shadow matches Some(v) ==> v@.len() == 4 && forall|i: int| 0 <= i < 4 ==> is_float_literal(#[trigger] v@[i]@))
    &&& (a.output_highlight matches Some(v) ==> v@.len() == 4 && forall|i: int| 0 <= i < 4 ==> is_float_literal(#[trigger] v@[i]@))
    &&& (a.color_corr matches Some(v) ==> v@.len() == 36)
    &&& (a.usm_col_factor matches Some(v) ==> v@.len() == 3)
}

pub proof fn lemma_adj_content(a: SidecarAdjustOverrides, i: int)
    requires
        adjust_round_trips(a),
        0 <= i < 52,
    ensures
        adj_content(a, i) matches Some(c) ==> no_lt(c),
{
    if i == 0 {
        if let Some(v) = a.film_type {
            lemma_parse_signed(v as int, i64::MIN as int, i64::MAX as int);
        }
    } else if i == 1 {
        if let Some(v) = a.film_curve {
            lemma_parse_signed(v as int, i64::MIN as int, i64::MAX as int);
        }
    } else if i == 2 {
        if let Some(t) = a.film_gamma {
            lemma_float_text(t@);
        }
    } else if i == 3 {
        reveal_strlit("true");
        reveal_strlit("false");
    } else if i == 4 {
        reveal_strlit("true");
        reveal_strlit("false");
    } else if i == 5 {
        reveal_strlit("true");
        reveal_strlit("false");
    } else if i == 6 {
        reveal_strlit("true");
        reveal_strlit("false");
    } else if i == 7 {
        reveal_strlit("true");
        reveal_strlit("false");
    } else if i == 8 {
        reveal_strlit("true");
        reveal_strlit("false");
    } else if i == 9 {
        reveal_strlit("true");
        reveal_strlit("false");
    } else if i == 10 {
        reveal_strlit("true");
        reveal_strlit("false");
    } else if i == 11 {
        reveal_strlit("true");
        reveal_strlit("false");
    } else if i == 12 {
        reveal_strlit("true");
        reveal_strlit("false");
    } else if i == 13 {
        reveal_strlit("true");
        reveal_strlit("false");
    } else if i == 14 {
        reveal_strlit("true");
        reveal_strlit("false");
    } else if i == 15 {
        reveal_strlit("true");
        reveal_strlit("false");
    } else if i == 16 {
        reveal_strlit("true");
        reveal_strlit("false");
    } else if i == 17 {
        if let Some(t) = a.exposure {
            lemma_float_text(t@);
        }
    } else if i == 18 {
        if let Some(t) = a.brightness {
            lemma_float_text(t@);
        }
    } else if i == 19 {
        if let Some(t) = a.lightness {
            lemma_float_text(t@);
        }
    } else if i == 20 {
        if let Some(t) = a.midtone {
            lemma_float_text(t@);
        }
    } else if i == 21 {
        if let Some(t) = a.contrast {
            lemma_float_text(t@);
        }
    } else if i == 22 {
        if let Some(t) = a.highlights {
            lemma_float_text(t@);
        }
    } else if i == 23 {
        if let Some(t) = a.shadows {
            lemma_float_text(t@);
        }
    } else if i == 24 {
        if let Some(t) = a.saturation {
            lemma_float_text(t@);
        }
    } else if i == 25 {
        if let Some(t) = a.color_temperature {
            lemma_float_text(t@);
        }
    } else if i == 26 {
        if let Some(t) = a.tint {
            lemma_float_text(t@);
        }
    } else if i == 27 {
        if let Some(t) = a.r_shift {
            lemma_float_text(t@);
        }
    } else if i == 28 {
        if let Some(t) = a.g_shift {
            lemma_float_text(t@);
        }
    } else if i == 29 {
        if let Some(t) = a.b_shift {
            lemma_float_text(t@);
        }
    } else if i == 30 {
        if let Some(v) = a.levels_black {
            lemma_texts_no_lt(v@);
        }
    } else if i == 31 {
        if let Some(v) = a.levels_gamma {
            lemma_texts_no_lt(v@);
        }
    } else if i == 32 {
        if let Some(v) = a.levels_white {
            lemma_texts_no_lt(v@);
        }
    } else if i == 33 {
        if let Some(v) = a.output_shadow {
            lemma_texts_no_lt(v@);
        }
    } else if i == 34 {
        if let Some(v) = a.output_highlight {
            lemma_texts_no_lt(v@);
        }
    } else if i == 35 {
        if let Some(v) = a.color_corr {
            lemma_ints_no_lt(v@);
        }
    } else if i == 36 {
        reveal_strlit("true");
        reveal_strlit("false");
    } else if i == 37 {
        if let Some(v) = a.usm_amount {
            lemma_parse_signed(v as int, i64::MIN as int, i64::MAX as int);
        }
    } else if i == 38 {
        if let Some(v) = a.usm_radius {
            lemma_parse_signed(v as int, i64::MIN as int, i64::MAX as int);
        }
    } else if i == 39 {
        if let Some(v) = a.usm_dark_limit {
            lemma_parse_signed(v as int, i64::MIN as int, i64::MAX as int);
        }
    } else if i == 40 {
        if let Some(v) = a.usm_noise_limit {
            lemma_parse_signed(v as int, i64::MIN as int, i64::MAX as int);
        }
    } else if i == 41 {
        if let Some(v) = a.usm_col_factor {
            lemma_ints_no_lt(v@);
        }
    } else if i == 42 {
        reveal_strlit("true");
        reveal_strlit("false");
    } else if i == 43 {
        if let Some(v) = a.dust_level {
            lemma_parse_signed(v as int, i64::MIN as int, i64::MAX as int);
        }
    } else if i == 44 {
        reveal_strlit("true");
        reveal_strlit("false");
    } else if i == 45 {
        if let Some(v) = a.color_noise_radius {
            lemma_parse_signed(v as int, i64::MIN as int, i64::MAX as int);
        }
    } else if i == 46 {
        if let Some(v) = a.noise_filter_bias {
            lemma_parse_signed(v as int, i64::MIN as int, i64::MAX as int);
        }
    } else if i == 47 {
        if let Some(v) = a.lens_correction {
            lemma_parse_signed(v as int, i64::MIN as int, i64::MAX as int);
        }
    } else if i == 48 {
        if let Some(v) = a.vignette_amount {
            lemma_parse_signed(v as int, i64::MIN as int, i64::MAX as int);
        }
    } else if i == 49 {
        reveal_strlit("true");
        reveal_strlit("false");
    } else if i == 50 {
        reveal_strlit("true");
        reveal_strlit("false");
    } else if i == 51 {
        reveal_strlit("true");
        reveal_strlit("false");
    }
}

/// The adjustment lines are the written adjustment entries.
pub proof fn lemma_adjust_present(a: SidecarAdjustOverrides)
    ensures
        present(adjust_entries(a)) == adjust_fields(a),
{
    let es = adjust_entries(a);
    let c1 = es.subrange(0, 9);
    assert(present(c1.take(0)) == Seq::<(Seq<char>, Seq<char>)>::empty());
    lemma_present_step(c1, 0);
    assert(c1[0] == es[0]);
    lemma_present_step(c1, 1);
    assert(c1[1] == es[1]);
    lemma_present_step(c1, 2);
    assert(c1[2] == es[2]);
    lemma_present_step(c1, 3);
    assert(c1[3] == es[3]);
    lemma_present_step(c1, 4);
    assert(c1[4] == es[4]);
    lemma_present_step(c1, 5);
    assert(c1[5] == es[5]);
    lemma_present_step(c1, 6);
    assert(c1[6] == es[6]);
    lemma_present_step(c1, 7);
    assert(c1[7] == es[7]);
    lemma_present_step(c1, 8);
    assert(c1[8] == es[8]);
    assert(c1.take(9) =~= c1);
    assert(present(c1) =~= adjust_fields_1(a));
    let c2 = es.subrange(9, 18);
    assert(present(c2.take(0)) == Seq::<(Seq<char>, Seq<char>)>::empty());
    lemma_present_step(c2, 0);
    assert(c2[0] == es[9]);
    lemma_present_step(c2, 1);
    assert(c2[1] == es[10]);
    lemma_present_step(c2, 2);
    assert(c2[2] == es[11]);
    lemma_present_step(c2, 3);
    assert(c2[3] == es[12]);
    lemma_present_step(c2, 4);
    assert(c2[4] == es[13]);
    lemma_present_step(c2, 5);
    assert(c2[5] == es[14]);
    lemma_present_step(c2, 6);
    assert(c2[6] == es[15]);
    lemma_present_step(c2, 7);
    assert(c2[7] == es[16]);
    lemma_present_step(c2, 8);
    assert(c2[8] == es[17]);
    assert(c2.take(9) =~= c2);
    assert(present(c2) =~= adjust_fields_2(a));
    let c3 = es.subrange(18, 27);
    assert(present(c3.take(0)) == Seq::<(Seq<char>, Seq<char>)>::empty());
    lemma_present_step(c3, 0);
    assert(c3[0] == es[18]);
    lemma_present_step(c3, 1);
    assert(c3[1] == es[19]);
    lemma_present_step(c3, 2);
    assert(c3[2] == es[20]);
    lemma_present_step(c3, 3);
    assert(c3[3] == es[21]);
    lemma_present_step(c3, 4);
    assert(c3[4] == es[22]);
    lemma_present_step(c3, 5);
    assert(c3[5] == es[23]);
    lemma_present_step(c3, 6);
    assert(c3[6] == es[24]);
    lemma_present_step(c3, 7);
    assert(c3[7] == es[25]);
    lemma_present_step(c3, 8);
    assert(c3[8] == es[26]);
    assert(c3.take(9) =~= c3);
    assert(present(c3) =~= adjust_fields_3(a));
    let c4 = es.subrange(27, 36);
    assert(present(c4.take(0)) == Seq::<(Seq<char>, Seq<char>)>::empty());
    lemma_present_step(c4, 0);
    assert(c4[0] == es[27]);
    lemma_present_step(c4, 1);
    assert(c4[1] == es[28]);
    lemma_present_step(c4, 2);
    assert(c4[2] == es[29]);
    lemma_present_step(c4, 3);
    assert(c4[3] == es[30]);
    lemma_present_step(c4, 4);
    assert(c4[4] == es[31]);
    lemma_present_step(c4, 5);
    assert(c4[5] == es[32]);
    lemma_present_step(c4, 6);
    assert(c4[6] == es[33]);
    lemma_present_step(c4, 7);
    assert(c4[7] == es[34]);
    lemma_present_step(c4, 8);
    assert(c4[8] == es[35]);
    assert(c4.take(9) =~= c4);
    assert(present(c4) =~= adjust_fields_4(a));
    let c5 = es.subrange(36, 45);
    assert(present(c5.take(0)) == Seq::<(Seq<char>, Seq<char>)>::empty());
    lemma_present_step(c5, 0);
    assert(c5[0] == es[36]);
    lemma_present_step(c5, 1);
    assert(c5[1] == es[37]);
    lemma_present_step(c5, 2);
    assert(c5[2] == es[38]);
    lemma_present_step(c5, 3);
    assert(c5[3] == es[39]);
    lemma_present_step(c5, 4);
    assert(c5[4] == es[40]);
    lemma_present_step(c5, 5);
    assert(c5[5] == es[41]);
    lemma_present_step(c5, 6);
    assert(c5[6] == es[42]);
    lemma_present_step(c5, 7);
    assert(c5[7] == es[43]);
    lemma_present_step(c5, 8);
    assert(c5[8] == es[44]);
    assert(c5.take(9) =~= c5);
    assert(present(c5) =~= adjust_fields_5(a));
    let c6 = es.subrange(45, 52);
    assert(present(c6.take(0)) == Seq::<(Seq<char>, Seq<char>)>::empty());
    lemma_present_step(c6, 0);
    assert(c6[0] == es[45]);
    lemma_present_step(c6, 1);
    assert(c6[1] == es[46]);
    lemma_present_step(c6, 2);
    assert(c6[2] == es[47]);
    lemma_present_step(c6, 3);
    assert(c6[3] == es[48]);
    lemma_present_step(c6, 4);
    assert(c6[4] == es[49]);
    lemma_present_step(c6, 5);
    assert(c6[5] == es[50]);
    lemma_present_step(c6, 6);
    assert(c6[6] == es[51]);
    assert(c6.take(7) =~= c6);
    assert(present(c6) =~= adjust_fields_6(a));
    assert(es =~= c1 + c2 + c3 + c4 + c5 + c6);
    lemma_present_concat(c1 + c2 + c3 + c4 + c5, c6);
    lemma_present_concat(c1 + c2 + c3 + c4, c5);
    lemma_present_concat(c1 + c2 + c3, c4);
    lemma_present_concat(c1 + c2, c3);
    lemma_present_concat(c1, c2);
}

proof fn lemma_adjust_read_back_1(a: SidecarAdjustOverrides, xml: Seq<char>)
    requires
        adjust_round_trips(a),
        forall|k: int| 9 <= k < 61 ==> #[trigger] tag_text(xml, tag_of(k)) == trimmed(adj_content(a, k - 9)),
    ensures
        adjust_read_1(a, xml),
{
    assert(tag_text(xml, tag_of(9)) == trimmed(adj_content(a, 0)));
    assert(tag_of(9) == "adj_film_type"@);
    if let Some(v) = a.film_type {
        lemma_parse_signed(v as int, i64::MIN as int, i64::MAX as int);
    }
    assert(tag_text(xml, tag_of(10)) == trimmed(adj_content(a, 1)));
    assert(tag_of(10) == "adj_film_curve"@);
    if let Some(v) = a.film_curve {
        lemma_parse_signed(v as int, i64::MIN as int, i64::MAX as int);
    }
    assert(tag_text(xml, tag_of(11)) == trimmed(adj_content(a, 2)));
    assert(tag_of(11) == "adj_film_gamma"@);
    if let Some(t) = a.film_gamma {
        lemma_float_text(t@);
    }
    assert(tag_text(xml, tag_of(12)) == trimmed(adj_content(a, 3)));
    assert(tag_of(12) == "adj_apply_levels"@);
    if let Some(b) = a.apply_levels {
        lemma_bool_read(b);
    }
    assert(tag_text(xml, tag_of(13)) == trimmed(adj_content(a, 4)));
    assert(tag_of(13) == "adj_apply_curves"@);
    if let Some(b) = a.apply_curves {
        lemma_bool_read(b);
    }
    assert(tag_text(xml, tag_of(14)) == trimmed(adj_content(a, 5)));
    assert(tag_of(14) == "adj_apply_exposure"@);
    if let Some(b) = a.apply_exposure {
        lemma_bool_read(b);
    }
    assert(tag_text(xml, tag_of(15)) == trimmed(adj_content(a, 6)));
    assert(tag_of(15) == "adj_apply_brightness"@);
    if let Some(b) = a.apply_brightness {
        lemma_bool_read(b);
    }
    assert(tag_text(xml, tag_of(16)) == trimmed(adj_content(a, 7)));
    assert(tag_of(16) == "adj_apply_shadow_depth"@);
    if let Some(b) = a.apply_shadow_depth {
        lemma_bool_read(b);
    }
    assert(tag_text(xml, tag_of(17)) == trimmed(adj_content(a, 8)));
    assert(tag_of(17) == "adj_apply_midtone"@);
    if let Some(b) = a.apply_midtone {
        lemma_bool_read(b);
    }
}

proof fn lemma_adjust_read_back_2(a: SidecarAdjustOverrides, xml: Seq<char>)
    requires
        adjust_round_trips(a),
        forall|k: int| 9 <= k < 61 ==> #[trigger] tag_text(xml, tag_of(k)) == trimmed(adj_content(a, k - 9)),
    ensures
        adjust_read_2(a, xml),
{
    assert(tag_text(xml, tag_of(18)) == trimmed(adj_content(a, 9)));
    assert(tag_of(18) == "adj_apply_contrast"@);
    if let Some(b) = a.apply_contrast {
        lemma_bool_read(b);
    }
    assert(tag_text(xml, tag_of(19)) == trimmed(adj_content(a, 10)));
    assert(tag_of(19) == "adj_apply_highlights"@);
    if let Some(b) = a.apply_highlights {
        lemma_bool_read(b);
    }
    assert(tag_text(xml, tag_of(20)) == trimmed(adj_content(a, 11)));
    assert(tag_of(20) == "adj_apply_shadows"@);
    if let Some(b) = a.apply_shadows {
        lemma_bool_read(b);
    }
    assert(tag_text(xml, tag_of(21)) == trimmed(adj_content(a, 12)));
    assert(tag_of(21) == "adj_apply_saturation"@);
    if let Some(b) = a.apply_saturation {
        lemma_bool_read(b);
    }
    assert(tag_text(xml, tag_of(22)) == trimmed(adj_content(a, 13)));
    assert(tag_of(22) == "adj_apply_color_balance"@);
    if let Some(b) = a.apply_color_balance {
        lemma_bool_read(b);
    }
    assert(tag_text(xml, tag_of(23)) == trimmed(adj_content(a, 14)));
    assert(tag_of(23) == "adj_apply_color_temp"@);
    if let Some(b) = a.apply_color_temp {
        lemma_bool_read(b);
    }
    assert(tag_text(xml, tag_of(24)) == trimmed(adj_content(a, 15)));
    assert(tag_of(24) == "adj_apply_color_corr"@);
    if let Some(b) = a.apply_color_corr {
        lemma_bool_read(b);
    }
    assert(tag_text(xml, tag_of(25)) == trimmed(adj_content(a, 16)));
    assert(tag_of(25) == "adj_apply_film_curve"@);
    if let Some(b) = a.apply_film_curve {
        lemma_bool_read(b);
    }
    assert(tag_text(xml, tag_of(26)) == trimmed(adj_content(a, 17)));
    assert(tag_of(26) == "adj_exposure"@);
    if let Some(t) = a.exposure {
        lemma_float_text(t@);
    }
}

proof fn lemma_adjust_read_back_3(a: SidecarAdjustOverrides, xml: Seq<char>)
    requires
        adjust_round_trips(a),
        forall|k: int| 9 <= k < 61 ==> #[trigger] tag_text(xml, tag_of(k)) == trimmed(adj_content(a, k - 9)),
    ensures
        adjust_read_3(a, xml),
{
    assert(tag_text(xml, tag_of(27)) == trimmed(adj_content(a, 18)));
    assert(tag_of(27) == "adj_brightness"@);
    if let Some(t) = a.brightness {
        lemma_float_text(t@);
    }
    assert(tag_text(xml, tag_of(28)) == trimmed(adj_content(a, 19)));
    assert(tag_of(28) == "adj_lightness"@);
    if let Some(t) = a.lightness {
        lemma_float_text(t@);
    }
    assert(tag_text(xml, tag_of(29)) == trimmed(adj_content(a, 20)));
    assert(tag_of(29) == "adj_midtone"@);
    if let Some(t) = a.midtone {
        lemma_float_text(t@);
    }
    assert(tag_text(xml, tag_of(30)) == trimmed(adj_content(a, 21)));
    assert(tag_of(30) == "adj_contrast"@);
    if let Some(t) = a.contrast {
        lemma_float_text(t@);
    }
    assert(tag_text(xml, tag_of(31)) == trimmed(adj_content(a, 22)));
    assert(tag_of(31) == "adj_highlights"@);
    if let Some(t) = a.highlights {
        lemma_float_text(t@);
    }
    assert(tag_text(xml, tag_of(32)) == trimmed(adj_content(a, 23)));
    assert(tag_of(32) == "adj_shadows"@);
    if let Some(t) = a.shadows {
        lemma_float_text(t@);
    }
    assert(tag_text(xml, tag_of(33)) == trimmed(adj_content(a, 24)));
    assert(tag_of(33) == "adj_saturation"@);
    if let Some(t) = a.saturation {
        lemma_float_text(t@);
    }
    assert(tag_text(xml, tag_of(34)) == trimmed(adj_content(a, 25)));
    assert(tag_of(34) == "adj_color_temperature"@);
    if let Some(t) = a.color_temperature {
        lemma_float_text(t@);
    }
    assert(tag_text(xml, tag_of(35)) == trimmed(adj_content(a, 26)));
    assert(tag_of(35) == "adj_tint"@);
    if let Some(t) = a.tint {
        lemma_float_text(t@);
    }
}

proof fn lemma_adjust_read_back_4(a: SidecarAdjustOverrides, xml: Seq<char>)
    requires
        adjust_round_trips(a),
        forall|k: int| 9 <= k < 61 ==> #[trigger] tag_text(xml, tag_of(k)) == trimmed(adj_content(a, k - 9)),
    ensures
        adjust_read_4(a, xml),
{
    assert(tag_text(xml, tag_of(36)) == trimmed(adj_content(a, 27)));
    assert(tag_of(36) == "adj_r_shift"@);
    if let Some(t) = a.r_shift {
        lemma_float_text(t@);
    }
    assert(tag_text(xml, tag_of(37)) == trimmed(adj_content(a, 28)));
    assert(tag_of(37) == "adj_g_shift"@);
    if let Some(t) = a.g_shift {
        lemma_float_text(t@);
    }
    assert(tag_text(xml, tag_of(38)) == trimmed(adj_content(a, 29)));
    assert(tag_of(38) == "adj_b_shift"@);
    if let Some(t) = a.b_shift {
        lemma_float_text(t@);
    }
    assert(tag_text(xml, tag_of(39)) == trimmed(adj_content(a, 30)));
    assert(tag_of(39) == "adj_levels_black"@);
    if let Some(v) = a.levels_black {
        lemma_texts_read(v@);
    }
    assert(tag_text(xml, tag_of(40)) == trimmed(adj_content(a, 31)));
    assert(tag_of(40) == "adj_levels_gamma"@);
    if let Some(v) = a.levels_gamma {
        lemma_texts_read(v@);
    }
    assert(tag_text(xml, tag_of(41)) == trimmed(adj_content(a, 32)));
    assert(tag_of(41) == "adj_levels_white"@);
    if let Some(v) = a.levels_white {
        lemma_texts_read(v@);
    }
    assert(tag_text(xml, tag_of(42)) == trimmed(adj_content(a, 33)));
    assert(tag_of(42) == "adj_output_shadow"@);
    if let Some(v) = a.output_shadow {
        lemma_texts_read(v@);
    }
    assert(tag_text(xml, tag_of(43)) == trimmed(adj_content(a, 34)));
    assert(tag_of(43) == "adj_output_highlight"@);
    if let Some(v) = a.output_highlight {
        lemma_texts_read(v@);
    }
    assert(tag_text(xml, tag_of(44)) == trimmed(adj_content(a, 35)));
    assert(tag_of(44) == "adj_color_corr"@);
    if let Some(v) = a.color_corr {
        lemma_ints_read(v@);
    }
}

proof fn lemma_adjust_read_back_5(a: SidecarAdjustOverrides, xml: Seq<char>)
    requires
        adjust_round_trips(a),
        forall|k: int| 9 <= k < 61 ==> #[trigger] tag_text(xml, tag_of(k)) == trimmed(adj_content(a, k - 9)),
    ensures
        adjust_read_5(a, xml),
{
    assert(tag_text(xml, tag_of(45)) == trimmed(adj_content(a, 36)));
    assert(tag_of(45) == "adj_apply_usm"@);
    if let Some(b) = a.apply_usm {
        lemma_bool_read(b);
    }
    assert(tag_text(xml, tag_of(46)) == trimmed(adj_content(a, 37)));
    assert(tag_of(46) == "adj_usm_amount"@);
    if let Some(v) = a.usm_amount {
        lemma_parse_signed(v as int, i64::MIN as int, i64::MAX as int);
    }
    assert(tag_text(xml, tag_of(47)) == trimmed(adj_content(a, 38)));
    assert(tag_of(47) == "adj_usm_radius"@);
    if let Some(v) = a.usm_radius {
        lemma_parse_signed(v as int, i64::MIN as int, i64::MAX as int);
    }
    assert(tag_text(xml, tag_of(48)) == trimmed(adj_content(a, 39)));
    assert(tag_of(48) == "adj_usm_dark_limit"@);
    if let Some(v) = a.usm_dark_limit {
        lemma_parse_signed(v as int, i64::MIN as int, i64::MAX as int);
    }
    assert(tag_text(xml, tag_of(49)) == trimmed(adj_content(a, 40)));
    assert(tag_of(49) == "adj_usm_noise_limit"@);
    if let Some(v) = a.usm_noise_limit {
        lemma_parse_signed(v as int, i64::MIN as int, i64::MAX as int);
    }
    assert(tag_text(xml, tag_of(50)) == trimmed(adj_content(a, 41)));
    assert(tag_of(50) == "adj_usm_col_factor"@);
    if let Some(v) = a.usm_col_factor {
        lemma_ints_read(v@);
    }
    assert(tag_text(xml, tag_of(51)) == trimmed(adj_content(a, 42)));
    assert(tag_of(51) == "adj_apply_dust"@);
    if let Some(b) = a.apply_dust {
        lemma_bool_read(b);
    }
    assert(tag_text(xml, tag_of(52)) == trimmed(adj_content(a, 43)));
    assert(tag_of(52) == "adj_dust_level"@);
    if let Some(v) = a.dust_level {
        lemma_parse_signed(v as int, i64::MIN as int, i64::MAX as int);
    }
    assert(tag_text(xml, tag_of(53)) == trimmed(adj_content(a, 44)));
    assert(tag_of(53) == "adj_apply_cn_filter"@);
    if let Some(b) = a.apply_cn_filter {
        lemma_bool_read(b);
    }
}

proof fn lemma_adjust_read_back_6(a: SidecarAdjustOverrides, xml: Seq<char>)
    requires
        adjust_round_trips(a),
        forall|k: int| 9 <= k < 61 ==> #[trigger] tag_text(xml, tag_of(k)) == trimmed(adj_content(a, k - 9)),
    ensures
        adjust_read_6(a, xml),
{
    assert(tag_text(xml, tag_of(54)) == trimmed(adj_content(a, 45)));
    assert(tag_of(54) == "adj_color_noise_radius"@);
    if let Some(v) = a.color_noise_radius {
        lemma_parse_signed(v as int, i64::MIN as int, i64::MAX as int);
    }
    assert(tag_text(xml, tag_of(55)) == trimmed(adj_content(a, 46)));
    assert(tag_of(55) == "adj_noise_filter_bias"@);
    if let Some(v) = a.noise_filter_bias {
        lemma_parse_signed(v as int, i64::MIN as int, i64::MAX as int);
    }
    assert(tag_text(xml, tag_of(56)) == trimmed(adj_content(a, 47)));
    assert(tag_of(56) == "adj_lens_correction"@);
    if let Some(v) = a.lens_correction {
        lemma_parse_signed(v as int, i64::MIN as int, i64::MAX as int);
    }
    assert(tag_text(xml, tag_of(57)) == trimmed(adj_content(a, 48)));
    assert(tag_of(57) == "adj_vignette_amount"@);
    if let Some(v) = a.vignette_amount {
        lemma_parse_signed(v as int, i64::MIN as int, i64::MAX as int);
    }
    assert(tag_text(xml, tag_of(58)) == trimmed(adj_content(a, 49)));
    assert(tag_of(58) == "adj_enhanced_shadow"@);
    if let Some(b) = a.enhanced_shadow {
        lemma_bool_read(b);
    }
    assert(tag_text(xml, tag_of(59)) == trimmed(adj_content(a, 50)));
    assert(tag_of(59) == "adj_remove_cast_highlight"@);
    if let Some(b) = a.remove_cast_highlight {
        lemma_bool_read(b);
    }
    assert(tag_text(xml, tag_of(60)) == trimmed(adj_content(a, 51)));
    assert(tag_of(60) == "adj_remove_cast_shadow"@);
    if let Some(b) = a.remove_cast_shadow {
        lemma_bool_read(b);
    }
}

/// Adjustments whose texts in `xml` are their written contents read back
/// as themselves.
pub proof fn lemma_adjust_read_back(a: SidecarAdjustOverrides, xml: Seq<char>)
    requires
        adjust_round_trips(a),
        forall|k: int| 9 <= k < 61 ==> #[trigger] tag_text(xml, tag_of(k)) == trimmed(adj_content(a, k - 9)),
    ensures
        adjust_read(a, xml),
{
    lemma_adjust_read_back_1(a, xml);
    lemma_adjust_read_back_2(a, xml);
    lemma_adjust_read_back_3(a, xml);
    lemma_adjust_read_back_4(a, xml);
    lemma_adjust_read_back_5(a, xml);
    lemma_adjust_read_back_6(a, xml);
}

/// The colour choices' content at position `i` of the colour section.
pub open spec fn color_content(c: SidecarConfig, i: int) -> Option<Seq<char>> {
    if i == 0 {
        Some(bool_text(c.use_embedded_correction))
    } else if i == 1 {
        Some(bool_text(c.use_embedded_icc))
    } else if i == 2 {
        index_content(c.embedded_correction_index)
    } else if i == 3 {
        escaped_content(c.input_profile_name)
    } else if i == 4 {
        escaped_content(c.preset_name)
    } else if i == 5 {
        Some(escape(c.target_color_space@))
    } else {
        None
    }
}

/// The colour entries: names from position 2 of `tag_of` on.
pub open spec fn color_entries(c: SidecarConfig) -> Seq<Entry> {
    Seq::new(6, |i: int| (tag_of(2 + i), color_content(c, i)))
}

/// The split options' content at position `i` of the split section.
pub open spec fn split_content(c: SidecarConfig, i: int) -> Option<Seq<char>> {
    if i == 0 {
        Some(escape(c.split_format@))
    } else if i == 1 {
        Some(bool_text(c.split_portrait))
    } else if i == 2 {
        Some(escape(c.split_naming_pattern@))
    } else {
        None
    }
}

/// The split entries: names from position 63 of `tag_of` on.
pub open spec fn split_entries(c: SidecarConfig) -> Seq<Entry> {
    Seq::new(3, |i: int| (tag_of(63 + i), split_content(c, i)))
}

pub proof fn lemma_color_present(c: SidecarConfig)
    ensures
        present(color_entries(c)) == color_fields(c),
{
    let es = color_entries(c);
    assert(present(es.take(0)) == Seq::<(Seq<char>, Seq<char>)>::empty());
    lemma_present_step(es, 0);
    lemma_present_step(es, 1);
    lemma_present_step(es, 2);
    lemma_present_step(es, 3);
    lemma_present_step(es, 4);
    lemma_present_step(es, 5);
    assert(es.take(6) =~= es);
    assert(present(es) =~= color_fields(c));
}

pub proof fn lemma_split_present(c: SidecarConfig)
    ensures
        present(split_entries(c)) == split_fields(c),
{
    let es = split_entries(c);
    assert(present(es.take(0)) == Seq::<(Seq<char>, Seq<char>)>::empty());
    lemma_present_step(es, 0);
    lemma_present_step(es, 1);
    lemma_present_step(es, 2);
    assert(es.take(3) =~= es);
    assert(present(es) =~= split_fields(c));
}

/// The element names are written the way `open_tag` and `close_tag` put them.
pub proof fn lemma_structure_texts()
    ensures
        "<fff_viewer>\n"@ == open_tag(tag_of(0)) + seq!['\n'],
        "  <color>\n"@ == seq![' ', ' '] + open_tag(tag_of(1)) + seq!['\n'],
        "  </color>\n"@ == seq![' ', ' '] + close_tag(tag_of(1)) + seq!['\n'],
        "  <adjust>\n"@ == seq![' ', ' '] + open_tag(tag_of(8)) + seq!['\n'],
        "  </adjust>\n"@ == seq![' ', ' '] + close_tag(tag_of(8)) + seq!['\n'],
        "    <curve_points>\n"@ == seq![' ', ' ', ' ', ' '] + open_tag(tag_of(61)) + seq!['\n'],
        "    </curve_points>\n"@ == seq![' ', ' ', ' ', ' '] + close_tag(tag_of(61)) + seq!['\n'],
        "  <split>\n"@ == seq![' ', ' '] + open_tag(tag_of(62)) + seq!['\n'],
        "  </split>\n"@ == seq![' ', ' '] + close_tag(tag_of(62)) + seq!['\n'],
        "    <regions>\n"@ == seq![' ', ' ', ' ', ' '] + open_tag(tag_of(66)) + seq!['\n'],
        "    </regions>\n"@ == seq![' ', ' ', ' ', ' '] + close_tag(tag_of(66)) + seq!['\n'],
        "</fff_viewer>\n"@ == close_tag(tag_of(0)) + seq!['\n'],
        "<curve_points>"@ == open_tag(tag_of(61)),
{
    reveal_strlit("<curve_points>");
    reveal_strlit("fff_viewer");
    reveal_strlit("color");
    reveal_strlit("adjust");
    reveal_strlit("curve_points");
    reveal_strlit("split");
    reveal_strlit("regions");
    reveal_strlit("<fff_viewer>\n");
    reveal_strlit("  <color>\n");
    reveal_strlit("  </color>\n");
    reveal_strlit("  <adjust>\n");
    reveal_strlit("  </adjust>\n");
    reveal_strlit("    <curve_points>\n");
    reveal_strlit("    </curve_points>\n");
    reveal_strlit("  <split>\n");
    reveal_strlit("  </split>\n");
    reveal_strlit("    <regions>\n");
    reveal_strlit("    </regions>\n");
    reveal_strlit("</fff_viewer>\n");
    assert("<fff_viewer>\n"@ =~= open_tag(tag_of(0)) + seq!['\n']);
    assert("  <color>\n"@ =~= seq![' ', ' '] + open_tag(tag_of(1)) + seq!['\n']);
    assert("  </color>\n"@ =~= seq![' ', ' '] + close_tag(tag_of(1)) + seq!['\n']);
    assert("  <adjust>\n"@ =~= seq![' ', ' '] + open_tag(tag_of(8)) + seq!['\n']);
    assert("  </adjust>\n"@ =~= seq![' ', ' '] + close_tag(tag_of(8)) + seq!['\n']);
    assert("    <curve_points>\n"@ =~= seq![' ', ' ', ' ', ' '] + open_tag(tag_of(61)) + seq!['\n']);
    assert("    </curve_points>\n"@ =~= seq![' ', ' ', ' ', ' '] + close_tag(tag_of(61)) + seq!['\n']);
    assert("  <split>\n"@ =~= seq![' ', ' '] + open_tag(tag_of(62)) + seq!['\n']);
    assert("  </split>\n"@ =~= seq![' ', ' '] + close_tag(tag_of(62)) + seq!['\n']);
    assert("    <regions>\n"@ =~= seq![' ', ' ', ' ', ' '] + open_tag(tag_of(66)) + seq!['\n']);
    assert("    </regions>\n"@ =~= seq![' ', ' ', ' ', ' '] + close_tag(tag_of(66)) + seq!['\n']);
    assert("</fff_viewer>\n"@ =~= close_tag(tag_of(0)) + seq!['\n']);
    assert("<curve_points>"@ =~= open_tag(tag_of(61)));
}

/// An opening line of the element at position `k` is clean for a search of
/// another name.
pub proof fn lemma_clean_open_line(sp: Seq<char>, k: int, tag: Seq<char>)
    requires
        no_lt(sp),
        0 <= k < tag_count(),
        is_word(tag),
        tag_code(tag) != k,
    ensures
        clean(sp + open_tag(tag_of(k)) + seq!['\n'], open_tag(tag)),
{
    lemma_tag_table(k);
    lemma_clean_no_lt(sp, open_tag(tag));
    lemma_clean_other_open(tag_of(k), tag);
    lemma_clean_no_lt(seq!['\n'], open_tag(tag));
    lemma_clean_concat(sp, open_tag(tag_of(k)), open_tag(tag));
    lemma_clean_concat(sp + open_tag(tag_of(k)), seq!['\n'], open_tag(tag));
}

/// A closing line is clean for a search of any name.
pub proof fn lemma_clean_close_line(sp: Seq<char>, k: int, tag: Seq<char>)
    requires
        no_lt(sp),
        0 <= k < tag_count(),
        is_word(tag),
    ensures
        clean(sp + close_tag(tag_of(k)) + seq!['\n'], open_tag(tag)),
{
    lemma_tag_table(k);
    lemma_clean_no_lt(sp, open_tag(tag));
    lemma_clean_close(tag_of(k), tag);
    lemma_clean_no_lt(seq!['\n'], open_tag(tag));
    lemma_clean_concat(sp, close_tag(tag_of(k)), open_tag(tag));
    lemma_clean_concat(sp + close_tag(tag_of(k)), seq!['\n'], open_tag(tag));
}

/// `<name` followed by a space and text without `<` is clean for a search
/// of any name.
pub proof fn lemma_clean_attr_open(name: Seq<char>, x: Seq<char>, tag: Seq<char>)
    requires
        is_word(name),
        is_word(tag),
        no_lt(x),
        x.len() > 0,
        x[0] == ' ',
    ensures
        clean(seq!['<'] + name + x, open_tag(tag)),
{
    let t = seq!['<'] + name + x;
    let n = open_tag(tag);
    assert forall|q: int| 0 <= q < t.len() && #[trigger] t[q] == '<' implies exists|i: int| differs_at(t, n, q, i) by {
        if q > 0 {
            if q <= name.len() {
                assert(t[q] == name[q - 1]);
            } else {
                assert(t[q] == x[q - 1 - name.len()]);
            }
            assert(false);
        }
        if name.len() < tag.len() {
            assert(t[name.len() + 1int] == ' ');
            assert(n[name.len() + 1int] == tag[name.len() as int]);
            assert(differs_at(t, n, 0, name.len() + 1int));
        } else if name.len() > tag.len() {
            assert(n[tag.len() + 1int] == '>');
            assert(t[tag.len() + 1int] == name[tag.len() as int]);
            assert(differs_at(t, n, 0, tag.len() + 1int));
        } else {
            assert(n[tag.len() + 1int] == '>');
            assert(t[tag.len() + 1int] == ' ');
            assert(differs_at(t, n, 0, tag.len() + 1int));
        }
    }
}

/// The text before the colour lines.
pub open spec fn head_text() -> Seq<char> {
    xml_declaration() + "<fff_viewer>\n"@ + "  <color>\n"@
}

pub proof fn lemma_head_clean(tag: Seq<char>)
    requires
        is_word(tag),
        tag_code(tag) != 0,
        tag_code(tag) != 1,
    ensures
        clean(head_text(), open_tag(tag)),
{
    lemma_structure_texts();
    lemma_header_clean(tag);
    lemma_clean_open_line(seq![], 0, tag);
    assert(Seq::<char>::empty() + open_tag(tag_of(0)) + seq!['\n'] =~= open_tag(tag_of(0)) + seq!['\n']);
    lemma_clean_open_line(seq![' ', ' '], 1, tag);
    lemma_clean_concat(xml_declaration(), "<fff_viewer>\n"@, open_tag(tag));
    lemma_clean_concat(xml_declaration() + "<fff_viewer>\n"@, "  <color>\n"@, open_tag(tag));
}

pub proof fn lemma_color_coded(c: SidecarConfig)
    ensures
        coded(color_entries(c), 2),
{
    let es = color_entries(c);
    assert forall|i: int| 0 <= i < es.len() implies ((#[trigger] es[i]).1 matches Some(t) ==> no_lt(t)) by {
        lemma_bool_read(c.use_embedded_correction);
        lemma_bool_read(c.use_embedded_icc);
        if let Some(k) = c.embedded_correction_index {
            lemma_parse_decimal(k as nat, k as int);
        }
        if let Some(n) = c.input_profile_name {
            lemma_escape_facts(n@);
        }
        if let Some(n) = c.preset_name {
            lemma_escape_facts(n@);
        }
        lemma_escape_facts(c.target_color_space@);
    }
}

pub proof fn lemma_split_coded(c: SidecarConfig)
    ensures
        coded(split_entries(c), 63),
{
    let es = split_entries(c);
    assert forall|i: int| 0 <= i < es.len() implies ((#[trigger] es[i]).1 matches Some(t) ==> no_lt(t)) by {
        lemma_bool_read(c.split_portrait);
        lemma_escape_facts(c.split_format@);
        lemma_escape_facts(c.split_naming_pattern@);
    }
}

pub proof fn lemma_adjust_coded(a: SidecarAdjustOverrides)
    requires
        adjust_round_trips(a),
    ensures
        coded(adjust_entries(a), 9),
{
    let es = adjust_entries(a);
    assert forall|i: int| 0 <= i < es.len() implies ((#[trigger] es[i]).1 matches Some(t) ==> no_lt(t)) by {
        lemma_adj_content(a, i);
    }
}

/// A curve's text holds no `<`.
pub proof fn lemma_points_no_lt(pts: Seq<(i64, i64, i64)>)
    ensures
        no_lt(points_text(pts)),
{
    let ps = pts.map_values(|p: (i64, i64, i64)| triple_text(p));
    assert(ps =~= pts.map_values(
        |p: (i64, i64, i64)|
            signed_decimal(p.0 as int) + seq![','] + signed_decimal(p.1 as int) + seq![','] + signed_decimal(p.2 as int),
    ));
    assert forall|i: int| 0 <= i < ps.len() implies lacks(#[trigger] ps[i], '<') by {
        lemma_triple_read(pts[i]);
    }
    lemma_join_lacks(ps, ';', '<');
}

/// The parts of a curve line: six spaces, `<curve` and its attribute and
/// points, and `</curve>` with a line break.
#[verifier::spinoff_prover]
#[verifier::rlimit(50)]
pub proof fn lemma_curve_line_parts(i: int, pts: Seq<(i64, i64, i64)>)
    requires
        0 <= i,
    ensures
        curve_line(i, pts) == seq![' ', ' ', ' ', ' ', ' ', ' '] + (seq!['<'] + "curve"@ + (seq![
            ' ',
            'c',
            'h',
            '=',
            '"',
        ] + decimal(i as nat) + seq!['"', '>'] + points_text(pts))) + close_tag("curve"@) + seq!['\n'],
        is_word("curve"@),
{
    reveal_strlit("      <curve ch=\"");
    reveal_strlit("\">");
    reveal_strlit("</curve>\n");
    reveal_strlit("curve");
    assert(curve_line(i, pts) =~= seq![' ', ' ', ' ', ' ', ' ', ' '] + (seq!['<'] + "curve"@ + (seq![
        ' ',
        'c',
        'h',
        '=',
        '"',
    ] + decimal(i as nat) + seq!['"', '>'] + points_text(pts))) + close_tag("curve"@) + seq!['\n']);
}

pub proof fn lemma_curve_line_clean(i: int, pts: Seq<(i64, i64, i64)>, tag: Seq<char>)
    requires
        0 <= i,
        is_word(tag),
    ensures
        clean(curve_line(i, pts), open_tag(tag)),
{
    lemma_curve_line_parts(i, pts);
    let n = open_tag(tag);
    let x = seq![' ', 'c', 'h', '=', '"'] + decimal(i as nat) + seq!['"', '>'] + points_text(pts);
    lemma_parse_decimal(i as nat, i);
    lemma_points_no_lt(pts);
    assert forall|k: int| 0 <= k < x.len() implies #[trigger] x[k] != '<' by {
        let d = decimal(i as nat);
        if 5 <= k < 5 + d.len() {
            assert(x[k] == d[k - 5]);
        } else if k >= 7 + d.len() {
            assert(x[k] == points_text(pts)[k - 7 - d.len()]);
        }
    }
    lemma_clean_attr_open("curve"@, x, tag);
    lemma_clean_no_lt(seq![' ', ' ', ' ', ' ', ' ', ' '], n);
    lemma_clean_close("curve"@, tag);
    lemma_clean_no_lt(seq!['\n'], n);
    let sp = seq![' ', ' ', ' ', ' ', ' ', ' '];
    lemma_clean_concat(sp, seq!['<'] + "curve"@ + x, n);
    lemma_clean_concat(sp + (seq!['<'] + "curve"@ + x), close_tag("curve"@), n);
    lemma_clean_concat(sp + (seq!['<'] + "curve"@ + x) + close_tag("curve"@), seq!['\n'], n);
}

pub proof fn lemma_curve_lines_clean(cs: Seq<Vec<(i64, i64, i64)>>, m: int, tag: Seq<char>)
    requires
        is_word(tag),
    ensures
        clean(crate::sidecar::curve_lines(cs, m), open_tag(tag)),
    decreases m,
{
    if m <= 0 {
        lemma_clean_no_lt(seq![], open_tag(tag));
    } else {
        lemma_curve_lines_clean(cs, m - 1, tag);
        lemma_curve_line_clean(m - 1, cs[m - 1]@, tag);
        lemma_clean_concat(crate::sidecar::curve_lines(cs, m - 1), curve_line(m - 1, cs[m - 1]@), open_tag(tag));
    }
}

pub proof fn lemma_curves_clean(o: Option<Vec<Vec<(i64, i64, i64)>>>, tag: Seq<char>)
    requires
        is_word(tag),
        tag_code(tag) != 61 || o is None,
    ensures
        clean(curves_text(o), open_tag(tag)),
{
    match o {
        Some(cs) => {
            lemma_structure_texts();
            let sp = seq![' ', ' ', ' ', ' '];
            lemma_clean_open_line(sp, 61, tag);
            lemma_clean_close_line(sp, 61, tag);
            lemma_curve_lines_clean(cs@, cs@.len() as int, tag);
            let l = crate::sidecar::curve_lines(cs@, cs@.len() as int);
            lemma_clean_concat("    <curve_points>\n"@, l, open_tag(tag));
            lemma_clean_concat("    <curve_points>\n"@ + l, "    </curve_points>\n"@, open_tag(tag));
        },
        None => {
            lemma_clean_no_lt(seq![], open_tag(tag));
        },
    }
}

/// The adjustment section is clean for a search of a name that it does
/// not write.
pub proof fn lemma_adjust_clean(c: SidecarConfig, tag: Seq<char>)
    requires
        adjust_round_trips(c.adjust),
        is_word(tag),
        tag_code(tag) != 8,
        tag_code(tag) != 61 || c.curve_points_override is None,
        not_written(adjust_entries(c.adjust), 9, tag_code(tag)),
    ensures
        clean(adjust_section(c), open_tag(tag)),
{
    if any_override(c.adjust) || c.curve_points_override is Some {
        lemma_structure_texts();
        let sp = seq![' ', ' '];
        lemma_clean_open_line(sp, 8, tag);
        lemma_clean_close_line(sp, 8, tag);
        lemma_adjust_coded(c.adjust);
        lemma_present_clean(adjust_entries(c.adjust), 9, tag);
        lemma_adjust_present(c.adjust);
        lemma_curves_clean(c.curve_points_override, tag);
        let l = lines4(adjust_fields(c.adjust));
        let cv = curves_text(c.curve_points_override);
        lemma_clean_concat("  <adjust>\n"@, l, open_tag(tag));
        lemma_clean_concat("  <adjust>\n"@ + l, cv, open_tag(tag));
        lemma_clean_concat("  <adjust>\n"@ + l + cv, "  </adjust>\n"@, open_tag(tag));
    } else {
        lemma_clean_no_lt(seq![], open_tag(tag));
    }
}

/// A region whose five texts are numbers.
pub open spec fn region_ok(r: SidecarRegion) -> bool {
    &&& is_float_literal(r.cx@)
    &&& is_float_literal(r.cy@)
    &&& is_float_literal(r.w@)
    &&& is_float_literal(r.h@)
    &&& is_float_literal(r.angle@)
}

/// What follows `<region` in a region line.
pub open spec fn region_rest(r: SidecarRegion) -> Seq<char> {
    seq![' ', 'c', 'x', '=', '"'] + r.cx@ + seq!['"', ' ', 'c', 'y', '=', '"'] + r.cy@ + seq!['"', ' ', 'w', '=', '"']
        + r.w@ + seq!['"', ' ', 'h', '=', '"'] + r.h@ + seq!['"', ' ', 'a', 'n', 'g', 'l', 'e', '=', '"'] + r.angle@
        + seq!['"', '/', '>', '\n']
}

#[verifier::spinoff_prover]
#[verifier::rlimit(50)]
pub proof fn lemma_region_line_parts(r: SidecarRegion)
    ensures
        region_line(r) == seq![' ', ' ', ' ', ' ', ' ', ' '] + (seq!['<'] + "region"@ + region_rest(r)),
        is_word("region"@),
        "region"@ == seq!['r', 'e', 'g', 'i', 'o', 'n'],
{
    reveal_strlit("      <region cx=\"");
    reveal_strlit("\" cy=\"");
    reveal_strlit("\" w=\"");
    reveal_strlit("\" h=\"");
    reveal_strlit("\" angle=\"");
    reveal_strlit("\"/>\n");
    reveal_strlit("region");
    assert(region_line(r) =~= seq![' ', ' ', ' ', ' ', ' ', ' '] + (seq!['<'] + "region"@ + region_rest(r)));
}

/// A region whose five texts hold no `<`.
pub open spec fn region_plain(r: SidecarRegion) -> bool {
    &&& no_lt(r.cx@)
    &&& no_lt(r.cy@)
    &&& no_lt(r.w@)
    &&& no_lt(r.h@)
    &&& no_lt(r.angle@)
}

pub proof fn lemma_region_ok_plain(r: SidecarRegion)
    requires
        region_ok(r),
    ensures
        region_plain(r),
{
    lemma_float_text(r.cx@);
    lemma_float_text(r.cy@);
    lemma_float_text(r.w@);
    lemma_float_text(r.h@);
    lemma_float_text(r.angle@);
}

pub proof fn lemma_regions_plain(rs: Seq<SidecarRegion>)
    requires
        forall|i: int| 0 <= i < rs.len() ==> region_ok(#[trigger] rs[i]),
    ensures
        forall|i: int| 0 <= i < rs.len() ==> region_plain(#[trigger] rs[i]),
{
    assert forall|i: int| 0 <= i < rs.len() implies region_plain(#[trigger] rs[i]) by {
        lemma_region_ok_plain(rs[i]);
    }
}

pub proof fn lemma_region_rest_no_lt(r: SidecarRegion)
    requires
        region_plain(r),
    ensures
        no_lt(region_rest(r)),
{
    let x = region_rest(r);
    assert forall|k: int| 0 <= k < x.len() implies #[trigger] x[k] != '<' by {
        let a = 5 + r.cx@.len();
        let b = a + 6 + r.cy@.len();
        let c = b + 5 + r.w@.len();
        let d = c + 5 + r.h@.len();
        let e = d + 9 + r.angle@.len();
        if 5 <= k < a {
            assert(x[k] == r.cx@[k - 5]);
        } else if a + 6 <= k < b {
            assert(x[k] == r.cy@[k - a - 6]);
        } else if b + 5 <= k < c {
            assert(x[k] == r.w@[k - b - 5]);
        } else if c + 5 <= k < d {
            assert(x[k] == r.h@[k - c - 5]);
        } else if d + 9 <= k < e {
            assert(x[k] == r.angle@[k - d - 9]);
        }
    }
}

pub proof fn lemma_region_lines_clean(rs: Seq<SidecarRegion>, m: int, tag: Seq<char>)
    requires
        is_word(tag),
        m <= rs.len(),
        forall|i: int| 0 <= i < rs.len() ==> region_plain(#[trigger] rs[i]),
    ensures
        clean(region_lines(rs, m), open_tag(tag)),
    decreases m,
{
    if m <= 0 {
        lemma_clean_no_lt(seq![], open_tag(tag));
    } else {
        lemma_region_lines_clean(rs, m - 1, tag);
        let r = rs[m - 1];
        lemma_region_line_parts(r);
        lemma_region_rest_no_lt(r);
        lemma_clean_attr_open("region"@, region_rest(r), tag);
        let sp = seq![' ', ' ', ' ', ' ', ' ', ' '];
        lemma_clean_no_lt(sp, open_tag(tag));
        lemma_clean_concat(sp, seq!['<'] + "region"@ + region_rest(r), open_tag(tag));
        lemma_clean_concat(region_lines(rs, m - 1), region_line(r), open_tag(tag));
    }
}

/// The split section and the closing root line are clean for a search of
/// a name that they do not write.
pub proof fn lemma_split_clean(c: SidecarConfig, tag: Seq<char>)
    requires
        is_word(tag),
        tag_code(tag) != 62,
        tag_code(tag) != 66,
        tag_code(tag) != 0,
        not_written(split_entries(c), 63, tag_code(tag)),
        forall|i: int| 0 <= i < c.split_regions@.len() ==> region_plain(#[trigger] c.split_regions@[i]),
    ensures
        clean(split_section(c) + "</fff_viewer>\n"@, open_tag(tag)),
{
    lemma_structure_texts();
    let n = open_tag(tag);
    lemma_clean_open_line(seq![' ', ' '], 62, tag);
    lemma_clean_close_line(seq![' ', ' '], 62, tag);
    lemma_clean_close_line(seq![], 0, tag);
    assert(Seq::<char>::empty() + close_tag(tag_of(0)) + seq!['\n'] =~= close_tag(tag_of(0)) + seq!['\n']);
    lemma_split_coded(c);
    lemma_present_clean(split_entries(c), 63, tag);
    lemma_split_present(c);
    let rs = c.split_regions@;
    if rs.len() > 0 {
        let sp = seq![' ', ' ', ' ', ' '];
        lemma_clean_open_line(sp, 66, tag);
        lemma_clean_close_line(sp, 66, tag);
        lemma_region_lines_clean(rs, rs.len() as int, tag);
        lemma_clean_concat("    <regions>\n"@, region_lines(rs, rs.len() as int), n);
        lemma_clean_concat("    <regions>\n"@ + region_lines(rs, rs.len() as int), "    </regions>\n"@, n);
    } else {
        lemma_clean_no_lt(seq![], n);
    }
    let l = lines4(split_fields(c));
    let g = regions_text(rs);
    lemma_clean_concat("  <split>\n"@, l, n);
    lemma_clean_concat("  <split>\n"@ + l, g, n);
    lemma_clean_concat("  <split>\n"@ + l + g, "  </split>\n"@, n);
    lemma_clean_concat(split_section(c), "</fff_viewer>\n"@, n);
}

/// The colour lines and the closing colour line are clean for a search of
/// a name that they do not write.
pub proof fn lemma_color_clean(c: SidecarConfig, tag: Seq<char>)
    requires
        is_word(tag),
        not_written(color_entries(c), 2, tag_code(tag)),
    ensures
        clean(lines4(color_fields(c)) + "  </color>\n"@, open_tag(tag)),
{
    lemma_structure_texts();
    lemma_color_coded(c);
    lemma_present_clean(color_entries(c), 2, tag);
    lemma_color_present(c);
    lemma_clean_close_line(seq![' ', ' '], 1, tag);
    lemma_clean_concat(lines4(color_fields(c)), "  </color>\n"@, open_tag(tag));
}

/// A written adjustment makes the adjustment section written.
pub proof fn lemma_adj_some(a: SidecarAdjustOverrides, i: int)
    requires
        adj_content(a, i) is Some,
    ensures
        any_override(a),
{
    if i == 0 {
        assert(a.film_type is Some);
    } else if i == 1 {
        assert(a.film_curve is Some);
    } else if i == 2 {
        assert(a.film_gamma is Some);
    } else if i == 3 {
        assert(a.apply_levels is Some);
    } else if i == 4 {
        assert(a.apply_curves is Some);
    } else if i == 5 {
        assert(a.apply_exposure is Some);
    } else if i == 6 {
        assert(a.apply_brightness is Some);
    } else if i == 7 {
        assert(a.apply_shadow_depth is Some);
    } else if i == 8 {
        assert(a.apply_midtone is Some);
    } else if i == 9 {
        assert(a.apply_contrast is Some);
    } else if i == 10 {
        assert(a.apply_highlights is Some);
    } else if i == 11 {
        assert(a.apply_shadows is Some);
    } else if i == 12 {
        assert(a.apply_saturation is Some);
    } else if i == 13 {
        assert(a.apply_color_balance is Some);
    } else if i == 14 {
        assert(a.apply_color_temp is Some);
    } else if i == 15 {
        assert(a.apply_color_corr is Some);
    } else if i == 16 {
        assert(a.apply_film_curve is Some);
    } else if i == 17 {
        assert(a.exposure is Some);
    } else if i == 18 {
        assert(a.brightness is Some);
    } else if i == 19 {
        assert(a.lightness is Some);
    } else if i == 20 {
        assert(a.midtone is Some);
    } else if i == 21 {
        assert(a.contrast is Some);
    } else if i == 22 {
        assert(a.highlights is Some);
    } else if i == 23 {
        assert(a.shadows is Some);
    } else if i == 24 {
        assert(a.saturation is Some);
    } else if i == 25 {
        assert(a.color_temperature is Some);
    } else if i == 26 {
        assert(a.tint is Some);
    } else if i == 27 {
        assert(a.r_shift is Some);
    } else if i == 28 {
        assert(a.g_shift is Some);
    } else if i == 29 {
        assert(a.b_shift is Some);
    } else if i == 30 {
        assert(a.levels_black is Some);
    } else if i == 31 {
        assert(a.levels_gamma is Some);
    } else if i == 32 {
        assert(a.levels_white is Some);
    } else if i == 33 {
        assert(a.output_shadow is Some);
    } else if i == 34 {
        assert(a.output_highlight is Some);
    } else if i == 35 {
        assert(a.color_corr is Some);
    } else if i == 36 {
        assert(a.apply_usm is Some);
    } else if i == 37 {
        assert(a.usm_amount is Some);
    } else if i == 38 {
        assert(a.usm_radius is Some);
    } else if i == 39 {
        assert(a.usm_dark_limit is Some);
    } else if i == 40 {
        assert(a.usm_noise_limit is Some);
    } else if i == 41 {
        assert(a.usm_col_factor is Some);
    } else if i == 42 {
        assert(a.apply_dust is Some);
    } else if i == 43 {
        assert(a.dust_level is Some);
    } else if i == 44 {
        assert(a.apply_cn_filter is Some);
    } else if i == 45 {
        assert(a.color_noise_radius is Some);
    } else if i == 46 {
        assert(a.noise_filter_bias is Some);
    } else if i == 47 {
        assert(a.lens_correction is Some);
    } else if i == 48 {
        assert(a.vignette_amount is Some);
    } else if i == 49 {
        assert(a.enhanced_shadow is Some);
    } else if i == 50 {
        assert(a.remove_cast_highlight is Some);
    } else if i == 51 {
        assert(a.remove_cast_shadow is Some);
    }
}

/// Settings that read back unchanged: names without surrounding
/// whitespace, adjustments that read back unchanged, seven curves with at
/// least one point each, and regions whose texts are numbers.
pub open spec fn sidecar_round_trips(c: SidecarConfig) -> bool {
    &&& (c.input_profile_name matches Some(n) ==> untrimmed(n@))
    &&& (c.preset_name matches Some(n) ==> untrimmed(n@))
    &&& untrimmed(c.target_color_space@)
    &&& untrimmed(c.split_format@)
    &&& untrimmed(c.split_naming_pattern@)
    &&& adjust_round_trips(c.adjust)
    &&& (c.curve_points_override matches Some(cs) ==> cs@.len() == 7 && forall|i: int|
        0 <= i < 7 ==> (#[trigger] cs@[i])@.len() >= 1)
    &&& forall|i: int| 0 <= i < c.split_regions@.len() ==> region_ok(#[trigger] c.split_regions@[i])
}

/// The whole document is clean for a search of a name at a position that
/// it does not write.
#[verifier::spinoff_prover]
#[verifier::rlimit(50)]
pub proof fn lemma_doc_clean(c: SidecarConfig, k: int)
    requires
        sidecar_round_trips(c),
        2 <= k < 61,
        k != 8,
        not_written(color_entries(c), 2, k),
        not_written(adjust_entries(c.adjust), 9, k),
    ensures
        clean(sidecar_xml(c), open_tag(tag_of(k))),
{
    let tag = tag_of(k);
    lemma_tag_table(k);
    lemma_head_clean(tag);
    lemma_color_clean(c, tag);
    lemma_adjust_clean(c, tag);
    lemma_regions_plain(c.split_regions@);
    lemma_split_clean(c, tag);
    let n = open_tag(tag);
    let lc = lines4(color_fields(c)) + "  </color>\n"@;
    lemma_clean_concat(head_text(), lc, n);
    lemma_clean_concat(head_text() + lc, adjust_section(c), n);
    lemma_clean_concat(head_text() + lc + adjust_section(c), split_section(c) + "</fff_viewer>\n"@, n);
    assert(sidecar_xml(c) =~= head_text() + lc + adjust_section(c) + (split_section(c) + "</fff_viewer>\n"@));
}

/// The text of colour element `k` is its written content, trimmed.
#[verifier::spinoff_prover]
#[verifier::rlimit(50)]
pub proof fn lemma_color_text(c: SidecarConfig, k: int)
    requires
        sidecar_round_trips(c),
        2 <= k < 8,
    ensures
        tag_text(sidecar_xml(c), tag_of(k)) == trimmed(color_content(c, k - 2)),
{
    let tag = tag_of(k);
    lemma_tag_table(k);
    match color_content(c, k - 2) {
        Some(t) => {
            lemma_head_clean(tag);
            lemma_color_coded(c);
            lemma_color_present(c);
            let post = "  </color>\n"@ + adjust_section(c) + split_section(c) + "</fff_viewer>\n"@;
            assert(sidecar_xml(c) =~= head_text() + lines4(color_fields(c)) + post);
            lemma_present_text(head_text(), color_entries(c), 2, post, k - 2, t);
        },
        None => {
            lemma_doc_clean(c, k);
            lemma_absent_text(sidecar_xml(c), tag);
        },
    }
}

/// The text of adjustment element `k` is its written content, trimmed.
#[verifier::spinoff_prover]
#[verifier::rlimit(50)]
pub proof fn lemma_adjust_text(c: SidecarConfig, k: int)
    requires
        sidecar_round_trips(c),
        9 <= k < 61,
    ensures
        tag_text(sidecar_xml(c), tag_of(k)) == trimmed(adj_content(c.adjust, k - 9)),
{
    let tag = tag_of(k);
    lemma_tag_table(k);
    match adj_content(c.adjust, k - 9) {
        Some(t) => {
            lemma_adj_some(c.adjust, k - 9);
            lemma_structure_texts();
            lemma_head_clean(tag);
            lemma_color_clean(c, tag);
            lemma_clean_open_line(seq![' ', ' '], 8, tag);
            let pre = head_text() + (lines4(color_fields(c)) + "  </color>\n"@) + "  <adjust>\n"@;
            lemma_clean_concat(head_text(), lines4(color_fields(c)) + "  </color>\n"@, open_tag(tag));
            lemma_clean_concat(head_text() + (lines4(color_fields(c)) + "  </color>\n"@), "  <adjust>\n"@, open_tag(tag));
            lemma_adjust_coded(c.adjust);
            lemma_adjust_present(c.adjust);
            let post = curves_text(c.curve_points_override) + "  </adjust>\n"@ + split_section(c) + "</fff_viewer>\n"@;
            assert(sidecar_xml(c) =~= pre + lines4(adjust_fields(c.adjust)) + post);
            lemma_present_text(pre, adjust_entries(c.adjust), 9, post, k - 9, t);
        },
        None => {
            lemma_doc_clean(c, k);
            lemma_absent_text(sidecar_xml(c), tag);
        },
    }
}

/// The text of split element `k` is its written content, trimmed.
#[verifier::spinoff_prover]
#[verifier::rlimit(50)]
pub proof fn lemma_split_text(c: SidecarConfig, k: int)
    requires
        sidecar_round_trips(c),
        63 <= k < 66,
    ensures
        tag_text(sidecar_xml(c), tag_of(k)) == trimmed(split_content(c, k - 63)),
{
    let tag = tag_of(k);
    lemma_tag_table(k);
    let t = split_content(c, k - 63).unwrap();
    lemma_structure_texts();
    lemma_head_clean(tag);
    lemma_color_clean(c, tag);
    lemma_adjust_clean(c, tag);
    lemma_clean_open_line(seq![' ', ' '], 62, tag);
    let lc = lines4(color_fields(c)) + "  </color>\n"@;
    let pre = head_text() + lc + adjust_section(c) + "  <split>\n"@;
    lemma_clean_concat(head_text(), lc, open_tag(tag));
    lemma_clean_concat(head_text() + lc, adjust_section(c), open_tag(tag));
    lemma_clean_concat(head_text() + lc + adjust_section(c), "  <split>\n"@, open_tag(tag));
    lemma_split_coded(c);
    lemma_split_present(c);
    let post = regions_text(c.split_regions@) + "  </split>\n"@ + "</fff_viewer>\n"@;
    assert(sidecar_xml(c) =~= pre + lines4(split_fields(c)) + post);
    lemma_present_text(pre, split_entries(c), 63, post, k - 63, t);
}

proof fn lemma_name_read(n: Seq<char>)
    requires
        untrimmed(n),
    ensures
        trim(escape(n)) == escape(n),
        unescape(escape(n)) == n,
{
    crate::config::lemma_escape_untrimmed(n);
    lemma_trim_noop(escape(n));
    crate::xml_text::lemma_unescape_escape(n);
}

/// The colour choices and split options read back from the document.
#[verifier::spinoff_prover]
#[verifier::rlimit(50)]
pub proof fn lemma_settings_read(c: SidecarConfig)
    requires
        sidecar_round_trips(c),
    ensures
        settings_read(c, sidecar_xml(c)),
{
    let doc = sidecar_xml(c);
    lemma_color_text(c, 2);
    lemma_color_text(c, 3);
    lemma_color_text(c, 4);
    lemma_color_text(c, 5);
    lemma_color_text(c, 6);
    lemma_color_text(c, 7);
    lemma_split_text(c, 63);
    lemma_split_text(c, 64);
    lemma_split_text(c, 65);
    lemma_bool_read(c.use_embedded_correction);
    lemma_bool_read(c.use_embedded_icc);
    lemma_bool_read(c.split_portrait);
    if let Some(i) = c.embedded_correction_index {
        lemma_parse_decimal(i as nat, usize::MAX as int);
        lemma_trim_noop(decimal(i as nat));
    }
    if let Some(n) = c.input_profile_name {
        lemma_name_read(n@);
    }
    if let Some(n) = c.preset_name {
        lemma_name_read(n@);
    }
    lemma_name_read(c.target_color_space@);
    lemma_name_read(c.split_format@);
    lemma_name_read(c.split_naming_pattern@);
    assert(tag_of(2) == "use_embedded_correction"@);
    assert(tag_of(3) == "use_embedded_icc"@);
    assert(tag_of(4) == "embedded_correction_index"@);
    assert(tag_of(5) == "input_profile"@);
    assert(tag_of(6) == "preset"@);
    assert(tag_of(7) == "target_color_space"@);
    assert(tag_of(63) == "format"@);
    assert(tag_of(64) == "portrait"@);
    assert(tag_of(65) == "naming_pattern"@);
}

/// The adjustments read back from the document.
pub proof fn lemma_adjust_read(c: SidecarConfig)
    requires
        sidecar_round_trips(c),
    ensures
        adjust_read(c.adjust, sidecar_xml(c)),
{
    assert forall|k: int| 9 <= k < 61 implies #[trigger] tag_text(sidecar_xml(c), tag_of(k)) == trimmed(
        adj_content(c.adjust, k - 9),
    ) by {
        lemma_adjust_text(c, k);
    }
    lemma_adjust_read_back(c.adjust, sidecar_xml(c));
}

/// The document holds its root element.
pub proof fn lemma_root_found(c: SidecarConfig)
    ensures
        first_at(sidecar_xml(c), "<fff_viewer>"@, 0) is Some,
{
    reveal_strlit("<fff_viewer>");
    reveal_strlit("<fff_viewer>\n");
    let doc = sidecar_xml(c);
    let d = xml_declaration();
    let mk = "<fff_viewer>"@;
    assert(doc =~= d + "<fff_viewer>\n"@ + ("  <color>\n"@ + lines4(color_fields(c)) + "  </color>\n"@
        + adjust_section(c) + split_section(c) + "</fff_viewer>\n"@));
    assert(doc.subrange(d.len() as int, (d.len() + mk.len()) as int) =~= mk);
    crate::xml_text::lemma_first_at_exists(doc, mk, 0, d.len() as int);
}

/// `n` starts with `<`, the word `w` and a space.
pub open spec fn attr_needle(n: Seq<char>, w: Seq<char>) -> bool {
    &&& is_word(w)
    &&& n.len() >= w.len() + 2
    &&& n[0] == '<'
    &&& forall|i: int| 0 <= i < w.len() ==> n[i + 1] == #[trigger] w[i]
    &&& n[w.len() + 1int] == ' '
}

pub proof fn lemma_open_clean_attr(name: Seq<char>, n: Seq<char>, w: Seq<char>)
    requires
        is_word(name),
        attr_needle(n, w),
    ensures
        clean(open_tag(name), n),
{
    let t = open_tag(name);
    assert forall|q: int| 0 <= q < t.len() && #[trigger] t[q] == '<' implies exists|i: int| differs_at(t, n, q, i) by {
        if q > 0 {
            if q <= name.len() {
                assert(t[q] == name[q - 1]);
            }
            assert(false);
        }
        if name.len() < w.len() {
            assert(t[name.len() + 1int] == '>');
            assert(n[name.len() + 1int] == w[name.len() as int]);
            assert(differs_at(t, n, 0, name.len() + 1int));
        } else if name.len() == w.len() {
            assert(t[name.len() + 1int] == '>');
            assert(differs_at(t, n, 0, name.len() + 1int));
        } else {
            assert(t[w.len() + 1int] == name[w.len() as int]);
            assert(differs_at(t, n, 0, w.len() + 1int));
        }
    }
}

pub proof fn lemma_close_clean_attr(name: Seq<char>, n: Seq<char>, w: Seq<char>)
    requires
        is_word(name),
        attr_needle(n, w),
    ensures
        clean(close_tag(name), n),
{
    let t = close_tag(name);
    assert forall|q: int| 0 <= q < t.len() && #[trigger] t[q] == '<' implies exists|i: int| differs_at(t, n, q, i) by {
        if q > 0 {
            if 2 <= q < name.len() + 2 {
                assert(t[q] == name[q - 2]);
            }
            assert(false);
        }
        assert(n[1] == w[0]);
        assert(differs_at(t, n, 0, 1));
    }
}

pub proof fn lemma_attr_open_clean_attr(name: Seq<char>, x: Seq<char>, n: Seq<char>, w: Seq<char>)
    requires
        is_word(name),
        attr_needle(n, w),
        name != w,
        no_lt(x),
        x.len() > 0,
        x[0] == ' ',
    ensures
        clean(seq!['<'] + name + x, n),
{
    let t = seq!['<'] + name + x;
    assert forall|q: int| 0 <= q < t.len() && #[trigger] t[q] == '<' implies exists|i: int| differs_at(t, n, q, i) by {
        if q > 0 {
            if q <= name.len() {
                assert(t[q] == name[q - 1]);
            } else {
                assert(t[q] == x[q - 1 - name.len()]);
            }
            assert(false);
        }
        if name.len() < w.len() {
            assert(t[name.len() + 1int] == ' ');
            assert(n[name.len() + 1int] == w[name.len() as int]);
            assert(differs_at(t, n, 0, name.len() + 1int));
        } else if name.len() > w.len() {
            assert(t[w.len() + 1int] == name[w.len() as int]);
            assert(differs_at(t, n, 0, w.len() + 1int));
        } else {
            assert(!(name =~= w));
            let k = choose|k: int| 0 <= k < name.len() && name[k] != w[k];
            assert(t[k + 1] == name[k] && n[k + 1] == w[k]);
            assert(differs_at(t, n, 0, k + 1));
        }
    }
}

pub proof fn lemma_line4_clean_attr(name: Seq<char>, content: Seq<char>, n: Seq<char>, w: Seq<char>)
    requires
        is_word(name),
        attr_needle(n, w),
        no_lt(content),
    ensures
        clean(line4(name, content), n),
{
    let sp = seq![' ', ' ', ' ', ' '];
    lemma_clean_no_lt(sp, n);
    lemma_open_clean_attr(name, n, w);
    lemma_clean_no_lt(content, n);
    lemma_close_clean_attr(name, n, w);
    lemma_clean_no_lt(seq!['\n'], n);
    lemma_clean_concat(sp, open_tag(name), n);
    lemma_clean_concat(sp + open_tag(name), content, n);
    lemma_clean_concat(sp + open_tag(name) + content, close_tag(name), n);
    lemma_clean_concat(sp + open_tag(name) + content + close_tag(name), seq!['\n'], n);
}

pub proof fn lemma_present_clean_attr(es: Seq<Entry>, base: int, n: Seq<char>, w: Seq<char>)
    requires
        coded(es, base),
        attr_needle(n, w),
    ensures
        clean(lines4(present(es)), n),
    decreases es.len(),
{
    if es.len() == 0 {
        lemma_clean_no_lt(seq![], n);
    } else {
        let front = es.drop_last();
        assert forall|i: int| 0 <= i < front.len() implies (#[trigger] front[i]).0 == tag_of(base + i) by {
            assert(front[i] == es[i]);
        }
        assert forall|i: int| 0 <= i < front.len() implies ((#[trigger] front[i]).1 matches Some(c) ==> no_lt(c)) by {
            assert(front[i] == es[i]);
        }
        lemma_present_clean_attr(front, base, n, w);
        let l = es.last();
        let k = es.len() - 1;
        assert(l == es[k]);
        lemma_lines4_opt(present(front), l.0, l.1);
        match l.1 {
            Some(c) => {
                lemma_tag_table(base + k);
                lemma_line4_clean_attr(l.0, c, n, w);
                lemma_clean_concat(lines4(present(front)), line4(l.0, c), n);
            },
            None => {
                assert(lines4(present(front)) + Seq::<char>::empty() =~= lines4(present(front)));
            },
        }
    }
}

pub proof fn lemma_struct_line_clean_attr(sp: Seq<char>, k: int, n: Seq<char>, w: Seq<char>)
    requires
        no_lt(sp),
        0 <= k < tag_count(),
        attr_needle(n, w),
    ensures
        clean(sp + open_tag(tag_of(k)) + seq!['\n'], n),
        clean(sp + close_tag(tag_of(k)) + seq!['\n'], n),
{
    lemma_tag_table(k);
    lemma_clean_no_lt(sp, n);
    lemma_clean_no_lt(seq!['\n'], n);
    lemma_open_clean_attr(tag_of(k), n, w);
    lemma_close_clean_attr(tag_of(k), n, w);
    lemma_clean_concat(sp, open_tag(tag_of(k)), n);
    lemma_clean_concat(sp + open_tag(tag_of(k)), seq!['\n'], n);
    lemma_clean_concat(sp, close_tag(tag_of(k)), n);
    lemma_clean_concat(sp + close_tag(tag_of(k)), seq!['\n'], n);
}

pub proof fn lemma_head_clean_attr(n: Seq<char>, w: Seq<char>)
    requires
        attr_needle(n, w),
    ensures
        clean(head_text(), n),
{
    reveal_strlit("<?xml version=\"1.0\" encoding=\"UTF-8\"?>\n");
    let hd = xml_declaration();
    assert forall|q: int| 0 <= q < hd.len() && #[trigger] hd[q] == '<' implies exists|i: int| differs_at(hd, n, q, i) by {
        assert(q == 0);
        assert(n[1] == w[0]);
        assert(differs_at(hd, n, 0, 1));
    }
    lemma_structure_texts();
    lemma_struct_line_clean_attr(seq![], 0, n, w);
    assert(Seq::<char>::empty() + open_tag(tag_of(0)) + seq!['\n'] =~= open_tag(tag_of(0)) + seq!['\n']);
    lemma_struct_line_clean_attr(seq![' ', ' '], 1, n, w);
    lemma_clean_concat(hd, "<fff_viewer>\n"@, n);
    lemma_clean_concat(hd + "<fff_viewer>\n"@, "  <color>\n"@, n);
}

/// `<curve ch="` starts with `<curve` and a space.
pub proof fn lemma_curve_needle()
    ensures
        attr_needle(crate::sidecar::curve_open(), "curve"@),
        attr_needle(crate::sidecar::region_open(), "region"@),
        is_word("curve"@),
        is_word("region"@),
        "curve"@ != "region"@,
{
    reveal_strlit("curve");
    reveal_strlit("region");
    assert("curve"@.len() != "region"@.len());
}

/// The lines of curves `m` to `n - 1`.
pub open spec fn curve_lines_from(cs: Seq<Vec<(i64, i64, i64)>>, m: int, n: int) -> Seq<char>
    decreases n - m,
{
    if n <= m {
        seq![]
    } else {
        curve_lines_from(cs, m, n - 1) + curve_line(n - 1, cs[n - 1]@)
    }
}

pub proof fn lemma_curve_lines_split(cs: Seq<Vec<(i64, i64, i64)>>, m: int, n: int)
    requires
        0 <= m <= n,
    ensures
        crate::sidecar::curve_lines(cs, n) == crate::sidecar::curve_lines(cs, m) + curve_lines_from(cs, m, n),
    decreases n - m,
{
    if n == m {
        assert(crate::sidecar::curve_lines(cs, m) + Seq::<char>::empty() =~= crate::sidecar::curve_lines(cs, m));
    } else {
        lemma_curve_lines_split(cs, m, n - 1);
        assert(crate::sidecar::curve_lines(cs, n) =~= crate::sidecar::curve_lines(cs, m) + curve_lines_from(cs, m, n));
    }
}

pub proof fn lemma_curve_lines_front(cs: Seq<Vec<(i64, i64, i64)>>, m: int, n: int)
    requires
        0 <= m < n,
    ensures
        curve_lines_from(cs, m, n) == curve_line(m, cs[m]@) + curve_lines_from(cs, m + 1, n),
    decreases n - m,
{
    if n == m + 1 {
        assert(curve_lines_from(cs, m, m) == Seq::<char>::empty());
        assert(curve_lines_from(cs, m + 1, n) == Seq::<char>::empty());
        assert(curve_lines_from(cs, m, n) =~= curve_line(m, cs[m]@) + curve_lines_from(cs, m + 1, n));
    } else {
        lemma_curve_lines_front(cs, m, n - 1);
        assert(curve_lines_from(cs, m, n) =~= curve_line(m, cs[m]@) + curve_lines_from(cs, m + 1, n));
    }
}

/// Reading curves from a position where no curve element starts is reading
/// from the next position.
pub proof fn lemma_scan_skip(doc: Seq<char>, pos: int, cs: Seq<Seq<(i64, i64, i64)>>)
    requires
        0 <= pos,
        !occurs_at(doc, crate::sidecar::curve_open(), pos),
    ensures
        scan_curves(doc, pos, cs) == scan_curves(doc, pos + 1, cs),
{
    assert(first_at(doc, crate::sidecar::curve_open(), pos) == first_at(doc, crate::sidecar::curve_open(), pos + 1));
}

/// Reading curves depends on where the next curve element starts only.
pub proof fn lemma_scan_same(doc: Seq<char>, p1: int, p2: int, cs: Seq<Seq<(i64, i64, i64)>>)
    requires
        first_at(doc, crate::sidecar::curve_open(), p1) == first_at(doc, crate::sidecar::curve_open(), p2),
    ensures
        scan_curves(doc, p1, cs) == scan_curves(doc, p2, cs),
{
}

/// A curve element: `<curve ch="m">points</curve>`.
pub open spec fn curve_elem(m: int, pts: Seq<(i64, i64, i64)>) -> Seq<char> {
    seq!['<', 'c', 'u', 'r', 'v', 'e', ' ', 'c', 'h', '=', '"'] + decimal(m as nat) + seq!['"', '>'] + points_text(pts)
        + seq!['<', '/', 'c', 'u', 'r', 'v', 'e', '>']
}

#[verifier::spinoff_prover]
#[verifier::rlimit(50)]
pub proof fn lemma_curve_line_elem(m: int, pts: Seq<(i64, i64, i64)>)
    requires
        0 <= m,
    ensures
        curve_line(m, pts) == seq![' ', ' ', ' ', ' ', ' ', ' '] + curve_elem(m, pts) + seq!['\n'],
{
    lemma_curve_line_parts(m, pts);
    reveal_strlit("curve");
    assert(curve_line(m, pts) =~= seq![' ', ' ', ' ', ' ', ' ', ' '] + curve_elem(m, pts) + seq!['\n']);
}

/// A curve element of a channel below 7 with points can be read, and sets
/// that channel's curve.
pub proof fn lemma_curve_elem_read(m: int, pts: Seq<(i64, i64, i64)>, cv: Seq<Seq<(i64, i64, i64)>>)
    requires
        0 <= m < 7,
        pts.len() >= 1,
    ensures
        !curve_unreadable(curve_elem(m, pts)),
        curve_step(curve_elem(m, pts), cv) == cv.update(m, pts),
{
    let t = curve_elem(m, pts);
    let d = decimal(m as nat);
    let p = points_text(pts);
    lemma_parse_decimal(m as nat, usize::MAX as int);
    crate::config::lemma_decimal_facts(m as nat);
    lemma_read_points(pts);
    let needle = seq!['c', 'h'] + seq!['=', '"'];
    assert(needle =~= seq!['c', 'h', '=', '"']);
    assert(t.subrange(7, 11) =~= needle);
    assert(occurs_at(t, needle, 7));
    assert forall|q: int| 0 <= q < 7 implies !occurs_at(t, needle, q) by {
        if occurs_at(t, needle, q) {
            assert(t.subrange(q, q + 4)[0] == t[q]);
            assert(t.subrange(q, q + 4)[1] == t[q + 1]);
        }
    }
    crate::xml_text::lemma_first_at_scan(t, needle, 0, 7);
    assert(first_at(t, needle, 7) == Some(7int));
    let rest = t.skip(11);
    assert(rest =~= d + seq!['"', '>'] + p + seq!['<', '/', 'c', 'u', 'r', 'v', 'e', '>']);
    assert forall|j: int| 0 <= j < d.len() implies rest[j] != '"' by {
        assert(rest[j] == d[j]);
        assert(is_digit(d[j]));
    }
    crate::text::lemma_index_of(rest, '"', d.len() as int);
    assert(rest.take(d.len() as int) =~= d);
    assert(crate::sidecar::attr_text(t, seq!['c', 'h']) == Some(d));
    assert(crate::sidecar::curve_channel(t) == Some(m));
    assert forall|j: int| 0 <= j < 12 + d.len() implies t[j] != '>' by {
        if 11 <= j < 11 + d.len() {
            assert(t[j] == d[j - 11]);
            assert(is_digit(d[j - 11]));
        }
    }
    crate::text::lemma_index_of(t, '>', (12 + d.len()) as int);
    assert(crate::sidecar::body_start(t) == 13 + d.len());
    assert(t.subrange((13 + d.len()) as int, t.len() - 8) =~= p);
}

proof fn lemma_curve_open_at(doc: Seq<char>, pre: Seq<char>, m: int, pts: Seq<(i64, i64, i64)>, post: Seq<char>)
    requires
        doc == pre + (seq![' ', ' ', ' ', ' ', ' ', ' '] + curve_elem(m, pts) + seq!['\n']) + post,
        0 <= m,
    ensures
        first_at(doc, crate::sidecar::curve_open(), pre.len() as int) == Some(pre.len() + 6int),
{
    let co = crate::sidecar::curve_open();
    let sp = seq![' ', ' ', ' ', ' ', ' ', ' '];
    let t = curve_elem(m, pts);
    let r = t + seq!['\n'] + post;
    assert(doc =~= pre + (sp + r));
    crate::xml_text::lemma_first_at_offset(pre, sp + r, co, 0);
    lemma_clean_no_lt(sp, co);
    lemma_first_at_clean(sp, r, co);
    assert(r.subrange(0, 11) =~= co);
    assert(first_at(r, co, 0) == Some(0int));
}

#[verifier::spinoff_prover]
#[verifier::rlimit(50)]
proof fn lemma_curve_close_at(doc: Seq<char>, pre: Seq<char>, m: int, pts: Seq<(i64, i64, i64)>, post: Seq<char>)
    requires
        doc == pre + (seq![' ', ' ', ' ', ' ', ' ', ' '] + curve_elem(m, pts) + seq!['\n']) + post,
        0 <= m,
    ensures
        first_at(doc, crate::sidecar::curve_close(), pre.len() + 6int) == Some(
            pre.len() + 6int + curve_elem(m, pts).len() - 8,
        ),
        doc.subrange(pre.len() + 6int, pre.len() + 6int + curve_elem(m, pts).len()) == curve_elem(m, pts),
        doc[pre.len() + 6int + curve_elem(m, pts).len()] == '\n',
{
    let cc = crate::sidecar::curve_close();
    let t = curve_elem(m, pts);
    let sp = seq![' ', ' ', ' ', ' ', ' ', ' '];
    let st = pre.len() + 6int;
    let d = decimal(m as nat);
    let p = points_text(pts);
    crate::config::lemma_decimal_facts(m as nat);
    lemma_points_no_lt(pts);
    let e = st + t.len() - 8;
    assert(doc =~= pre + sp + t + (seq!['\n'] + post));
    assert forall|q: int| st <= q < e implies !occurs_at(doc, cc, q) by {
        assert(doc[q] == t[q - st]);
        if occurs_at(doc, cc, q) {
            assert(doc.subrange(q, q + 8)[0] == doc[q]);
            assert(doc.subrange(q, q + 8)[1] == doc[q + 1]);
            let j = q - st;
            if j == 0 {
                assert(doc[q + 1] == t[1]);
            } else if 11 <= j < 11 + d.len() {
                assert(t[j] == d[j - 11]);
                assert(is_digit(d[j - 11]));
            } else if 13 + d.len() <= j < 13 + d.len() + p.len() {
                assert(t[j] == p[j - 13 - d.len()]);
            }
        }
    }
    assert(doc.subrange(e, e + 8) =~= cc);
    crate::xml_text::lemma_first_at_scan(doc, cc, st, e);
    assert(first_at(doc, cc, e) == Some(e));
    assert(doc.subrange(st, e + 8) =~= t);
}

/// Reading a curve line from its start sets its channel and goes on after it.
pub proof fn lemma_scan_step(
    doc: Seq<char>,
    pre: Seq<char>,
    m: int,
    pts: Seq<(i64, i64, i64)>,
    post: Seq<char>,
    cv: Seq<Seq<(i64, i64, i64)>>,
)
    requires
        doc == pre + curve_line(m, pts) + post,
        0 <= m < 7,
        pts.len() >= 1,
    ensures
        scan_curves(doc, pre.len() as int, cv) == scan_curves(
            doc,
            (pre.len() + curve_line(m, pts).len()) as int,
            cv.update(m, pts),
        ),
{
    let co = crate::sidecar::curve_open();
    let t = curve_elem(m, pts);
    lemma_curve_line_elem(m, pts);
    lemma_curve_elem_read(m, pts, cv);
    lemma_curve_open_at(doc, pre, m, pts, post);
    lemma_curve_close_at(doc, pre, m, pts, post);
    let pos = pre.len() + 6int + t.len();
    assert(!occurs_at(doc, co, pos)) by {
        if occurs_at(doc, co, pos) {
            assert(doc.subrange(pos, pos + 11)[0] == doc[pos]);
        }
    }
    lemma_scan_skip(doc, pos, cv.update(m, pts));
}
/// The curves with the first `m` read: those, then identity curves.
pub open spec fn partial_curves(cs: Seq<Vec<(i64, i64, i64)>>, m: int) -> Seq<Seq<(i64, i64, i64)>> {
    Seq::new(7, |i: int| if i < m { cs[i]@ } else { crate::sidecar::identity_points() })
}

pub proof fn lemma_scan_lines(
    doc: Seq<char>,
    x: Seq<char>,
    cs: Seq<Vec<(i64, i64, i64)>>,
    m: int,
    y: Seq<char>,
)
    requires
        doc == x + crate::sidecar::curve_lines(cs, 7) + y,
        cs.len() == 7,
        forall|i: int| 0 <= i < 7 ==> (#[trigger] cs[i])@.len() >= 1,
        clean(y, crate::sidecar::curve_open()),
        0 <= m <= 7,
    ensures
        scan_curves(doc, (x + crate::sidecar::curve_lines(cs, m)).len() as int, partial_curves(cs, m)) == Some(
            cs.map_values(|v: Vec<(i64, i64, i64)>| v@),
        ),
    decreases 7 - m,
{
    let co = crate::sidecar::curve_open();
    if m == 7 {
        let head = x + crate::sidecar::curve_lines(cs, 7);
        crate::xml_text::lemma_first_at_offset(head, y, co, 0);
        lemma_first_at_clean(y, seq![], co);
        assert(y + Seq::<char>::empty() =~= y);
        assert(first_at(doc, co, head.len() as int) is None);
        assert(partial_curves(cs, 7) =~= cs.map_values(|v: Vec<(i64, i64, i64)>| v@));
    } else {
        lemma_curve_lines_split(cs, m, 7);
        lemma_curve_lines_front(cs, m, 7);
        let pre = x + crate::sidecar::curve_lines(cs, m);
        let post = curve_lines_from(cs, m + 1, 7) + y;
        assert(doc =~= pre + curve_line(m, cs[m]@) + post);
        lemma_scan_step(doc, pre, m, cs[m]@, post, partial_curves(cs, m));
        assert(partial_curves(cs, m).update(m, cs[m]@) =~= partial_curves(cs, m + 1));
        assert(crate::sidecar::curve_lines(cs, m + 1) == crate::sidecar::curve_lines(cs, m) + curve_line(m, cs[m]@));
        assert(x + crate::sidecar::curve_lines(cs, m + 1) =~= pre + curve_line(m, cs[m]@));
        lemma_scan_lines(doc, x, cs, m + 1, y);
    }
}

/// The regions text is clean for a search of an element with attributes
/// other than a region.
pub proof fn lemma_regions_clean_attr(rs: Seq<SidecarRegion>, n: Seq<char>, w: Seq<char>)
    requires
        attr_needle(n, w),
        w != "region"@,
        forall|i: int| 0 <= i < rs.len() ==> region_ok(#[trigger] rs[i]),
    ensures
        clean(regions_text(rs), n),
{
    if rs.len() > 0 {
        lemma_structure_texts();
        let sp = seq![' ', ' ', ' ', ' '];
        lemma_struct_line_clean_attr(sp, 66, n, w);
        lemma_region_lines_clean_attr(rs, rs.len() as int, n, w);
        lemma_clean_concat("    <regions>\n"@, region_lines(rs, rs.len() as int), n);
        lemma_clean_concat("    <regions>\n"@ + region_lines(rs, rs.len() as int), "    </regions>\n"@, n);
    } else {
        lemma_clean_no_lt(seq![], n);
    }
}

pub proof fn lemma_region_lines_clean_attr(rs: Seq<SidecarRegion>, m: int, n: Seq<char>, w: Seq<char>)
    requires
        attr_needle(n, w),
        w != "region"@,
        m <= rs.len(),
        forall|i: int| 0 <= i < rs.len() ==> region_ok(#[trigger] rs[i]),
    ensures
        clean(region_lines(rs, m), n),
    decreases m,
{
    if m <= 0 {
        lemma_clean_no_lt(seq![], n);
    } else {
        lemma_region_lines_clean_attr(rs, m - 1, n, w);
        let r = rs[m - 1];
        lemma_region_line_parts(r);
        lemma_region_ok_plain(r);
        lemma_region_rest_no_lt(r);
        lemma_attr_open_clean_attr("region"@, region_rest(r), n, w);
        let sp = seq![' ', ' ', ' ', ' ', ' ', ' '];
        lemma_clean_no_lt(sp, n);
        lemma_clean_concat(sp, seq!['<'] + "region"@ + region_rest(r), n);
        lemma_clean_concat(region_lines(rs, m - 1), region_line(r), n);
    }
}

/// The text after the curve lines is clean for a search of a curve element.
#[verifier::spinoff_prover]
#[verifier::rlimit(50)]
pub proof fn lemma_after_curves_clean(c: SidecarConfig)
    requires
        sidecar_round_trips(c),
    ensures
        clean(
            "    </curve_points>\n"@ + "  </adjust>\n"@ + split_section(c) + "</fff_viewer>\n"@,
            crate::sidecar::curve_open(),
        ),
{
    let n = crate::sidecar::curve_open();
    let w = "curve"@;
    lemma_curve_needle();
    lemma_structure_texts();
    lemma_struct_line_clean_attr(seq![' ', ' ', ' ', ' '], 61, n, w);
    lemma_struct_line_clean_attr(seq![' ', ' '], 8, n, w);
    lemma_struct_line_clean_attr(seq![' ', ' '], 62, n, w);
    lemma_struct_line_clean_attr(seq![], 0, n, w);
    assert(Seq::<char>::empty() + close_tag(tag_of(0)) + seq!['\n'] =~= close_tag(tag_of(0)) + seq!['\n']);
    lemma_split_coded(c);
    lemma_split_present(c);
    lemma_present_clean_attr(split_entries(c), 63, n, w);
    lemma_regions_clean_attr(c.split_regions@, n, w);
    let l = lines4(split_fields(c));
    let g = regions_text(c.split_regions@);
    lemma_clean_concat("  <split>\n"@, l, n);
    lemma_clean_concat("  <split>\n"@ + l, g, n);
    lemma_clean_concat("  <split>\n"@ + l + g, "  </split>\n"@, n);
    lemma_clean_concat("    </curve_points>\n"@, "  </adjust>\n"@, n);
    lemma_clean_concat("    </curve_points>\n"@ + "  </adjust>\n"@, split_section(c), n);
    lemma_clean_concat("    </curve_points>\n"@ + "  </adjust>\n"@ + split_section(c), "</fff_viewer>\n"@, n);
}

/// The text before the curve lines is clean for a search of a curve element.
#[verifier::spinoff_prover]
#[verifier::rlimit(50)]
pub proof fn lemma_before_curves_clean(c: SidecarConfig)
    requires
        sidecar_round_trips(c),
    ensures
        clean(
            head_text() + lines4(color_fields(c)) + "  </color>\n"@ + "  <adjust>\n"@ + lines4(adjust_fields(c.adjust))
                + "    <curve_points>\n"@,
            crate::sidecar::curve_open(),
        ),
{
    let n = crate::sidecar::curve_open();
    let w = "curve"@;
    lemma_curve_needle();
    lemma_structure_texts();
    lemma_head_clean_attr(n, w);
    lemma_color_coded(c);
    lemma_color_present(c);
    lemma_present_clean_attr(color_entries(c), 2, n, w);
    lemma_struct_line_clean_attr(seq![' ', ' '], 1, n, w);
    lemma_struct_line_clean_attr(seq![' ', ' '], 8, n, w);
    lemma_adjust_coded(c.adjust);
    lemma_adjust_present(c.adjust);
    lemma_present_clean_attr(adjust_entries(c.adjust), 9, n, w);
    lemma_struct_line_clean_attr(seq![' ', ' ', ' ', ' '], 61, n, w);
    let p1 = head_text() + lines4(color_fields(c));
    lemma_clean_concat(head_text(), lines4(color_fields(c)), n);
    lemma_clean_concat(p1, "  </color>\n"@, n);
    lemma_clean_concat(p1 + "  </color>\n"@, "  <adjust>\n"@, n);
    lemma_clean_concat(p1 + "  </color>\n"@ + "  <adjust>\n"@, lines4(adjust_fields(c.adjust)), n);
    lemma_clean_concat(
        p1 + "  </color>\n"@ + "  <adjust>\n"@ + lines4(adjust_fields(c.adjust)),
        "    <curve_points>\n"@,
        n,
    );
}

/// The curves read back from the document.
#[verifier::spinoff_prover]
#[verifier::rlimit(50)]
pub proof fn lemma_curves_read(c: SidecarConfig)
    requires
        sidecar_round_trips(c),
    ensures
        crate::sidecar::read_curves(sidecar_xml(c)) == crate::sidecar::curves_view(c.curve_points_override),
        crate::sidecar::curves_readable(sidecar_xml(c)),
{
    let doc = sidecar_xml(c);
    lemma_structure_texts();
    match c.curve_points_override {
        Some(cs) => {
            let co = crate::sidecar::curve_open();
            let x = head_text() + lines4(color_fields(c)) + "  </color>\n"@ + "  <adjust>\n"@ + lines4(
                adjust_fields(c.adjust),
            ) + "    <curve_points>\n"@;
            let y = "    </curve_points>\n"@ + "  </adjust>\n"@ + split_section(c) + "</fff_viewer>\n"@;
            let cl = crate::sidecar::curve_lines(cs@, 7);
            assert(doc =~= x + cl + y);
            lemma_before_curves_clean(c);
            lemma_after_curves_clean(c);
            lemma_scan_lines(doc, x, cs@, 0, y);
            assert(crate::sidecar::curve_lines(cs@, 0) == Seq::<char>::empty());
            assert(x + crate::sidecar::curve_lines(cs@, 0) =~= x);
            assert(partial_curves(cs@, 0) =~= crate::sidecar::default_curves());
            lemma_first_at_clean(x, cl + y, co);
            crate::xml_text::lemma_first_at_offset(x, cl + y, co, 0);
            assert(doc =~= x + (cl + y));
            lemma_scan_same(doc, 0, x.len() as int, crate::sidecar::default_curves());
            let mk = "<curve_points>"@;
            let xp = head_text() + lines4(color_fields(c)) + "  </color>\n"@ + "  <adjust>\n"@ + lines4(
                adjust_fields(c.adjust),
            ) + seq![' ', ' ', ' ', ' '];
            assert(x =~= xp + open_tag(tag_of(61)) + seq!['\n']);
            assert(doc.subrange(xp.len() as int, (xp.len() + mk.len()) as int) =~= mk);
            crate::xml_text::lemma_first_at_exists(doc, mk, 0, xp.len() as int);
        },
        None => {
            let tag = tag_of(61);
            lemma_tag_table(61);
            lemma_head_clean(tag);
            lemma_color_clean(c, tag);
            lemma_adjust_clean(c, tag);
            lemma_regions_plain(c.split_regions@);
            lemma_split_clean(c, tag);
            let n = open_tag(tag);
            let lc = lines4(color_fields(c)) + "  </color>\n"@;
            lemma_clean_concat(head_text(), lc, n);
            lemma_clean_concat(head_text() + lc, adjust_section(c), n);
            lemma_clean_concat(head_text() + lc + adjust_section(c), split_section(c) + "</fff_viewer>\n"@, n);
            assert(doc =~= head_text() + lc + adjust_section(c) + (split_section(c) + "</fff_viewer>\n"@));
            lemma_first_at_clean(doc, seq![], n);
            assert(doc + Seq::<char>::empty() =~= doc);
        },
    }
}

/// A region element: `<region cx="…" cy="…" w="…" h="…" angle="…"/>`.
pub open spec fn region_elem(r: SidecarRegion) -> Seq<char> {
    seq!['<', 'r', 'e', 'g', 'i', 'o', 'n', ' ', 'c', 'x', '=', '"'] + r.cx@ + seq!['"', ' ', 'c', 'y', '=', '"']
        + r.cy@ + seq!['"', ' ', 'w', '=', '"'] + r.w@ + seq!['"', ' ', 'h', '=', '"'] + r.h@ + seq![
        '"',
        ' ',
        'a',
        'n',
        'g',
        'l',
        'e',
        '=',
        '"',
    ] + r.angle@ + seq!['"', '/', '>']
}

#[verifier::spinoff_prover]
#[verifier::rlimit(50)]
pub proof fn lemma_region_line_elem(r: SidecarRegion)
    ensures
        region_line(r) == seq![' ', ' ', ' ', ' ', ' ', ' '] + region_elem(r) + seq!['\n'],
{
    lemma_region_line_parts(r);
    assert(region_line(r) =~= seq![' ', ' ', ' ', ' ', ' ', ' '] + region_elem(r) + seq!['\n']);
}

/// Attribute `name` whose first `name="` is at `p` has the text up to the
/// next `"`.
proof fn lemma_attr_found(tag: Seq<char>, name: Seq<char>, p: int, t: Seq<char>)
    requires
        0 <= p,
        occurs_at(tag, name + seq!['=', '"'], p),
        forall|q: int| 0 <= q < p ==> !occurs_at(tag, name + seq!['=', '"'], q),
        p + name.len() + 2 + t.len() < tag.len(),
        tag.subrange(p + name.len() + 2, p + name.len() + 2 + t.len()) == t,
        tag[p + name.len() + 2 + t.len()] == '"',
        lacks(t, '"'),
    ensures
        crate::sidecar::attr_text(tag, name) == Some(t),
{
    let n = name + seq!['=', '"'];
    crate::xml_text::lemma_first_at_scan(tag, n, 0, p);
    assert(first_at(tag, n, p) == Some(p));
    let rest = tag.skip(p + name.len() + 2);
    assert forall|j: int| 0 <= j < t.len() implies rest[j] != '"' by {
        assert(rest[j] == t[j]);
    }
    assert(rest[t.len() as int] == '"');
    crate::text::lemma_index_of(rest, '"', t.len() as int);
    assert(rest.take(t.len() as int) =~= t);
}

/// A needle cannot start inside a number text that a `"` follows, when its
/// first character, or its third together with its second, cannot be there.
proof fn lemma_no_occ_in_number(tag: Seq<char>, s: int, t: Seq<char>, n: Seq<char>, q: int)
    requires
        0 <= s,
        s + t.len() < tag.len(),
        tag.subrange(s, s + t.len()) == t,
        tag[s + t.len()] == '"',
        forall|k: int| 0 <= k < t.len() ==> number_char(#[trigger] t[k]),
        s <= q < s + t.len(),
        n.len() >= 3,
        !number_char(n[0]) || (!number_char(n[2]) && n[1] != '"' && n[2] != '"'),
    ensures
        !occurs_at(tag, n, q),
{
    if occurs_at(tag, n, q) {
        assert(tag.subrange(q, q + n.len())[0] == tag[q]);
        assert(tag.subrange(q, q + n.len())[1] == tag[q + 1]);
        assert(tag.subrange(q, q + n.len())[2] == tag[q + 2]);
        assert(tag[q] == t[q - s]);
        if q + 2 < s + t.len() {
            assert(tag[q + 2] == t[q + 2 - s]);
        } else if q + 1 < s + t.len() {
            assert(tag[q + 1] == t[q + 1 - s]);
        }
    }
}

proof fn lemma_first_char_differs(tag: Seq<char>, n: Seq<char>, q: int)
    requires
        n.len() >= 1,
        0 <= q < tag.len(),
        tag[q] != n[0],
    ensures
        !occurs_at(tag, n, q),
{
    if occurs_at(tag, n, q) {
        assert(tag.subrange(q, q + n.len())[0] == tag[q]);
    }
}

/// The parts of a region element and where they stand.
proof fn lemma_region_elem_parts(r: SidecarRegion)
    ensures
        ({
            let e = region_elem(r);
            let a = r.cx@.len() as int;
            let b = r.cy@.len() as int;
            let c = r.w@.len() as int;
            let d = r.h@.len() as int;
            let g = r.angle@.len() as int;
            &&& e.len() == 40 + a + b + c + d + g
            &&& e.subrange(0, 12) == seq!['<', 'r', 'e', 'g', 'i', 'o', 'n', ' ', 'c', 'x', '=', '"']
            &&& e.subrange(12, 12 + a) == r.cx@
            &&& e.subrange(12 + a, 18 + a) == seq!['"', ' ', 'c', 'y', '=', '"']
            &&& e.subrange(18 + a, 18 + a + b) == r.cy@
            &&& e.subrange(18 + a + b, 23 + a + b) == seq!['"', ' ', 'w', '=', '"']
            &&& e.subrange(23 + a + b, 23 + a + b + c) == r.w@
            &&& e.subrange(23 + a + b + c, 28 + a + b + c) == seq!['"', ' ', 'h', '=', '"']
            &&& e.subrange(28 + a + b + c, 28 + a + b + c + d) == r.h@
            &&& e.subrange(28 + a + b + c + d, 37 + a + b + c + d) == seq![
                '"',
                ' ',
                'a',
                'n',
                'g',
                'l',
                'e',
                '=',
                '"',
            ]
            &&& e.subrange(37 + a + b + c + d, 37 + a + b + c + d + g) == r.angle@
            &&& e.subrange(37 + a + b + c + d + g, 40 + a + b + c + d + g) == seq!['"', '/', '>']
        }),
{
    let e = region_elem(r);
    let a = r.cx@.len() as int;
    let b = r.cy@.len() as int;
    let c = r.w@.len() as int;
    let d = r.h@.len() as int;
    let g = r.angle@.len() as int;
    assert(e.subrange(0, 12) =~= seq!['<', 'r', 'e', 'g', 'i', 'o', 'n', ' ', 'c', 'x', '=', '"']);
    assert(e.subrange(12, 12 + a) =~= r.cx@);
    assert(e.subrange(12 + a, 18 + a) =~= seq!['"', ' ', 'c', 'y', '=', '"']);
    assert(e.subrange(18 + a, 18 + a + b) =~= r.cy@);
    assert(e.subrange(18 + a + b, 23 + a + b) =~= seq!['"', ' ', 'w', '=', '"']);
    assert(e.subrange(23 + a + b, 23 + a + b + c) =~= r.w@);
    assert(e.subrange(23 + a + b + c, 28 + a + b + c) =~= seq!['"', ' ', 'h', '=', '"']);
    assert(e.subrange(28 + a + b + c, 28 + a + b + c + d) =~= r.h@);
    assert(e.subrange(28 + a + b + c + d, 37 + a + b + c + d) =~= seq!['"', ' ', 'a', 'n', 'g', 'l', 'e', '=', '"']);
    assert(e.subrange(37 + a + b + c + d, 37 + a + b + c + d + g) =~= r.angle@);
    assert(e.subrange(37 + a + b + c + d + g, 40 + a + b + c + d + g) =~= seq!['"', '/', '>']);
}

#[verifier::spinoff_prover]
#[verifier::rlimit(60)]
proof fn lemma_region_attr_cx(r: SidecarRegion)
    requires
        region_ok(r),
    ensures
        crate::sidecar::attr_text(region_elem(r), seq!['c', 'x']) == Some(r.cx@),
{
    let e = region_elem(r);
    let a = r.cx@.len() as int;
    let b = r.cy@.len() as int;
    let c = r.w@.len() as int;
    let d = r.h@.len() as int;
    let g = r.angle@.len() as int;
    lemma_region_elem_parts(r);
    lemma_float_chars(r.cx@);
    lemma_float_chars(r.cy@);
    lemma_float_chars(r.w@);
    lemma_float_chars(r.h@);
    lemma_float_chars(r.angle@);
    lemma_float_text(r.cx@);
    lemma_float_text(r.cy@);
    lemma_float_text(r.w@);
    lemma_float_text(r.h@);
    lemma_float_text(r.angle@);
    let ncx = seq!['c', 'x'] + seq!['=', '"'];
    assert(ncx =~= seq!['c', 'x', '=', '"']);
    assert(e.subrange(8, 12) =~= ncx);
    assert forall|q: int| 0 <= q < 8 implies !occurs_at(e, ncx, q) by {
        assert(e[q] == e.subrange(0, 12)[q]);
        lemma_first_char_differs(e, ncx, q);
    }
    assert(e[12 + a] == e.subrange(12 + a, 18 + a)[0]);
    lemma_attr_found(e, seq!['c', 'x'], 8, r.cx@);
}

#[verifier::spinoff_prover]
#[verifier::rlimit(60)]
proof fn lemma_region_attr_cy(r: SidecarRegion)
    requires
        region_ok(r),
    ensures
        crate::sidecar::attr_text(region_elem(r), seq!['c', 'y']) == Some(r.cy@),
{
    let e = region_elem(r);
    let a = r.cx@.len() as int;
    let b = r.cy@.len() as int;
    let c = r.w@.len() as int;
    let d = r.h@.len() as int;
    let g = r.angle@.len() as int;
    lemma_region_elem_parts(r);
    lemma_float_chars(r.cx@);
    lemma_float_chars(r.cy@);
    lemma_float_chars(r.w@);
    lemma_float_chars(r.h@);
    lemma_float_chars(r.angle@);
    lemma_float_text(r.cx@);
    lemma_float_text(r.cy@);
    lemma_float_text(r.w@);
    lemma_float_text(r.h@);
    lemma_float_text(r.angle@);
    let ncy = seq!['c', 'y'] + seq!['=', '"'];
    assert(ncy =~= seq!['c', 'y', '=', '"']);
    assert(e.subrange(14 + a, 18 + a) =~= ncy);
    assert forall|q: int| 0 <= q < 14 + a implies !occurs_at(e, ncy, q) by {
        if q < 12 {
            assert(e[q] == e.subrange(0, 12)[q]);
            if q == 8 {
                assert(e[9] == e.subrange(0, 12)[9]);
                if occurs_at(e, ncy, q) {
                    assert(e.subrange(q, q + 4)[1] == e[q + 1]);
                }
            } else {
                lemma_first_char_differs(e, ncy, q);
            }
        } else if q < 12 + a {
            lemma_no_occ_in_number(e, 12, r.cx@, ncy, q);
        } else {
            assert(e[q] == e.subrange(12 + a, 18 + a)[q - 12 - a]);
            lemma_first_char_differs(e, ncy, q);
        }
    }
    assert(e[18 + a + b] == e.subrange(18 + a + b, 23 + a + b)[0]);
    lemma_attr_found(e, seq!['c', 'y'], 14 + a, r.cy@);
}

#[verifier::spinoff_prover]
#[verifier::rlimit(60)]
proof fn lemma_region_attr_w(r: SidecarRegion)
    requires
        region_ok(r),
    ensures
        crate::sidecar::attr_text(region_elem(r), seq!['w']) == Some(r.w@),
{
    let e = region_elem(r);
    let a = r.cx@.len() as int;
    let b = r.cy@.len() as int;
    let c = r.w@.len() as int;
    let d = r.h@.len() as int;
    let g = r.angle@.len() as int;
    lemma_region_elem_parts(r);
    lemma_float_chars(r.cx@);
    lemma_float_chars(r.cy@);
    lemma_float_chars(r.w@);
    lemma_float_chars(r.h@);
    lemma_float_chars(r.angle@);
    lemma_float_text(r.cx@);
    lemma_float_text(r.cy@);
    lemma_float_text(r.w@);
    lemma_float_text(r.h@);
    lemma_float_text(r.angle@);
    let nw = seq!['w'] + seq!['=', '"'];
    assert(nw =~= seq!['w', '=', '"']);
    assert(e.subrange(20 + a + b, 23 + a + b) =~= nw);
    assert forall|q: int| 0 <= q < 20 + a + b implies !occurs_at(e, nw, q) by {
        if q < 12 {
            assert(e[q] == e.subrange(0, 12)[q]);
            lemma_first_char_differs(e, nw, q);
        } else if q < 12 + a {
            lemma_no_occ_in_number(e, 12, r.cx@, nw, q);
        } else if q < 18 + a {
            assert(e[q] == e.subrange(12 + a, 18 + a)[q - 12 - a]);
            lemma_first_char_differs(e, nw, q);
        } else if q < 18 + a + b {
            lemma_no_occ_in_number(e, 18 + a, r.cy@, nw, q);
        } else {
            assert(e[q] == e.subrange(18 + a + b, 23 + a + b)[q - 18 - a - b]);
            lemma_first_char_differs(e, nw, q);
        }
    }
    assert(e[23 + a + b + c] == e.subrange(23 + a + b + c, 28 + a + b + c)[0]);
    lemma_attr_found(e, seq!['w'], 20 + a + b, r.w@);
}

#[verifier::spinoff_prover]
#[verifier::rlimit(60)]
proof fn lemma_region_attr_h(r: SidecarRegion)
    requires
        region_ok(r),
    ensures
        crate::sidecar::attr_text(region_elem(r), seq!['h']) == Some(r.h@),
{
    let e = region_elem(r);
    let a = r.cx@.len() as int;
    let b = r.cy@.len() as int;
    let c = r.w@.len() as int;
    let d = r.h@.len() as int;
    let g = r.angle@.len() as int;
    lemma_region_elem_parts(r);
    lemma_float_chars(r.cx@);
    lemma_float_chars(r.cy@);
    lemma_float_chars(r.w@);
    lemma_float_chars(r.h@);
    lemma_float_chars(r.angle@);
    lemma_float_text(r.cx@);
    lemma_float_text(r.cy@);
    lemma_float_text(r.w@);
    lemma_float_text(r.h@);
    lemma_float_text(r.angle@);
    let nh = seq!['h'] + seq!['=', '"'];
    assert(nh =~= seq!['h', '=', '"']);
    assert(e.subrange(25 + a + b + c, 28 + a + b + c) =~= nh);
    assert forall|q: int| 0 <= q < 25 + a + b + c implies !occurs_at(e, nh, q) by {
        if q < 12 {
            assert(e[q] == e.subrange(0, 12)[q]);
            lemma_first_char_differs(e, nh, q);
        } else if q < 12 + a {
            lemma_no_occ_in_number(e, 12, r.cx@, nh, q);
        } else if q < 18 + a {
            assert(e[q] == e.subrange(12 + a, 18 + a)[q - 12 - a]);
            lemma_first_char_differs(e, nh, q);
        } else if q < 18 + a + b {
            lemma_no_occ_in_number(e, 18 + a, r.cy@, nh, q);
        } else if q < 23 + a + b {
            assert(e[q] == e.subrange(18 + a + b, 23 + a + b)[q - 18 - a - b]);
            lemma_first_char_differs(e, nh, q);
        } else if q < 23 + a + b + c {
            lemma_no_occ_in_number(e, 23 + a + b, r.w@, nh, q);
        } else {
            assert(e[q] == e.subrange(23 + a + b + c, 28 + a + b + c)[q - 23 - a - b - c]);
            lemma_first_char_differs(e, nh, q);
        }
    }
    assert(e[28 + a + b + c + d] == e.subrange(28 + a + b + c + d, 37 + a + b + c + d)[0]);
    lemma_attr_found(e, seq!['h'], 25 + a + b + c, r.h@);
}

#[verifier::spinoff_prover]
#[verifier::rlimit(60)]
proof fn lemma_region_attr_angle(r: SidecarRegion)
    requires
        region_ok(r),
    ensures
        crate::sidecar::attr_text(region_elem(r), seq!['a', 'n', 'g', 'l', 'e']) == Some(r.angle@),
{
    let e = region_elem(r);
    let a = r.cx@.len() as int;
    let b = r.cy@.len() as int;
    let c = r.w@.len() as int;
    let d = r.h@.len() as int;
    let g = r.angle@.len() as int;
    lemma_region_elem_parts(r);
    lemma_float_chars(r.cx@);
    lemma_float_chars(r.cy@);
    lemma_float_chars(r.w@);
    lemma_float_chars(r.h@);
    lemma_float_chars(r.angle@);
    lemma_float_text(r.cx@);
    lemma_float_text(r.cy@);
    lemma_float_text(r.w@);
    lemma_float_text(r.h@);
    lemma_float_text(r.angle@);
    let nan = seq!['a', 'n', 'g', 'l', 'e'] + seq!['=', '"'];
    assert(nan =~= seq!['a', 'n', 'g', 'l', 'e', '=', '"']);
    assert(e.subrange(30 + a + b + c + d, 37 + a + b + c + d) =~= nan);
    assert forall|q: int| 0 <= q < 30 + a + b + c + d implies !occurs_at(e, nan, q) by {
        if q < 12 {
            assert(e[q] == e.subrange(0, 12)[q]);
            lemma_first_char_differs(e, nan, q);
        } else if q < 12 + a {
            lemma_no_occ_in_number(e, 12, r.cx@, nan, q);
        } else if q < 18 + a {
            assert(e[q] == e.subrange(12 + a, 18 + a)[q - 12 - a]);
            lemma_first_char_differs(e, nan, q);
        } else if q < 18 + a + b {
            lemma_no_occ_in_number(e, 18 + a, r.cy@, nan, q);
        } else if q < 23 + a + b {
            assert(e[q] == e.subrange(18 + a + b, 23 + a + b)[q - 18 - a - b]);
            lemma_first_char_differs(e, nan, q);
        } else if q < 23 + a + b + c {
            lemma_no_occ_in_number(e, 23 + a + b, r.w@, nan, q);
        } else if q < 28 + a + b + c {
            assert(e[q] == e.subrange(23 + a + b + c, 28 + a + b + c)[q - 23 - a - b - c]);
            lemma_first_char_differs(e, nan, q);
        } else if q < 28 + a + b + c + d {
            lemma_no_occ_in_number(e, 28 + a + b + c, r.h@, nan, q);
        } else {
            assert(e[q] == e.subrange(28 + a + b + c + d, 37 + a + b + c + d)[q - 28 - a - b - c - d]);
            lemma_first_char_differs(e, nan, q);
        }
    }
    assert(e[37 + a + b + c + d + g] == e.subrange(37 + a + b + c + d + g, 40 + a + b + c + d + g)[0]);
    lemma_attr_found(e, seq!['a', 'n', 'g', 'l', 'e'], 30 + a + b + c + d, r.angle@);
}

/// A region element whose texts are numbers reads as those texts.
pub proof fn lemma_region_elem_read(r: SidecarRegion)
    requires
        region_ok(r),
    ensures
        crate::sidecar::region_of(region_elem(r)) == Some(region_texts(r)),
{
    lemma_region_attr_cx(r);
    lemma_region_attr_cy(r);
    lemma_region_attr_w(r);
    lemma_region_attr_h(r);
    lemma_region_attr_angle(r);
    assert(crate::sidecar::region_of(region_elem(r)) =~= Some(region_texts(r)));
}
/// The lines of regions `m` to `n - 1`.
pub open spec fn region_lines_from(rs: Seq<SidecarRegion>, m: int, n: int) -> Seq<char>
    decreases n - m,
{
    if n <= m {
        seq![]
    } else {
        region_lines_from(rs, m, n - 1) + region_line(rs[n - 1])
    }
}

pub proof fn lemma_region_lines_split(rs: Seq<SidecarRegion>, m: int, n: int)
    requires
        0 <= m <= n,
    ensures
        region_lines(rs, n) == region_lines(rs, m) + region_lines_from(rs, m, n),
    decreases n - m,
{
    if n == m {
        assert(region_lines(rs, m) + Seq::<char>::empty() =~= region_lines(rs, m));
    } else {
        lemma_region_lines_split(rs, m, n - 1);
        assert(region_lines(rs, n) =~= region_lines(rs, m) + region_lines_from(rs, m, n));
    }
}

pub proof fn lemma_region_lines_front(rs: Seq<SidecarRegion>, m: int, n: int)
    requires
        0 <= m < n,
    ensures
        region_lines_from(rs, m, n) == region_line(rs[m]) + region_lines_from(rs, m + 1, n),
    decreases n - m,
{
    if n == m + 1 {
        assert(region_lines_from(rs, m, m) == Seq::<char>::empty());
        assert(region_lines_from(rs, m + 1, n) == Seq::<char>::empty());
        assert(region_lines_from(rs, m, n) =~= region_line(rs[m]) + region_lines_from(rs, m + 1, n));
    } else {
        lemma_region_lines_front(rs, m, n - 1);
        assert(region_lines_from(rs, m, n) =~= region_line(rs[m]) + region_lines_from(rs, m + 1, n));
    }
}

pub proof fn lemma_regions_skip(doc: Seq<char>, pos: int)
    requires
        0 <= pos,
        !occurs_at(doc, crate::sidecar::region_open(), pos),
    ensures
        scan_regions(doc, pos) == scan_regions(doc, pos + 1),
{
    assert(first_at(doc, crate::sidecar::region_open(), pos) == first_at(doc, crate::sidecar::region_open(), pos + 1));
}

pub proof fn lemma_regions_same(doc: Seq<char>, p1: int, p2: int)
    requires
        first_at(doc, crate::sidecar::region_open(), p1) == first_at(doc, crate::sidecar::region_open(), p2),
    ensures
        scan_regions(doc, p1) == scan_regions(doc, p2),
{
}

#[verifier::spinoff_prover]
#[verifier::rlimit(60)]
proof fn lemma_region_elem_no_slash(r: SidecarRegion)
    requires
        region_ok(r),
    ensures
        forall|j: int| 0 <= j < region_elem(r).len() - 2 ==> #[trigger] region_elem(r)[j] != '/',
        region_elem(r).len() >= 3,
        region_elem(r).subrange(region_elem(r).len() - 2, region_elem(r).len() as int) == seq!['/', '>'],
        region_elem(r).subrange(0, 8) == crate::sidecar::region_open(),
{
    let el = region_elem(r);
    lemma_region_elem_parts(r);
    lemma_float_text(r.cx@);
    lemma_float_text(r.cy@);
    lemma_float_text(r.w@);
    lemma_float_text(r.h@);
    lemma_float_text(r.angle@);
    let a = r.cx@.len() as int;
    let b = r.cy@.len() as int;
    let c = r.w@.len() as int;
    let d = r.h@.len() as int;
    let g = r.angle@.len() as int;
    assert forall|j: int| 0 <= j < el.len() - 2 implies #[trigger] el[j] != '/' by {
        if j < 12 {
            assert(el[j] == el.subrange(0, 12)[j]);
        } else if j < 12 + a {
            assert(el[j] == el.subrange(12, 12 + a)[j - 12]);
        } else if j < 18 + a {
            assert(el[j] == el.subrange(12 + a, 18 + a)[j - 12 - a]);
        } else if j < 18 + a + b {
            assert(el[j] == el.subrange(18 + a, 18 + a + b)[j - 18 - a]);
        } else if j < 23 + a + b {
            assert(el[j] == el.subrange(18 + a + b, 23 + a + b)[j - 18 - a - b]);
        } else if j < 23 + a + b + c {
            assert(el[j] == el.subrange(23 + a + b, 23 + a + b + c)[j - 23 - a - b]);
        } else if j < 28 + a + b + c {
            assert(el[j] == el.subrange(23 + a + b + c, 28 + a + b + c)[j - 23 - a - b - c]);
        } else if j < 28 + a + b + c + d {
            assert(el[j] == el.subrange(28 + a + b + c, 28 + a + b + c + d)[j - 28 - a - b - c]);
        } else if j < 37 + a + b + c + d {
            assert(el[j] == el.subrange(28 + a + b + c + d, 37 + a + b + c + d)[j - 28 - a - b - c - d]);
        } else if j < 37 + a + b + c + d + g {
            assert(el[j] == el.subrange(37 + a + b + c + d, 37 + a + b + c + d + g)[j - 37 - a - b - c - d]);
        } else {
            assert(el[j] == el.subrange(37 + a + b + c + d + g, 40 + a + b + c + d + g)[j - 37 - a - b - c - d - g]);
        }
    }
    assert(el.subrange(el.len() - 2, el.len() as int) =~= el.subrange(
        37 + a + b + c + d + g,
        40 + a + b + c + d + g,
    ).subrange(1, 3));
    assert(el.subrange(0, 8) =~= el.subrange(0, 12).subrange(0, 8));
}

#[verifier::spinoff_prover]
#[verifier::rlimit(50)]
proof fn lemma_region_close_at(doc: Seq<char>, pre: Seq<char>, r: SidecarRegion, post: Seq<char>)
    requires
        doc == pre + (seq![' ', ' ', ' ', ' ', ' ', ' '] + region_elem(r) + seq!['\n']) + post,
        region_ok(r),
    ensures
        first_at(doc, seq!['/', '>'], pre.len() + 6int) == Some(pre.len() + 6int + region_elem(r).len() - 2),
        doc.subrange(pre.len() + 6int, pre.len() + 6int + region_elem(r).len()) == region_elem(r),
        doc[pre.len() + 6int + region_elem(r).len()] == '\n',
        first_at(doc, crate::sidecar::region_open(), pre.len() as int) == Some(pre.len() + 6int),
{
    let el = region_elem(r);
    let sp = seq![' ', ' ', ' ', ' ', ' ', ' '];
    let st = pre.len() + 6int;
    let e = st + el.len() - 2;
    let sl = seq!['/', '>'];
    lemma_region_elem_no_slash(r);
    assert(doc =~= pre + sp + el + (seq!['\n'] + post));
    assert forall|q: int| st <= q < e implies !occurs_at(doc, sl, q) by {
        assert(doc[q] == el[q - st]);
        lemma_first_char_differs(doc, sl, q);
    }
    assert(doc.subrange(e, e + 2) =~= el.subrange(el.len() - 2, el.len() as int));
    crate::xml_text::lemma_first_at_scan(doc, sl, st, e);
    assert(first_at(doc, sl, e) == Some(e));
    assert(doc.subrange(st, e + 2) =~= el);
    let ro = crate::sidecar::region_open();
    let rr = el + seq!['\n'] + post;
    assert(doc =~= pre + (sp + rr));
    crate::xml_text::lemma_first_at_offset(pre, sp + rr, ro, 0);
    lemma_clean_no_lt(sp, ro);
    lemma_first_at_clean(sp, rr, ro);
    assert(rr.subrange(0, 8) =~= el.subrange(0, 8));
    assert(first_at(rr, ro, 0) == Some(0int));
}

/// Reading regions from the start of a region line reads that region and
/// goes on after it.
pub proof fn lemma_region_step(doc: Seq<char>, pre: Seq<char>, r: SidecarRegion, post: Seq<char>)
    requires
        doc == pre + region_line(r) + post,
        region_ok(r),
    ensures
        scan_regions(doc, pre.len() as int) == seq![region_texts(r)] + scan_regions(
            doc,
            (pre.len() + region_line(r).len()) as int,
        ),
{
    lemma_region_line_elem(r);
    lemma_region_close_at(doc, pre, r, post);
    lemma_region_elem_read(r);
    let el = region_elem(r);
    let pos = pre.len() + 6int + el.len();
    let ro = crate::sidecar::region_open();
    assert(!occurs_at(doc, ro, pos)) by {
        if occurs_at(doc, ro, pos) {
            assert(doc.subrange(pos, pos + 8)[0] == doc[pos]);
        }
    }
    lemma_regions_skip(doc, pos);
}

pub proof fn lemma_region_scan(doc: Seq<char>, x: Seq<char>, rs: Seq<SidecarRegion>, m: int, y: Seq<char>)
    requires
        doc == x + region_lines(rs, rs.len() as int) + y,
        forall|i: int| 0 <= i < rs.len() ==> region_ok(#[trigger] rs[i]),
        clean(y, crate::sidecar::region_open()),
        0 <= m <= rs.len(),
    ensures
        scan_regions(doc, (x + region_lines(rs, m)).len() as int) == rs.subrange(m, rs.len() as int).map_values(
            |r: SidecarRegion| region_texts(r),
        ),
    decreases rs.len() - m,
{
    let ro = crate::sidecar::region_open();
    let n = rs.len() as int;
    if m == n {
        let head = x + region_lines(rs, n);
        crate::xml_text::lemma_first_at_offset(head, y, ro, 0);
        lemma_first_at_clean(y, seq![], ro);
        assert(y + Seq::<char>::empty() =~= y);
        assert(first_at(doc, ro, head.len() as int) is None);
        assert(rs.subrange(m, n).map_values(|r: SidecarRegion| region_texts(r)) =~= Seq::<Seq<Seq<char>>>::empty());
    } else {
        lemma_region_lines_split(rs, m, n);
        lemma_region_lines_front(rs, m, n);
        let pre = x + region_lines(rs, m);
        let post = region_lines_from(rs, m + 1, n) + y;
        assert(doc =~= pre + region_line(rs[m]) + post);
        lemma_region_step(doc, pre, rs[m], post);
        assert(region_lines(rs, m + 1) == region_lines(rs, m) + region_line(rs[m]));
        assert(x + region_lines(rs, m + 1) =~= pre + region_line(rs[m]));
        lemma_region_scan(doc, x, rs, m + 1, y);
        assert(rs.subrange(m, n).map_values(|r: SidecarRegion| region_texts(r)) =~= seq![region_texts(rs[m])]
            + rs.subrange(m + 1, n).map_values(|r: SidecarRegion| region_texts(r)));
    }
}

/// The adjustment section is clean for a search of a region element.
#[verifier::spinoff_prover]
#[verifier::rlimit(50)]
pub proof fn lemma_adjust_clean_region(c: SidecarConfig)
    requires
        sidecar_round_trips(c),
    ensures
        clean(adjust_section(c), crate::sidecar::region_open()),
{
    let n = crate::sidecar::region_open();
    let w = "region"@;
    lemma_curve_needle();
    if any_override(c.adjust) || c.curve_points_override is Some {
        lemma_structure_texts();
        lemma_struct_line_clean_attr(seq![' ', ' '], 8, n, w);
        lemma_adjust_coded(c.adjust);
        lemma_adjust_present(c.adjust);
        lemma_present_clean_attr(adjust_entries(c.adjust), 9, n, w);
        let cv = curves_text(c.curve_points_override);
        match c.curve_points_override {
            Some(cs) => {
                lemma_struct_line_clean_attr(seq![' ', ' ', ' ', ' '], 61, n, w);
                lemma_curve_lines_clean_attr(cs@, cs@.len() as int, n, w);
                let l = crate::sidecar::curve_lines(cs@, cs@.len() as int);
                lemma_clean_concat("    <curve_points>\n"@, l, n);
                lemma_clean_concat("    <curve_points>\n"@ + l, "    </curve_points>\n"@, n);
            },
            None => {
                lemma_clean_no_lt(seq![], n);
            },
        }
        let l = lines4(adjust_fields(c.adjust));
        lemma_clean_concat("  <adjust>\n"@, l, n);
        lemma_clean_concat("  <adjust>\n"@ + l, cv, n);
        lemma_clean_concat("  <adjust>\n"@ + l + cv, "  </adjust>\n"@, n);
    } else {
        lemma_clean_no_lt(seq![], n);
    }
}

pub proof fn lemma_curve_lines_clean_attr(cs: Seq<Vec<(i64, i64, i64)>>, m: int, n: Seq<char>, w: Seq<char>)
    requires
        attr_needle(n, w),
        w != "curve"@,
    ensures
        clean(crate::sidecar::curve_lines(cs, m), n),
    decreases m,
{
    if m <= 0 {
        lemma_clean_no_lt(seq![], n);
    } else {
        lemma_curve_lines_clean_attr(cs, m - 1, n, w);
        let pts = cs[m - 1]@;
        lemma_curve_line_parts(m - 1, pts);
        let x = seq![' ', 'c', 'h', '=', '"'] + decimal((m - 1) as nat) + seq!['"', '>'] + points_text(pts);
        lemma_parse_decimal((m - 1) as nat, m - 1);
        lemma_points_no_lt(pts);
        assert forall|k: int| 0 <= k < x.len() implies #[trigger] x[k] != '<' by {
            let d = decimal((m - 1) as nat);
            if 5 <= k < 5 + d.len() {
                assert(x[k] == d[k - 5]);
            } else if k >= 7 + d.len() {
                assert(x[k] == points_text(pts)[k - 7 - d.len()]);
            }
        }
        lemma_attr_open_clean_attr("curve"@, x, n, w);
        let sp = seq![' ', ' ', ' ', ' ', ' ', ' '];
        lemma_clean_no_lt(sp, n);
        lemma_close_clean_attr("curve"@, n, w);
        lemma_clean_no_lt(seq!['\n'], n);
        lemma_clean_concat(sp, seq!['<'] + "curve"@ + x, n);
        lemma_clean_concat(sp + (seq!['<'] + "curve"@ + x), close_tag("curve"@), n);
        lemma_clean_concat(sp + (seq!['<'] + "curve"@ + x) + close_tag("curve"@), seq!['\n'], n);
        lemma_clean_concat(crate::sidecar::curve_lines(cs, m - 1), curve_line(m - 1, pts), n);
    }
}

/// The regions read back from the document.
#[verifier::spinoff_prover]
#[verifier::rlimit(60)]
pub proof fn lemma_regions_read(c: SidecarConfig)
    requires
        sidecar_round_trips(c),
    ensures
        scan_regions(sidecar_xml(c), 0) == c.split_regions@.map_values(|r: SidecarRegion| region_texts(r)),
{
    let doc = sidecar_xml(c);
    let ro = crate::sidecar::region_open();
    let w = "region"@;
    let rs = c.split_regions@;
    lemma_curve_needle();
    lemma_structure_texts();
    lemma_head_clean_attr(ro, w);
    lemma_color_coded(c);
    lemma_color_present(c);
    lemma_present_clean_attr(color_entries(c), 2, ro, w);
    lemma_struct_line_clean_attr(seq![' ', ' '], 1, ro, w);
    lemma_adjust_clean_region(c);
    lemma_struct_line_clean_attr(seq![' ', ' '], 62, ro, w);
    lemma_split_coded(c);
    lemma_split_present(c);
    lemma_present_clean_attr(split_entries(c), 63, ro, w);
    lemma_struct_line_clean_attr(seq![], 0, ro, w);
    assert(Seq::<char>::empty() + close_tag(tag_of(0)) + seq!['\n'] =~= close_tag(tag_of(0)) + seq!['\n']);
    let p0 = head_text() + lines4(color_fields(c)) + "  </color>\n"@ + adjust_section(c) + "  <split>\n"@ + lines4(
        split_fields(c),
    );
    lemma_clean_concat(head_text(), lines4(color_fields(c)), ro);
    lemma_clean_concat(head_text() + lines4(color_fields(c)), "  </color>\n"@, ro);
    lemma_clean_concat(head_text() + lines4(color_fields(c)) + "  </color>\n"@, adjust_section(c), ro);
    lemma_clean_concat(
        head_text() + lines4(color_fields(c)) + "  </color>\n"@ + adjust_section(c),
        "  <split>\n"@,
        ro,
    );
    lemma_clean_concat(
        head_text() + lines4(color_fields(c)) + "  </color>\n"@ + adjust_section(c) + "  <split>\n"@,
        lines4(split_fields(c)),
        ro,
    );
    let tail = "  </split>\n"@ + "</fff_viewer>\n"@;
    lemma_clean_concat("  </split>\n"@, "</fff_viewer>\n"@, ro);
    if rs.len() > 0 {
        let x = p0 + "    <regions>\n"@;
        let y = "    </regions>\n"@ + tail;
        lemma_struct_line_clean_attr(seq![' ', ' ', ' ', ' '], 66, ro, w);
        lemma_clean_concat(p0, "    <regions>\n"@, ro);
        lemma_clean_concat("    </regions>\n"@, tail, ro);
        let rl = region_lines(rs, rs.len() as int);
        assert(doc =~= x + rl + y);
        lemma_region_scan(doc, x, rs, 0, y);
        assert(region_lines(rs, 0) == Seq::<char>::empty());
        assert(x + region_lines(rs, 0) =~= x);
        assert(rs.subrange(0, rs.len() as int) =~= rs);
        lemma_first_at_clean(x, rl + y, ro);
        crate::xml_text::lemma_first_at_offset(x, rl + y, ro, 0);
        assert(doc =~= x + (rl + y));
        lemma_regions_same(doc, 0, x.len() as int);
    } else {
        assert(doc =~= p0 + tail);
        lemma_clean_concat(p0, tail, ro);
        lemma_first_at_clean(doc, seq![], ro);
        assert(doc + Seq::<char>::empty() =~= doc);
        assert(rs.map_values(|r: SidecarRegion| region_texts(r)) =~= Seq::<Seq<Seq<char>>>::empty());
    }
}

/// Two sets of adjustments override the same fields with the same values
/// (texts by their characters).
pub open spec fn same_adjustments(a: SidecarAdjustOverrides, b: SidecarAdjustOverrides) -> bool {
    &&& a.film_type == b.film_type
    &&& a.film_curve == b.film_curve
    &&& text_content(a.film_gamma) == text_content(b.film_gamma)
    &&& a.apply_levels == b.apply_levels
    &&& a.apply_curves == b.apply_curves
    &&& a.apply_exposure == b.apply_exposure
    &&& a.apply_brightness == b.apply_brightness
    &&& a.apply_shadow_depth == b.apply_shadow_depth
    &&& a.apply_midtone == b.apply_midtone
    &&& a.apply_contrast == b.apply_contrast
    &&& a.apply_highlights == b.apply_highlights
    &&& a.apply_shadows == b.apply_shadows
    &&& a.apply_saturation == b.apply_saturation
    &&& a.apply_color_balance == b.apply_color_balance
    &&& a.apply_color_temp == b.apply_color_temp
    &&& a.apply_color_corr == b.apply_color_corr
    &&& a.apply_film_curve == b.apply_film_curve
    &&& text_content(a.exposure) == text_content(b.exposure)
    &&& text_content(a.brightness) == text_content(b.brightness)
    &&& text_content(a.lightness) == text_content(b.lightness)
    &&& text_content(a.midtone) == text_content(b.midtone)
    &&& text_content(a.contrast) == text_content(b.contrast)
    &&& text_content(a.highlights) == text_content(b.highlights)
    &&& text_content(a.shadows) == text_content(b.shadows)
    &&& text_content(a.saturation) == text_content(b.saturation)
    &&& text_content(a.color_temperature) == text_content(b.color_temperature)
    &&& text_content(a.tint) == text_content(b.tint)
    &&& text_content(a.r_shift) == text_content(b.r_shift)
    &&& text_content(a.g_shift) == text_content(b.g_shift)
    &&& text_content(a.b_shift) == text_content(b.b_shift)
    &&& texts_view(a.levels_black) == texts_view(b.levels_black)
    &&& texts_view(a.levels_gamma) == texts_view(b.levels_gamma)
    &&& texts_view(a.levels_white) == texts_view(b.levels_white)
    &&& texts_view(a.output_shadow) == texts_view(b.output_shadow)
    &&& texts_view(a.output_highlight) == texts_view(b.output_highlight)
    &&& ints_view(a.color_corr) == ints_view(b.color_corr)
    &&& a.apply_usm == b.apply_usm
    &&& a.usm_amount == b.usm_amount
    &&& a.usm_radius == b.usm_radius
    &&& a.usm_dark_limit == b.usm_dark_limit
    &&& a.usm_noise_limit == b.usm_noise_limit
    &&& ints_view(a.usm_col_factor) == ints_view(b.usm_col_factor)
    &&& a.apply_dust == b.apply_dust
    &&& a.dust_level == b.dust_level
    &&& a.apply_cn_filter == b.apply_cn_filter
    &&& a.color_noise_radius == b.color_noise_radius
    &&& a.noise_filter_bias == b.noise_filter_bias
    &&& a.lens_correction == b.lens_correction
    &&& a.vignette_amount == b.vignette_amount
    &&& a.enhanced_shadow == b.enhanced_shadow
    &&& a.remove_cast_highlight == b.remove_cast_highlight
    &&& a.remove_cast_shadow == b.remove_cast_shadow
}

/// Two settings hold the same values field by field (texts by their
/// characters).
pub open spec fn same_settings(r: SidecarConfig, c: SidecarConfig) -> bool {
    &&& r.use_embedded_correction == c.use_embedded_correction
    &&& r.use_embedded_icc == c.use_embedded_icc
    &&& r.embedded_correction_index == c.embedded_correction_index
    &&& text_content(r.input_profile_name) == text_content(c.input_profile_name)
    &&& text_content(r.preset_name) == text_content(c.preset_name)
    &&& r.target_color_space@ == c.target_color_space@
    &&& r.split_format@ == c.split_format@
    &&& r.split_portrait == c.split_portrait
    &&& r.split_naming_pattern@ == c.split_naming_pattern@
    &&& r.split_regions@.map_values(|g: SidecarRegion| region_texts(g)) == c.split_regions@.map_values(
        |g: SidecarRegion| region_texts(g),
    )
    &&& crate::sidecar::curves_view(r.curve_points_override) == crate::sidecar::curves_view(c.curve_points_override)
    &&& same_adjustments(r.adjust, c.adjust)
}

/// Settings that read back unchanged are what reading their own XML text
/// gives: the text has its root element, every curve element in it can be
/// read, and any settings read from it hold the same values, field by field.
pub proof fn lemma_sidecar_round_trip(c: SidecarConfig)
    requires
        sidecar_round_trips(c),
    ensures
        first_at(sidecar_xml(c), "<fff_viewer>"@, 0) is Some,
        crate::sidecar::curves_readable(sidecar_xml(c)),
        sidecar_read(c, sidecar_xml(c)),
        forall|r: SidecarConfig| #[trigger] sidecar_read(r, sidecar_xml(c)) ==> same_settings(r, c),
{
    lemma_root_found(c);
    lemma_settings_read(c);
    lemma_adjust_read(c);
    lemma_curves_read(c);
    lemma_regions_read(c);
    assert(sidecar_read(c, sidecar_xml(c)));
}

/// No occurrence of a needle that starts with `<` lies in a text that is
/// clean for it.
proof fn lemma_clean_absent(doc: Seq<char>, needle: Seq<char>)
    requires
        needle.len() > 0,
        needle[0] == '<',
        clean(doc, needle),
    ensures
        !contains_text(doc, needle),
{
    assert forall|q: int| !occurs_at(doc, needle, q) by {
        if occurs_at(doc, needle, q) {
            assert(doc.subrange(q, q + needle.len())[0] == needle[0]);
            assert(doc[q] == '<');
            let i = choose|i: int| differs_at(doc, needle, q, i);
            assert(doc.subrange(q, q + needle.len())[i] == needle[i]);
        }
    }
}

/// The sidecar text holds `<adjust>` exactly when an adjustment or a curve
/// is set, provided the region texts hold no `<`.
pub proof fn lemma_adjust_section_iff(c: SidecarConfig)
    requires
        forall|i: int| 0 <= i < c.split_regions@.len() ==> region_plain(#[trigger] c.split_regions@[i]),
    ensures
        contains_text(sidecar_xml(c), "<adjust>"@) <==> (any_override(c.adjust) || c.curve_points_override is Some),
{
    lemma_sidecar_sections(c);
    if !(any_override(c.adjust) || c.curve_points_override is Some) {
        let tag = tag_of(8);
        lemma_tag_table(8);
        assert("<adjust>"@ == open_tag(tag)) by {
            reveal_strlit("<adjust>");
            reveal_strlit("adjust");
            assert("<adjust>"@ =~= open_tag(tag));
        }
        let n = open_tag(tag);
        lemma_head_clean(tag);
        lemma_color_clean(c, tag);
        lemma_split_clean(c, tag);
        lemma_clean_no_lt(seq![], n);
        let lc = lines4(color_fields(c)) + "  </color>\n"@;
        lemma_clean_concat(head_text(), lc, n);
        lemma_clean_concat(head_text() + lc, adjust_section(c), n);
        lemma_clean_concat(head_text() + lc + adjust_section(c), split_section(c) + "</fff_viewer>\n"@, n);
        assert(sidecar_xml(c) =~= head_text() + lc + adjust_section(c) + (split_section(c) + "</fff_viewer>\n"@));
        lemma_clean_absent(sidecar_xml(c), n);
    }
}

} // verus!
