//! The FlexColor edit history held in an FFF file (tag 0xC519) or in a
//! settings preset: a plist of image settings, each with its name, dates and
//! image correction parameters.

use vstd::prelude::*;
use crate::flexcolor::model::DateTime;
use crate::flexcolor::plist::{
    XNode, XmlNode, children_of, elem_children, elem_name, elem_text, element_text, find_elem, find_element,
    is_element_named, lemma_children_view, nodes_view, nview, parse_plist_nodes, plist_nodes,
};
use crate::text::{append_str, chars_of, is_first_occurrence, occurs_at, parse_int, parse_int_spec, push_char, str_equals, find_bytes_from, string_from_utf8};
use crate::tiff::{TiffFile, ifds_view, spec_settings_xml};
use vstd::utf8::{decode_utf8, valid_utf8};

verus! {

// ─── Values ────────────────────────────────────────────────────────────────

/// A text read as `i64` the way `str::parse` does; 0 when it is not one.
pub open spec fn text_i64(t: Seq<char>) -> i64 {
    match parse_int_spec(t, i64::MIN as int, i64::MAX as int) {
        Some(v) => v as i64,
        None => 0,
    }
}

/// A text read as `i32` the way `str::parse` does; 0 when it is not one.
pub open spec fn text_i32(t: Seq<char>) -> i32 {
    match parse_int_spec(t, i32::MIN as int, i32::MAX as int) {
        Some(v) => v as i32,
        None => 0,
    }
}

fn text_i64_exec(t: &String) -> (r: i64)
    ensures
        r == text_i64(t@),
{
    let v = chars_of(t.as_str());
    match parse_int(v.as_slice(), 0, v.len(), i64::MIN as i128, i64::MAX as i128) {
        Some(x) => {
            assert(v@.subrange(0, v@.len() as int) =~= t@);
            x as i64
        },
        None => {
            assert(v@.subrange(0, v@.len() as int) =~= t@);
            0
        },
    }
}

fn text_i32_exec(t: &String) -> (r: i32)
    ensures
        r == text_i32(t@),
{
    let v = chars_of(t.as_str());
    match parse_int(v.as_slice(), 0, v.len(), i32::MIN as i128, i32::MAX as i128) {
        Some(x) => {
            assert(v@.subrange(0, v@.len() as int) =~= t@);
            x as i32
        },
        None => {
            assert(v@.subrange(0, v@.len() as int) =~= t@);
            0
        },
    }
}

/// The key of pair `p` of a dictionary's children (children `2p`, `2p + 1`).
pub open spec fn pair_key(kids: Seq<XNode>, p: int) -> Seq<char> {
    elem_text(kids[2 * p])
}

/// The value of pair `p` of a dictionary's children.
pub open spec fn pair_val(kids: Seq<XNode>, p: int) -> XNode {
    kids[2 * p + 1]
}

/// Number of key/value pairs among a dictionary's children.
pub open spec fn pair_count(kids: Seq<XNode>) -> nat {
    kids.len() / 2
}

/// The integers among the children of an array, in order (children whose
/// text is not an integer are left out).
pub open spec fn int_list(kids: Seq<XNode>) -> Seq<i64>
    decreases kids.len(),
{
    if kids.len() == 0 {
        seq![]
    } else {
        let rest = int_list(kids.drop_last());
        match parse_int_spec(elem_text(kids.last()), i64::MIN as int, i64::MAX as int) {
            Some(v) => rest.push(v as i64),
            None => rest,
        }
    }
}

/// The first four of a list of integers, 0 for missing ones.
pub open spec fn first4(v: Seq<i64>) -> Seq<i64> {
    Seq::new(4, |i: int| if i < v.len() { v[i] } else { 0 })
}

fn int_array(node: &XmlNode) -> (r: Vec<i64>)
    ensures
        r@ == int_list(elem_children(nview(*node))),
{
    let kids = children_of(node);
    let ghost kv = nodes_view(kids@);
    let mut out: Vec<i64> = Vec::new();
    let mut i: usize = 0;
    assert(kv.take(0) =~= seq![]);
    while i < kids.len()
        invariant
            i <= kids@.len(),
            kv == nodes_view(kids@),
            kv == elem_children(nview(*node)),
            out@ == int_list(kv.take(i as int)),
        decreases kids@.len() - i,
    {
        let t = element_text(&kids[i]);
        let v = chars_of(t.as_str());
        let ghost prev = kv.take(i as int);
        assert(kv.take(i + 1).drop_last() =~= prev);
        assert(kv.take(i + 1).last() == nview(kids@[i as int]));
        assert(v@.subrange(0, v@.len() as int) =~= t@);
        match parse_int(v.as_slice(), 0, v.len(), i64::MIN as i128, i64::MAX as i128) {
            Some(x) => out.push(x as i64),
            None => {},
        }
        i = i + 1;
    }
    assert(kv.take(kids@.len() as int) =~= kv);
    out
}

fn int_array4(node: &XmlNode) -> (r: [i64; 4])
    ensures
        r@ == first4(int_list(elem_children(nview(*node)))),
{
    let v = int_array(node);
    let a = if v.len() > 0 { v[0] } else { 0 };
    let b = if v.len() > 1 { v[1] } else { 0 };
    let c = if v.len() > 2 { v[2] } else { 0 };
    let d = if v.len() > 3 { v[3] } else { 0 };
    let r = [a, b, c, d];
    assert(r@ =~= first4(v@));
    r
}

/// The value of the first `Name` key of a `dict` element, from pair `p` on.
pub open spec fn name_from(kids: Seq<XNode>, p: nat) -> Option<Seq<char>>
    decreases pair_count(kids) - p,
{
    if p >= pair_count(kids) {
        None
    } else if pair_key(kids, p as int) == "Name"@ {
        Some(elem_text(pair_val(kids, p as int)))
    } else {
        name_from(kids, p + 1)
    }
}

/// The name of an ICC profile dictionary (`None` for anything but a `dict`).
pub open spec fn profile_name(n: XNode) -> Option<Seq<char>> {
    if elem_name(n) == Some("dict"@) { name_from(elem_children(n), 0) } else { None }
}

fn profile_name_exec(node: &XmlNode) -> (r: Option<String>)
    ensures
        (match r { Some(s) => Some(s@), None => None }) == profile_name(nview(*node)),
{
    if !is_element_named(node, "dict") {
        return None;
    }
    let kids = children_of(node);
    let ghost kv = nodes_view(kids@);
    let mut p: usize = 0;
    while p < kids.len() / 2
        invariant
            p <= kids@.len() / 2,
            kv == nodes_view(kids@),
            profile_name(nview(*node)) == name_from(kv, p as nat),
        decreases kids@.len() / 2 - p,
    {
        let k = element_text(&kids[2 * p]);
        if str_equals(k.as_str(), "Name") {
            return Some(element_text(&kids[2 * p + 1]));
        }
        p = p + 1;
    }
    None
}

// ─── Dates ─────────────────────────────────────────────────────────────────

pub open spec fn dt_apply(d: DateTime, key: Seq<char>, v: i32) -> DateTime {
    if key == "Year"@ {
        DateTime { year: v, ..d }
    } else if key == "Month"@ {
        DateTime { month: v, ..d }
    } else if key == "Day"@ {
        DateTime { day: v, ..d }
    } else if key == "Hour"@ {
        DateTime { hour: v, ..d }
    } else if key == "Minute"@ {
        DateTime { minute: v, ..d }
    } else if key == "Second"@ {
        DateTime { second: v, ..d }
    } else {
        d
    }
}

/// The date of a dictionary, its first `n` pairs applied to an unset date.
pub open spec fn dt_fold(kids: Seq<XNode>, n: nat) -> DateTime
    decreases n,
{
    if n == 0 {
        DateTime { year: 0, month: 0, day: 0, hour: 0, minute: 0, second: 0 }
    } else {
        dt_apply(dt_fold(kids, (n - 1) as nat), pair_key(kids, n - 1), text_i32(elem_text(pair_val(kids, n - 1))))
    }
}

pub open spec fn spec_datetime(n: XNode) -> DateTime {
    dt_fold(elem_children(n), pair_count(elem_children(n)))
}

fn datetime_of(node: &XmlNode) -> (r: DateTime)
    ensures
        r == spec_datetime(nview(*node)),
{
    let kids = children_of(node);
    let ghost kv = nodes_view(kids@);
    let mut d = DateTime { year: 0, month: 0, day: 0, hour: 0, minute: 0, second: 0 };
    let mut p: usize = 0;
    while p < kids.len() / 2
        invariant
            p <= kids@.len() / 2,
            kv == nodes_view(kids@),
            kv == elem_children(nview(*node)),
            d == dt_fold(kv, p as nat),
        decreases kids@.len() / 2 - p,
    {
        let k = element_text(&kids[2 * p]);
        let t = element_text(&kids[2 * p + 1]);
        let v = text_i32_exec(&t);
        if str_equals(k.as_str(), "Year") {
            d.year = v;
        } else if str_equals(k.as_str(), "Month") {
            d.month = v;
        } else if str_equals(k.as_str(), "Day") {
            d.day = v;
        } else if str_equals(k.as_str(), "Hour") {
            d.hour = v;
        } else if str_equals(k.as_str(), "Minute") {
            d.minute = v;
        } else if str_equals(k.as_str(), "Second") {
            d.second = v;
        }
        p = p + 1;
    }
    d
}

// ─── Tone curves ───────────────────────────────────────────────────────────

pub open spec fn pt_apply(q: (i64, i64, i64), key: Seq<char>, v: i64) -> (i64, i64, i64) {
    if key == "X"@ {
        (v, q.1, q.2)
    } else if key == "Y"@ {
        (q.0, v, q.2)
    } else if key == "DY"@ {
        (q.0, q.1, v)
    } else {
        q
    }
}

/// A curve point from the first `n` pairs of its dictionary: (X, Y, DY),
/// missing ones (0, 0, 1).
pub open spec fn pt_fold(kids: Seq<XNode>, n: nat) -> (i64, i64, i64)
    decreases n,
{
    if n == 0 {
        (0, 0, 1)
    } else {
        pt_apply(pt_fold(kids, (n - 1) as nat), pair_key(kids, n - 1), text_i64(elem_text(pair_val(kids, n - 1))))
    }
}

/// The points of the `dict` children of a point array.
pub open spec fn points_list(kids: Seq<XNode>) -> Seq<(i64, i64, i64)>
    decreases kids.len(),
{
    if kids.len() == 0 {
        seq![]
    } else {
        let rest = points_list(kids.drop_last());
        let d = kids.last();
        if elem_name(d) == Some("dict"@) {
            rest.push(pt_fold(elem_children(d), pair_count(elem_children(d))))
        } else {
            rest
        }
    }
}

fn point_of(node: &XmlNode) -> (r: (i64, i64, i64))
    ensures
        r == pt_fold(elem_children(nview(*node)), pair_count(elem_children(nview(*node)))),
{
    let kids = children_of(node);
    let ghost kv = nodes_view(kids@);
    let mut q: (i64, i64, i64) = (0, 0, 1);
    let mut p: usize = 0;
    while p < kids.len() / 2
        invariant
            p <= kids@.len() / 2,
            kv == nodes_view(kids@),
            kv == elem_children(nview(*node)),
            q == pt_fold(kv, p as nat),
        decreases kids@.len() / 2 - p,
    {
        let k = element_text(&kids[2 * p]);
        let t = element_text(&kids[2 * p + 1]);
        let v = text_i64_exec(&t);
        if str_equals(k.as_str(), "X") {
            q = (v, q.1, q.2);
        } else if str_equals(k.as_str(), "Y") {
            q = (q.0, v, q.2);
        } else if str_equals(k.as_str(), "DY") {
            q = (q.0, q.1, v);
        }
        p = p + 1;
    }
    q
}

fn points_of(node: &XmlNode) -> (r: Vec<(i64, i64, i64)>)
    ensures
        r@ == points_list(elem_children(nview(*node))),
{
    let kids = children_of(node);
    let ghost kv = nodes_view(kids@);
    let mut out: Vec<(i64, i64, i64)> = Vec::new();
    let mut i: usize = 0;
    assert(kv.take(0) =~= seq![]);
    while i < kids.len()
        invariant
            i <= kids@.len(),
            kv == nodes_view(kids@),
            kv == elem_children(nview(*node)),
            out@ == points_list(kv.take(i as int)),
        decreases kids@.len() - i,
    {
        assert(kv.take(i + 1).drop_last() =~= kv.take(i as int));
        assert(kv.take(i + 1).last() == nview(kids@[i as int]));
        if is_element_named(&kids[i], "dict") {
            let q = point_of(&kids[i]);
            out.push(q);
        }
        i = i + 1;
    }
    assert(kv.take(kids@.len() as int) =~= kv);
    out
}

/// The point lists under the `Points` keys of one channel dictionary, from
/// its first `n` pairs.
pub open spec fn grad_pairs(kids: Seq<XNode>, n: nat) -> Seq<Seq<(i64, i64, i64)>>
    decreases n,
{
    if n == 0 {
        seq![]
    } else {
        let rest = grad_pairs(kids, (n - 1) as nat);
        if pair_key(kids, n - 1) == "Points"@ {
            rest.push(points_list(elem_children(pair_val(kids, n - 1))))
        } else {
            rest
        }
    }
}

/// The curves of the `dict` children of a gradation array, in order.
pub open spec fn grad_list(kids: Seq<XNode>) -> Seq<Seq<(i64, i64, i64)>>
    decreases kids.len(),
{
    if kids.len() == 0 {
        seq![]
    } else {
        let rest = grad_list(kids.drop_last());
        let d = kids.last();
        if elem_name(d) == Some("dict"@) {
            rest + grad_pairs(elem_children(d), pair_count(elem_children(d)))
        } else {
            rest
        }
    }
}

pub open spec fn grads_view(v: Seq<Vec<(i64, i64, i64)>>) -> Seq<Seq<(i64, i64, i64)>> {
    v.map_values(|c: Vec<(i64, i64, i64)>| c@)
}

fn gradations_of(node: &XmlNode) -> (r: Vec<Vec<(i64, i64, i64)>>)
    ensures
        grads_view(r@) == grad_list(elem_children(nview(*node))),
{
    let kids = children_of(node);
    let ghost kv = nodes_view(kids@);
    let mut out: Vec<Vec<(i64, i64, i64)>> = Vec::new();
    let mut i: usize = 0;
    assert(kv.take(0) =~= seq![]);
    assert(grads_view(out@) =~= seq![]);
    while i < kids.len()
        invariant
            i <= kids@.len(),
            kv == nodes_view(kids@),
            kv == elem_children(nview(*node)),
            grads_view(out@) == grad_list(kv.take(i as int)),
        decreases kids@.len() - i,
    {
        assert(kv.take(i + 1).drop_last() =~= kv.take(i as int));
        assert(kv.take(i + 1).last() == nview(kids@[i as int]));
        if is_element_named(&kids[i], "dict") {
            let dk = children_of(&kids[i]);
            let ghost dv = nodes_view(dk@);
            let ghost base = grads_view(out@);
            let mut p: usize = 0;
            while p < dk.len() / 2
                invariant
                    p <= dk@.len() / 2,
                    dv == nodes_view(dk@),
                    grads_view(out@) == base + grad_pairs(dv, p as nat),
                decreases dk@.len() / 2 - p,
            {
                let k = element_text(&dk[2 * p]);
                if str_equals(k.as_str(), "Points") {
                    let pts = points_of(&dk[2 * p + 1]);
                    let ghost before = out@;
                    out.push(pts);
                    assert(grads_view(out@) =~= grads_view(before).push(pts@));
                }
                p = p + 1;
            }
        }
        i = i + 1;
    }
    assert(kv.take(kids@.len() as int) =~= kv);
    out
}

// ─── Image correction ──────────────────────────────────────────────────────

/// The image correction parameters of one setting.
#[derive(Debug, Clone)]
pub struct ImageCorrection {
    /// The Contrast slider.
    pub contrast: i64,
    /// The Brightness slider.
    pub brightness: i64,
    /// The text of the Gamma value (a decimal number; not a number reads as 0).
    pub gamma: String,
    /// The Lightness slider.
    pub lightness: i64,
    /// The Saturation slider.
    pub saturation: i64,
    /// Colour temperature.
    pub color_temperature: i64,
    /// Tint.
    pub tint: i64,
    /// The text of the exposure value (a decimal number; not a number reads as 0).
    pub ev: String,
    /// Film curve setting.
    pub film_curve: i64,
    /// Film type setting.
    pub film_type: i64,
    /// Colour model setting.
    pub color_model: i64,
    /// Sliders applied.
    pub apply_sliders: bool,
    /// Curves applied.
    pub apply_curves: bool,
    /// Histogram levels applied.
    pub apply_histogram: bool,
    /// Unsharp masking applied.
    pub apply_usm: bool,
    /// Dust removal applied.
    pub apply_dust: bool,
    /// Colour correction applied.
    pub apply_cc: bool,
    /// Colour noise filter applied.
    pub apply_cn_filter: bool,
    /// Unsharp mask amount.
    pub usm_amount: i64,
    /// Unsharp mask radius.
    pub usm_radius: i64,
    /// Unsharp mask dark limit.
    pub usm_dark_limit: i64,
    /// Unsharp mask noise limit.
    pub usm_noise_limit: i64,
    /// Threshold.
    pub threshold: i64,
    /// Dust removal level.
    pub dust_level: i64,
    /// Colour noise radius.
    pub color_noise_radius: i64,
    /// Noise filter bias.
    pub noise_filter_bias: i64,
    /// Lens correction.
    pub lens_correction: i64,
    /// Vignetting amount.
    pub vignette_amount: i64,
    /// Enhanced shadows.
    pub enhanced_shadow: bool,
    /// Highlight cast removed.
    pub remove_cast_highlight: bool,
    /// Shadow cast removed.
    pub remove_cast_shadow: bool,
    /// ICC profile embedded.
    pub embed_profile: bool,
    /// Colour space converted.
    pub convert: bool,
    /// Soft proofing.
    pub soft_proof: bool,
    /// Automatic highlight value.
    pub auto_highlight: i64,
    /// Automatic shadow value.
    pub auto_shadow: i64,
    /// Processing mode.
    pub mode: i64,
    /// Unsharp mask colour factors [R, G, B].
    pub usm_col_factor: Vec<i64>,
    /// Levels shadow point per channel [RGB, R, G, B].
    pub shadow: [i64; 4],
    /// Levels midtone per channel [RGB, R, G, B].
    pub gray: [i64; 4],
    /// Levels highlight point per channel [RGB, R, G, B].
    pub highlight: [i64; 4],
    /// Colour correction matrix (36 values).
    pub color_corr: Vec<i64>,
    /// Tone sliders [contrast, brightness, shadow depth].
    pub gradation_sliders: [i64; 3],
    /// Tone curve points per channel, each (x, y, dy).
    pub gradations: Vec<Vec<(i64, i64, i64)>>,
    /// Name of the input ICC profile.
    pub input_profile_name: Option<String>,
    /// Name of the output RGB profile.
    pub rgb_profile_name: Option<String>,
    /// Output level end points (14 values: 7 dark, 7 light).
    pub dot_color: Vec<i64>,
    /// Every key with its displayed value, in document order.
    pub raw_params: Vec<(String, String)>,
}

/// Model of `ImageCorrection`.
pub struct ImageCorrectionV {
    pub contrast: i64,
    pub brightness: i64,
    pub gamma: Seq<char>,
    pub lightness: i64,
    pub saturation: i64,
    pub color_temperature: i64,
    pub tint: i64,
    pub ev: Seq<char>,
    pub film_curve: i64,
    pub film_type: i64,
    pub color_model: i64,
    pub apply_sliders: bool,
    pub apply_curves: bool,
    pub apply_histogram: bool,
    pub apply_usm: bool,
    pub apply_dust: bool,
    pub apply_cc: bool,
    pub apply_cn_filter: bool,
    pub usm_amount: i64,
    pub usm_radius: i64,
    pub usm_dark_limit: i64,
    pub usm_noise_limit: i64,
    pub threshold: i64,
    pub dust_level: i64,
    pub color_noise_radius: i64,
    pub noise_filter_bias: i64,
    pub lens_correction: i64,
    pub vignette_amount: i64,
    pub enhanced_shadow: bool,
    pub remove_cast_highlight: bool,
    pub remove_cast_shadow: bool,
    pub embed_profile: bool,
    pub convert: bool,
    pub soft_proof: bool,
    pub auto_highlight: i64,
    pub auto_shadow: i64,
    pub mode: i64,
    pub usm_col_factor: Seq<i64>,
    pub shadow: Seq<i64>,
    pub gray: Seq<i64>,
    pub highlight: Seq<i64>,
    pub color_corr: Seq<i64>,
    pub gradation_sliders: Seq<i64>,
    pub gradations: Seq<Seq<(i64, i64, i64)>>,
    pub input_profile_name: Option<Seq<char>>,
    pub rgb_profile_name: Option<Seq<char>>,
    pub dot_color: Seq<i64>,
    pub raw_params: Seq<(Seq<char>, Seq<char>)>,
}

pub open spec fn opt_text(o: Option<String>) -> Option<Seq<char>> {
    match o {
        Some(s) => Some(s@),
        None => None,
    }
}

pub open spec fn pairs_view(v: Seq<(String, String)>) -> Seq<(Seq<char>, Seq<char>)> {
    v.map_values(|p: (String, String)| (p.0@, p.1@))
}

impl View for ImageCorrection {
    type V = ImageCorrectionV;

    open spec fn view(&self) -> ImageCorrectionV {
        ImageCorrectionV {
            contrast: self.contrast,
            brightness: self.brightness,
            gamma: self.gamma@,
            lightness: self.lightness,
            saturation: self.saturation,
            color_temperature: self.color_temperature,
            tint: self.tint,
            ev: self.ev@,
            film_curve: self.film_curve,
            film_type: self.film_type,
            color_model: self.color_model,
            apply_sliders: self.apply_sliders,
            apply_curves: self.apply_curves,
            apply_histogram: self.apply_histogram,
            apply_usm: self.apply_usm,
            apply_dust: self.apply_dust,
            apply_cc: self.apply_cc,
            apply_cn_filter: self.apply_cn_filter,
            usm_amount: self.usm_amount,
            usm_radius: self.usm_radius,
            usm_dark_limit: self.usm_dark_limit,
            usm_noise_limit: self.usm_noise_limit,
            threshold: self.threshold,
            dust_level: self.dust_level,
            color_noise_radius: self.color_noise_radius,
            noise_filter_bias: self.noise_filter_bias,
            lens_correction: self.lens_correction,
            vignette_amount: self.vignette_amount,
            enhanced_shadow: self.enhanced_shadow,
            remove_cast_highlight: self.remove_cast_highlight,
            remove_cast_shadow: self.remove_cast_shadow,
            embed_profile: self.embed_profile,
            convert: self.convert,
            soft_proof: self.soft_proof,
            auto_highlight: self.auto_highlight,
            auto_shadow: self.auto_shadow,
            mode: self.mode,
            usm_col_factor: self.usm_col_factor@,
            shadow: self.shadow@,
            gray: self.gray@,
            highlight: self.highlight@,
            color_corr: self.color_corr@,
            gradation_sliders: self.gradation_sliders@,
            gradations: grads_view(self.gradations@),
            input_profile_name: opt_text(self.input_profile_name),
            rgb_profile_name: opt_text(self.rgb_profile_name),
            dot_color: self.dot_color@,
            raw_params: pairs_view(self.raw_params@),
        }
    }
}

/// All parameters zero, off or empty.
pub open spec fn corr_default() -> ImageCorrectionV {
    ImageCorrectionV {
        contrast: 0,
        brightness: 0,
        gamma: seq![],
        lightness: 0,
        saturation: 0,
        color_temperature: 0,
        tint: 0,
        ev: seq![],
        film_curve: 0,
        film_type: 0,
        color_model: 0,
        apply_sliders: false,
        apply_curves: false,
        apply_histogram: false,
        apply_usm: false,
        apply_dust: false,
        apply_cc: false,
        apply_cn_filter: false,
        usm_amount: 0,
        usm_radius: 0,
        usm_dark_limit: 0,
        usm_noise_limit: 0,
        threshold: 0,
        dust_level: 0,
        color_noise_radius: 0,
        noise_filter_bias: 0,
        lens_correction: 0,
        vignette_amount: 0,
        enhanced_shadow: false,
        remove_cast_highlight: false,
        remove_cast_shadow: false,
        embed_profile: false,
        convert: false,
        soft_proof: false,
        auto_highlight: 0,
        auto_shadow: 0,
        mode: 0,
        usm_col_factor: seq![],
        shadow: seq![0, 0, 0, 0],
        gray: seq![0, 0, 0, 0],
        highlight: seq![0, 0, 0, 0],
        color_corr: seq![],
        gradation_sliders: seq![0, 0, 0],
        gradations: seq![],
        input_profile_name: None,
        rgb_profile_name: None,
        dot_color: seq![],
        raw_params: seq![],
    }
}

impl Default for ImageCorrection {
    fn default() -> (r: Self)
        ensures
            r@ == corr_default(),
    {
        let r = ImageCorrection {
            contrast: 0,
            brightness: 0,
            gamma: String::new(),
            lightness: 0,
            saturation: 0,
            color_temperature: 0,
            tint: 0,
            ev: String::new(),
            film_curve: 0,
            film_type: 0,
            color_model: 0,
            apply_sliders: false,
            apply_curves: false,
            apply_histogram: false,
            apply_usm: false,
            apply_dust: false,
            apply_cc: false,
            apply_cn_filter: false,
            usm_amount: 0,
            usm_radius: 0,
            usm_dark_limit: 0,
            usm_noise_limit: 0,
            threshold: 0,
            dust_level: 0,
            color_noise_radius: 0,
            noise_filter_bias: 0,
            lens_correction: 0,
            vignette_amount: 0,
            enhanced_shadow: false,
            remove_cast_highlight: false,
            remove_cast_shadow: false,
            embed_profile: false,
            convert: false,
            soft_proof: false,
            auto_highlight: 0,
            auto_shadow: 0,
            mode: 0,
            usm_col_factor: Vec::new(),
            shadow: [0, 0, 0, 0],
            gray: [0, 0, 0, 0],
            highlight: [0, 0, 0, 0],
            color_corr: Vec::new(),
            gradation_sliders: [0, 0, 0],
            gradations: Vec::new(),
            input_profile_name: None,
            rgb_profile_name: None,
            dot_color: Vec::new(),
            raw_params: Vec::new(),
        };
        assert(r.shadow@ =~= seq![0, 0, 0, 0]);
        assert(r.gray@ =~= seq![0, 0, 0, 0]);
        assert(r.highlight@ =~= seq![0, 0, 0, 0]);
        assert(r.gradation_sliders@ =~= seq![0, 0, 0]);
        assert(grads_view(r.gradations@) =~= seq![]);
        assert(pairs_view(r.raw_params@) =~= seq![]);
        r
    }
}

/// How a value is shown among the raw parameters: `true`/`false` elements by
/// name, arrays and dictionaries as `[complex]`, anything else by its text.
pub open spec fn display_value(name: Seq<char>, text: Seq<char>) -> Seq<char> {
    if name == "true"@ {
        "true"@
    } else if name == "false"@ {
        "false"@
    } else if name == "array"@ || name == "dict"@ {
        "[complex]"@
    } else {
        text
    }
}

/// The name of a node, empty for a text node.
pub open spec fn name_or_empty(n: XNode) -> Seq<char> {
    match elem_name(n) {
        Some(s) => s,
        None => seq![],
    }
}

/// Every key but `streamableVersion` and `Gradations` is recorded among the
/// raw parameters with its displayed value.
pub open spec fn corr_raw(c: ImageCorrectionV, key: Seq<char>, val: XNode) -> ImageCorrectionV {
    if key != "streamableVersion"@ && key != "Gradations"@ {
        ImageCorrectionV { raw_params: c.raw_params.push((key, display_value(name_or_empty(val), elem_text(val)))), ..c }
    } else {
        c
    }
}

/// The integer parameter of `key` set to `iv`; `None` when `key` names no
/// integer parameter.
pub open spec fn corr_int(c: ImageCorrectionV, key: Seq<char>, iv: i64) -> Option<ImageCorrectionV> {
    if key == "Contrast"@ {
        Some(ImageCorrectionV { contrast: iv, ..c })
    } else if key == "Brightness"@ {
        Some(ImageCorrectionV { brightness: iv, ..c })
    } else if key == "Lightness"@ {
        Some(ImageCorrectionV { lightness: iv, ..c })
    } else if key == "Saturation"@ {
        Some(ImageCorrectionV { saturation: iv, ..c })
    } else if key == "ColorTemperature"@ {
        Some(ImageCorrectionV { color_temperature: iv, ..c })
    } else if key == "Tint"@ {
        Some(ImageCorrectionV { tint: iv, ..c })
    } else if key == "FilmCurve"@ {
        Some(ImageCorrectionV { film_curve: iv, ..c })
    } else if key == "FilmType"@ {
        Some(ImageCorrectionV { film_type: iv, ..c })
    } else if key == "ColorModel"@ {
        Some(ImageCorrectionV { color_model: iv, ..c })
    } else if key == "USMAmount"@ {
        Some(ImageCorrectionV { usm_amount: iv, ..c })
    } else if key == "USMRadius"@ {
        Some(ImageCorrectionV { usm_radius: iv, ..c })
    } else if key == "USMDarkLimit"@ {
        Some(ImageCorrectionV { usm_dark_limit: iv, ..c })
    } else if key == "USMNoiseLimit"@ {
        Some(ImageCorrectionV { usm_noise_limit: iv, ..c })
    } else if key == "Threshold"@ {
        Some(ImageCorrectionV { threshold: iv, ..c })
    } else if key == "DustLevel"@ {
        Some(ImageCorrectionV { dust_level: iv, ..c })
    } else if key == "ColorNoiseRadius"@ {
        Some(ImageCorrectionV { color_noise_radius: iv, ..c })
    } else if key == "NoiseFilterBias"@ {
        Some(ImageCorrectionV { noise_filter_bias: iv, ..c })
    } else if key == "LensCorrection"@ {
        Some(ImageCorrectionV { lens_correction: iv, ..c })
    } else if key == "VignetteAmount"@ {
        Some(ImageCorrectionV { vignette_amount: iv, ..c })
    } else if key == "AutoHighlight"@ {
        Some(ImageCorrectionV { auto_highlight: iv, ..c })
    } else if key == "AutoShadow"@ {
        Some(ImageCorrectionV { auto_shadow: iv, ..c })
    } else if key == "Mode"@ {
        Some(ImageCorrectionV { mode: iv, ..c })
    } else {
        None
    }
}

/// The text and switch parameters (a switch is on for an element `true` or
/// the text `true`); `None` when `key` names none of them.
pub open spec fn corr_switch(c: ImageCorrectionV, key: Seq<char>, t: Seq<char>, bv: bool) -> Option<ImageCorrectionV> {
    if key == "Gamma"@ {
        Some(ImageCorrectionV { gamma: t, ..c })
    } else if key == "EV"@ {
        Some(ImageCorrectionV { ev: t, ..c })
    } else if key == "ApplySliders"@ {
        Some(ImageCorrectionV { apply_sliders: bv, ..c })
    } else if key == "ApplyCurves"@ {
        Some(ImageCorrectionV { apply_curves: bv, ..c })
    } else if key == "ApplyHistogram"@ {
        Some(ImageCorrectionV { apply_histogram: bv, ..c })
    } else if key == "ApplyUSM"@ {
        Some(ImageCorrectionV { apply_usm: bv, ..c })
    } else if key == "ApplyDust"@ {
        Some(ImageCorrectionV { apply_dust: bv, ..c })
    } else if key == "ApplyCC"@ {
        Some(ImageCorrectionV { apply_cc: bv, ..c })
    } else if key == "ApplyCNFilter"@ {
        Some(ImageCorrectionV { apply_cn_filter: bv, ..c })
    } else if key == "EnhancedShadow"@ {
        Some(ImageCorrectionV { enhanced_shadow: bv, ..c })
    } else if key == "RemoveCastHighlight"@ {
        Some(ImageCorrectionV { remove_cast_highlight: bv, ..c })
    } else if key == "RemoveCastShadow"@ {
        Some(ImageCorrectionV { remove_cast_shadow: bv, ..c })
    } else if key == "EmbedProfile"@ {
        Some(ImageCorrectionV { embed_profile: bv, ..c })
    } else if key == "Convert"@ {
        Some(ImageCorrectionV { convert: bv, ..c })
    } else if key == "SoftProof"@ {
        Some(ImageCorrectionV { soft_proof: bv, ..c })
    } else {
        None
    }
}

/// The list, array, curve and profile parameters.
pub open spec fn corr_struct(c: ImageCorrectionV, key: Seq<char>, val: XNode) -> ImageCorrectionV {
    if key == "USMColFactor"@ {
        ImageCorrectionV { usm_col_factor: int_list(elem_children(val)), ..c }
    } else if key == "Gradations"@ {
        ImageCorrectionV { gradations: grad_list(elem_children(val)), ..c }
    } else if key == "Shadow"@ {
        ImageCorrectionV { shadow: first4(int_list(elem_children(val))), ..c }
    } else if key == "Gray"@ {
        ImageCorrectionV { gray: first4(int_list(elem_children(val))), ..c }
    } else if key == "Highlight"@ {
        ImageCorrectionV { highlight: first4(int_list(elem_children(val))), ..c }
    } else if key == "ColorCorr"@ {
        ImageCorrectionV { color_corr: int_list(elem_children(val)), ..c }
    } else if key == "GradationSliders"@ {
        let arr = int_list(elem_children(val));
        if arr.len() >= 3 { ImageCorrectionV { gradation_sliders: arr.take(3), ..c } } else { c }
    } else if key == "InputProfile"@ {
        match profile_name(val) {
            Some(nm) => ImageCorrectionV { input_profile_name: Some(nm), ..c },
            None => c,
        }
    } else if key == "RGBProfile"@ {
        match profile_name(val) {
            Some(nm) => ImageCorrectionV { rgb_profile_name: Some(nm), ..c },
            None => c,
        }
    } else {
        c
    }
}

/// The parameters other than integers.
pub open spec fn corr_rest(c: ImageCorrectionV, key: Seq<char>, val: XNode) -> ImageCorrectionV {
    let t = elem_text(val);
    let bv = name_or_empty(val) == "true"@ || t == "true"@;
    match corr_switch(c, key, t, bv) {
        Some(c2) => c2,
        None => corr_struct(c, key, val),
    }
}

/// Applies one key/value pair of an `ImageCorrection` dictionary.
pub open spec fn corr_apply(c: ImageCorrectionV, key: Seq<char>, val: XNode) -> ImageCorrectionV {
    let c1 = corr_raw(c, key, val);
    match corr_int(c1, key, text_i64(elem_text(val))) {
        Some(c2) => c2,
        None => corr_rest(c1, key, val),
    }
}

fn text_of(s: &str) -> (r: String)
    ensures
        r@ == s@,
{
    let mut r = String::new();
    append_str(&mut r, s);
    assert(r@ =~= s@);
    r
}

fn corr_raw_exec(c: &mut ImageCorrection, key: &String, val: &XmlNode)
    ensures
        final(c)@ == corr_raw(old(c)@, key@, nview(*val)),
{
    if str_equals(key.as_str(), "streamableVersion") || str_equals(key.as_str(), "Gradations") {
        return;
    }
    let t = element_text(val);
    let is_true = is_element_named(val, "true");
    let is_false = is_element_named(val, "false");
    let is_array = is_element_named(val, "array");
    let is_dict = is_element_named(val, "dict");
    let ghost vn = name_or_empty(nview(*val));
    proof {
        lemma_children_view(*val);
        reveal_strlit("true");
        reveal_strlit("false");
        reveal_strlit("array");
        reveal_strlit("dict");
        assert("true"@.len() == 4);
        assert("false"@.len() == 5);
        assert("array"@.len() == 5);
        assert("dict"@.len() == 4);
    }
    let shown = if is_true {
        text_of("true")
    } else if is_false {
        assert(vn != "true"@);
        text_of("false")
    } else if is_array || is_dict {
        assert(vn != "true"@ && vn != "false"@);
        text_of("[complex]")
    } else {
        assert(elem_name(nview(*val)) != Some("false"@));
        assert(vn != "true"@);
        assert(vn != "false"@);
        assert(vn != "array"@);
        assert(vn != "dict"@);
        t.clone()
    };
    assert(shown@ == display_value(vn, t@));
    let ghost before = c.raw_params@;
    c.raw_params.push((key.clone(), shown));
    assert(pairs_view(c.raw_params@) =~= pairs_view(before).push((key@, display_value(vn, t@))));
}

#[verifier::spinoff_prover]
#[verifier::rlimit(100)]
fn corr_int_exec(c: &mut ImageCorrection, key: &String, iv: i64) -> (hit: bool)
    ensures
        hit == corr_int(old(c)@, key@, iv) is Some,
        hit ==> Some(final(c)@) == corr_int(old(c)@, key@, iv),
        !hit ==> final(c)@ == old(c)@,
{
    let k = key.as_str();
    if str_equals(k, "Contrast") {
        c.contrast = iv;
    } else if str_equals(k, "Brightness") {
        c.brightness = iv;
    } else if str_equals(k, "Lightness") {
        c.lightness = iv;
    } else if str_equals(k, "Saturation") {
        c.saturation = iv;
    } else if str_equals(k, "ColorTemperature") {
        c.color_temperature = iv;
    } else if str_equals(k, "Tint") {
        c.tint = iv;
    } else if str_equals(k, "FilmCurve") {
        c.film_curve = iv;
    } else if str_equals(k, "FilmType") {
        c.film_type = iv;
    } else if str_equals(k, "ColorModel") {
        c.color_model = iv;
    } else if str_equals(k, "USMAmount") {
        c.usm_amount = iv;
    } else if str_equals(k, "USMRadius") {
        c.usm_radius = iv;
    } else if str_equals(k, "USMDarkLimit") {
        c.usm_dark_limit = iv;
    } else if str_equals(k, "USMNoiseLimit") {
        c.usm_noise_limit = iv;
    } else if str_equals(k, "Threshold") {
        c.threshold = iv;
    } else if str_equals(k, "DustLevel") {
        c.dust_level = iv;
    } else if str_equals(k, "ColorNoiseRadius") {
        c.color_noise_radius = iv;
    } else if str_equals(k, "NoiseFilterBias") {
        c.noise_filter_bias = iv;
    } else if str_equals(k, "LensCorrection") {
        c.lens_correction = iv;
    } else if str_equals(k, "VignetteAmount") {
        c.vignette_amount = iv;
    } else if str_equals(k, "AutoHighlight") {
        c.auto_highlight = iv;
    } else if str_equals(k, "AutoShadow") {
        c.auto_shadow = iv;
    } else if str_equals(k, "Mode") {
        c.mode = iv;
    } else {
        return false;
    }
    true
}

#[verifier::spinoff_prover]
#[verifier::rlimit(100)]
fn corr_switch_exec(c: &mut ImageCorrection, key: &String, t: &String, bv: bool) -> (hit: bool)
    ensures
        hit == corr_switch(old(c)@, key@, t@, bv) is Some,
        hit ==> Some(final(c)@) == corr_switch(old(c)@, key@, t@, bv),
        !hit ==> final(c)@ == old(c)@,
{
    let k = key.as_str();
    if str_equals(k, "Gamma") {
        c.gamma = t.clone();
    } else if str_equals(k, "EV") {
        c.ev = t.clone();
    } else if str_equals(k, "ApplySliders") {
        c.apply_sliders = bv;
    } else if str_equals(k, "ApplyCurves") {
        c.apply_curves = bv;
    } else if str_equals(k, "ApplyHistogram") {
        c.apply_histogram = bv;
    } else if str_equals(k, "ApplyUSM") {
        c.apply_usm = bv;
    } else if str_equals(k, "ApplyDust") {
        c.apply_dust = bv;
    } else if str_equals(k, "ApplyCC") {
        c.apply_cc = bv;
    } else if str_equals(k, "ApplyCNFilter") {
        c.apply_cn_filter = bv;
    } else if str_equals(k, "EnhancedShadow") {
        c.enhanced_shadow = bv;
    } else if str_equals(k, "RemoveCastHighlight") {
        c.remove_cast_highlight = bv;
    } else if str_equals(k, "RemoveCastShadow") {
        c.remove_cast_shadow = bv;
    } else if str_equals(k, "EmbedProfile") {
        c.embed_profile = bv;
    } else if str_equals(k, "Convert") {
        c.convert = bv;
    } else if str_equals(k, "SoftProof") {
        c.soft_proof = bv;
    } else {
        return false;
    }
    true
}

#[verifier::spinoff_prover]
#[verifier::rlimit(100)]
fn corr_struct_exec(c: &mut ImageCorrection, key: &String, val: &XmlNode)
    ensures
        final(c)@ == corr_struct(old(c)@, key@, nview(*val)),
{
    let k = key.as_str();
    if str_equals(k, "USMColFactor") {
        c.usm_col_factor = int_array(val);
    } else if str_equals(k, "Gradations") {
        c.gradations = gradations_of(val);
    } else if str_equals(k, "Shadow") {
        c.shadow = int_array4(val);
    } else if str_equals(k, "Gray") {
        c.gray = int_array4(val);
    } else if str_equals(k, "Highlight") {
        c.highlight = int_array4(val);
    } else if str_equals(k, "ColorCorr") {
        c.color_corr = int_array(val);
    } else if str_equals(k, "GradationSliders") {
        let arr = int_array(val);
        if arr.len() >= 3 {
            let g = [arr[0], arr[1], arr[2]];
            assert(g@ =~= arr@.take(3));
            c.gradation_sliders = g;
        }
    } else if str_equals(k, "InputProfile") {
        if let Some(nm) = profile_name_exec(val) {
            c.input_profile_name = Some(nm);
        }
    } else if str_equals(k, "RGBProfile") {
        if let Some(nm) = profile_name_exec(val) {
            c.rgb_profile_name = Some(nm);
        }
    }
}

fn corr_rest_exec(c: &mut ImageCorrection, key: &String, val: &XmlNode)
    ensures
        final(c)@ == corr_rest(old(c)@, key@, nview(*val)),
{
    let t = element_text(val);
    let is_true = is_element_named(val, "true");
    proof {
        lemma_children_view(*val);
        reveal_strlit("true");
        assert("true"@.len() == 4);
    }
    let bv = is_true || str_equals(t.as_str(), "true");
    assert(bv == (name_or_empty(nview(*val)) == "true"@ || t@ == "true"@));
    if !corr_switch_exec(c, key, &t, bv) {
        corr_struct_exec(c, key, val);
    }
}

fn corr_apply_exec(c: &mut ImageCorrection, key: &String, val: &XmlNode)
    ensures
        final(c)@ == corr_apply(old(c)@, key@, nview(*val)),
{
    corr_raw_exec(c, key, val);
    let t = element_text(val);
    let iv = text_i64_exec(&t);
    if !corr_int_exec(c, key, iv) {
        corr_rest_exec(c, key, val);
    }
}

/// The parameters of a dictionary, its first `n` pairs applied in order to
/// the defaults (which have Gamma 2 and EV 1, so that a preset without an
/// EV key keeps unity exposure).
pub open spec fn corr_fold(kids: Seq<XNode>, n: nat) -> ImageCorrectionV
    decreases n,
{
    if n == 0 {
        ImageCorrectionV { gamma: seq!['2'], ev: seq!['1'], ..corr_default() }
    } else {
        corr_apply(corr_fold(kids, (n - 1) as nat), pair_key(kids, n - 1), pair_val(kids, n - 1))
    }
}

/// The image correction parameters of a dictionary node.
pub open spec fn spec_image_correction(n: XNode) -> ImageCorrectionV {
    corr_fold(elem_children(n), pair_count(elem_children(n)))
}

fn image_correction_of(node: &XmlNode) -> (r: ImageCorrection)
    ensures
        r@ == spec_image_correction(nview(*node)),
{
    let kids = children_of(node);
    let ghost kv = nodes_view(kids@);
    let mut c = ImageCorrection::default();
    c.gamma = text_of("2");
    c.ev = text_of("1");
    proof {
        reveal_strlit("2");
        reveal_strlit("1");
        assert(c.gamma@ =~= seq!['2']);
        assert(c.ev@ =~= seq!['1']);
    }
    assert(c@ == corr_fold(kv, 0));
    let mut p: usize = 0;
    while p < kids.len() / 2
        invariant
            p <= kids@.len() / 2,
            kv == nodes_view(kids@),
            kv == elem_children(nview(*node)),
            c@ == corr_fold(kv, p as nat),
        decreases kids@.len() / 2 - p,
    {
        let k = element_text(&kids[2 * p]);
        corr_apply_exec(&mut c, &k, &kids[2 * p + 1]);
        p = p + 1;
    }
    c
}

// ─── Settings and history ──────────────────────────────────────────────────

/// One entry of the edit history.
#[derive(Debug, Clone)]
pub struct ImageSetting {
    /// Name of the setting.
    pub name: String,
    /// Additional information.
    pub info: String,
    /// Flags.
    pub flags: i64,
    /// Creation time.
    pub created: DateTime,
    /// Modification time.
    pub modified: DateTime,
    /// Image correction parameters.
    pub correction: ImageCorrection,
}

/// Model of `ImageSetting`.
pub struct ImageSettingV {
    pub name: Seq<char>,
    pub info: Seq<char>,
    pub flags: i64,
    pub created: DateTime,
    pub modified: DateTime,
    pub correction: ImageCorrectionV,
}

impl View for ImageSetting {
    type V = ImageSettingV;

    open spec fn view(&self) -> ImageSettingV {
        ImageSettingV {
            name: self.name@,
            info: self.info@,
            flags: self.flags,
            created: self.created,
            modified: self.modified,
            correction: self.correction@,
        }
    }
}

pub open spec fn set_apply(st: ImageSettingV, key: Seq<char>, val: XNode) -> ImageSettingV {
    if key == "Name"@ {
        ImageSettingV { name: elem_text(val), ..st }
    } else if key == "Info"@ {
        ImageSettingV { info: elem_text(val), ..st }
    } else if key == "Flags"@ {
        ImageSettingV { flags: text_i64(elem_text(val)), ..st }
    } else if key == "Created"@ {
        ImageSettingV { created: spec_datetime(val), ..st }
    } else if key == "Modified"@ {
        ImageSettingV { modified: spec_datetime(val), ..st }
    } else if key == "ImageCorrection"@ {
        ImageSettingV { correction: spec_image_correction(val), ..st }
    } else {
        st
    }
}

/// A setting from the first `n` pairs of its dictionary, applied to an empty
/// setting (default parameters, unset dates).
pub open spec fn set_fold(kids: Seq<XNode>, n: nat) -> ImageSettingV
    decreases n,
{
    if n == 0 {
        ImageSettingV {
            name: seq![],
            info: seq![],
            flags: 0,
            created: DateTime { year: 0, month: 0, day: 0, hour: 0, minute: 0, second: 0 },
            modified: DateTime { year: 0, month: 0, day: 0, hour: 0, minute: 0, second: 0 },
            correction: corr_default(),
        }
    } else {
        set_apply(set_fold(kids, (n - 1) as nat), pair_key(kids, n - 1), pair_val(kids, n - 1))
    }
}

pub open spec fn spec_setting(n: XNode) -> ImageSettingV {
    set_fold(elem_children(n), pair_count(elem_children(n)))
}

fn setting_of(node: &XmlNode) -> (r: ImageSetting)
    ensures
        r@ == spec_setting(nview(*node)),
{
    let kids = children_of(node);
    let ghost kv = nodes_view(kids@);
    let mut st = ImageSetting {
        name: String::new(),
        info: String::new(),
        flags: 0,
        created: DateTime { year: 0, month: 0, day: 0, hour: 0, minute: 0, second: 0 },
        modified: DateTime { year: 0, month: 0, day: 0, hour: 0, minute: 0, second: 0 },
        correction: ImageCorrection::default(),
    };
    let mut p: usize = 0;
    while p < kids.len() / 2
        invariant
            p <= kids@.len() / 2,
            kv == nodes_view(kids@),
            kv == elem_children(nview(*node)),
            st@ == set_fold(kv, p as nat),
        decreases kids@.len() / 2 - p,
    {
        let k = element_text(&kids[2 * p]);
        let val = &kids[2 * p + 1];
        if str_equals(k.as_str(), "Name") {
            st.name = element_text(val);
        } else if str_equals(k.as_str(), "Info") {
            st.info = element_text(val);
        } else if str_equals(k.as_str(), "Flags") {
            let t = element_text(val);
            st.flags = text_i64_exec(&t);
        } else if str_equals(k.as_str(), "Created") {
            st.created = datetime_of(val);
        } else if str_equals(k.as_str(), "Modified") {
            st.modified = datetime_of(val);
        } else if str_equals(k.as_str(), "ImageCorrection") {
            st.correction = image_correction_of(val);
        }
        p = p + 1;
    }
    st
}

/// The settings of the `dict` children of an array, in order.
pub open spec fn settings_list(kids: Seq<XNode>) -> Seq<ImageSettingV>
    decreases kids.len(),
{
    if kids.len() == 0 {
        seq![]
    } else {
        let rest = settings_list(kids.drop_last());
        if elem_name(kids.last()) == Some("dict"@) { rest.push(spec_setting(kids.last())) } else { rest }
    }
}

pub open spec fn settings_view(v: Seq<ImageSetting>) -> Seq<ImageSettingV> {
    v.map_values(|s: ImageSetting| s@)
}

fn settings_of(node: &XmlNode) -> (r: Vec<ImageSetting>)
    ensures
        settings_view(r@) == settings_list(elem_children(nview(*node))),
{
    let kids = children_of(node);
    let ghost kv = nodes_view(kids@);
    let mut out: Vec<ImageSetting> = Vec::new();
    let mut i: usize = 0;
    assert(kv.take(0) =~= seq![]);
    assert(settings_view(out@) =~= seq![]);
    while i < kids.len()
        invariant
            i <= kids@.len(),
            kv == nodes_view(kids@),
            kv == elem_children(nview(*node)),
            settings_view(out@) == settings_list(kv.take(i as int)),
        decreases kids@.len() - i,
    {
        assert(kv.take(i + 1).drop_last() =~= kv.take(i as int));
        assert(kv.take(i + 1).last() == nview(kids@[i as int]));
        if is_element_named(&kids[i], "dict") {
            let st = setting_of(&kids[i]);
            let ghost before = out@;
            out.push(st);
            assert(settings_view(out@) =~= settings_view(before).push(st@));
        }
        i = i + 1;
    }
    assert(kv.take(kids@.len() as int) =~= kv);
    out
}

/// A parsed FlexColor edit history.
#[derive(Debug, Clone)]
pub struct EditHistory {
    /// All settings.
    pub settings: Vec<ImageSetting>,
    /// Index of the current setting.
    pub current_index: usize,
}

pub open spec fn hist_apply(h: (Seq<ImageSettingV>, usize), key: Seq<char>, val: XNode) -> (Seq<ImageSettingV>, usize) {
    if key == "ImageSettings"@ {
        (settings_list(elem_children(val)), h.1)
    } else if key == "CurrentIx"@ {
        match parse_int_spec(elem_text(val), 0, usize::MAX as int) {
            Some(v) => (h.0, v as usize),
            None => h,
        }
    } else {
        h
    }
}

/// The settings and current index from the first `n` pairs of the root
/// dictionary.
pub open spec fn hist_fold(kids: Seq<XNode>, n: nat) -> (Seq<ImageSettingV>, usize)
    decreases n,
{
    if n == 0 {
        (seq![], 0)
    } else {
        hist_apply(hist_fold(kids, (n - 1) as nat), pair_key(kids, n - 1), pair_val(kids, n - 1))
    }
}

/// The edit history of a plist document: the first `dict` element's
/// `ImageSettings` array and `CurrentIx` (default 0); `None` without a
/// `dict` or with no settings.
pub open spec fn spec_history(x: Seq<char>) -> Option<(Seq<ImageSettingV>, usize)> {
    match find_elem(plist_nodes(x), "dict"@) {
        None => None,
        Some(d) => {
            let h = hist_fold(elem_children(d), pair_count(elem_children(d)));
            if h.0.len() == 0 { None } else { Some(h) }
        },
    }
}

pub open spec fn history_view(r: Option<EditHistory>) -> Option<(Seq<ImageSettingV>, usize)> {
    match r {
        Some(h) => Some((settings_view(h.settings@), h.current_index)),
        None => None,
    }
}

/// The first occurrence of `needle` in `hay` at or after `from`.
pub open spec fn first_bytes(hay: Seq<u8>, needle: Seq<u8>, from: int) -> Option<int>
    decreases hay.len() + 1 - from,
{
    if from < 0 || from + needle.len() > hay.len() {
        None
    } else if occurs_at(hay, needle, from) {
        Some(from)
    } else {
        first_bytes(hay, needle, from + 1)
    }
}

proof fn lemma_first_bytes(hay: Seq<u8>, needle: Seq<u8>, from: int, r: Option<usize>)
    requires
        0 <= from,
        is_first_occurrence(hay, needle, from, r),
    ensures
        first_bytes(hay, needle, from) == (match r {
            Some(i) => Some(i as int),
            None => None::<int>,
        }),
    decreases hay.len() + 1 - from,
{
    if from + needle.len() > hay.len() {
        if let Some(i) = r {
            assert(occurs_at(hay, needle, i as int));
        }
    } else if occurs_at(hay, needle, from) {
        if let Some(i) = r {
            if i > from {
                assert(!occurs_at(hay, needle, from));
            }
        }
    } else {
        lemma_first_bytes(hay, needle, from + 1, r);
    }
}

/// The bytes of the plist document inside `d`: from the first `<?xml` to the
/// end of the first `</plist>` after it.
pub open spec fn plist_range(d: Seq<u8>) -> Option<(int, int)> {
    match first_bytes(d, "<?xml"@.map_values(|c: char| c as u8), 0) {
        None => None,
        Some(a) => match first_bytes(d, "</plist>"@.map_values(|c: char| c as u8), a) {
            None => None,
            Some(b) => Some((a, b + 8)),
        },
    }
}

/// The edit history of a byte stream holding a plist document: `None`
/// without one, when its bytes are not UTF-8, or as `spec_history`.
pub open spec fn spec_history_bytes(d: Seq<u8>) -> Option<(Seq<ImageSettingV>, usize)> {
    match plist_range(d) {
        None => None,
        Some((a, b)) => {
            let bytes = d.subrange(a, b);
            if valid_utf8(bytes) { spec_history(decode_utf8(bytes)) } else { None }
        },
    }
}

impl EditHistory {
    /// Reads the edit history of a plist document.
    pub fn parse_xml(xml: &str) -> (r: Option<Self>)
        ensures
            history_view(r) == spec_history(xml@),
    {
        let nodes = parse_plist_nodes(xml);
        let dict = match find_element(&nodes, "dict") {
            Some(d) => d,
            None => {
                return None;
            },
        };
        let kids = children_of(dict);
        let ghost kv = nodes_view(kids@);
        let mut settings: Vec<ImageSetting> = Vec::new();
        let mut current_index: usize = 0;
        let mut p: usize = 0;
        assert(settings_view(settings@) =~= seq![]);
        while p < kids.len() / 2
            invariant
                p <= kids@.len() / 2,
                kv == nodes_view(kids@),
                (settings_view(settings@), current_index) == hist_fold(kv, p as nat),
            decreases kids@.len() / 2 - p,
        {
            let k = element_text(&kids[2 * p]);
            let val = &kids[2 * p + 1];
            if str_equals(k.as_str(), "ImageSettings") {
                settings = settings_of(val);
            } else if str_equals(k.as_str(), "CurrentIx") {
                let t = element_text(val);
                let v = chars_of(t.as_str());
                assert(v@.subrange(0, v@.len() as int) =~= t@);
                match parse_int(v.as_slice(), 0, v.len(), 0, usize::MAX as i128) {
                    Some(x) => {
                        current_index = x as usize;
                    },
                    None => {},
                }
            }
            p = p + 1;
        }
        if settings.len() == 0 {
            return None;
        }
        Some(EditHistory { settings, current_index })
    }

    /// Reads the edit history from bytes that hold a plist document (tag
    /// 0xC519's data or a whole file), as `spec_history_bytes`.
    pub fn parse(data: &[u8]) -> (r: Option<Self>)
        ensures
            history_view(r) == spec_history_bytes(data@),
    {
        let start = [0x3Cu8, 0x3F, 0x78, 0x6D, 0x6C];
        let end = [0x3Cu8, 0x2F, 0x70, 0x6C, 0x69, 0x73, 0x74, 0x3E];
        proof {
            reveal_strlit("<?xml");
            reveal_strlit("</plist>");
            assert(start@ =~= "<?xml"@.map_values(|c: char| c as u8));
            assert(end@ =~= "</plist>"@.map_values(|c: char| c as u8));
        }
        let a = find_bytes_from(data, start.as_slice(), 0);
        proof {
            lemma_first_bytes(data@, start@, 0, a);
        }
        let a = match a {
            Some(a) => a,
            None => {
                return None;
            },
        };
        let b = find_bytes_from(data, end.as_slice(), a);
        proof {
            lemma_first_bytes(data@, end@, a as int, b);
        }
        let b = match b {
            Some(b) => b,
            None => {
                return None;
            },
        };
        assert(occurs_at(data@, end@, b as int));
        assert(b + 8 <= data@.len());
        assert(data@.len() == data.len());
        let bytes = crate::tiff::copy_bytes(data, a, b + 8);
        match string_from_utf8(bytes.as_slice()) {
            Some(xml) => Self::parse_xml(xml.as_str()),
            None => None,
        }
    }

    /// Reads the edit history from a whole file's bytes.
    pub fn parse_from_file(data: &[u8]) -> (r: Option<Self>)
        ensures
            history_view(r) == spec_history_bytes(data@),
    {
        Self::parse(data)
    }

    /// Reads the edit history of a parsed file: from the settings text of tag
    /// 0xC519 when there is one, otherwise by searching the file bytes.
    pub fn parse_from_tiff(tiff: &TiffFile) -> (r: Option<Self>)
        ensures
            history_view(r) == (match spec_settings_xml(ifds_view(tiff.ifds@)) {
                Some(x) => spec_history(x),
                None => spec_history_bytes(tiff.data@),
            }),
    {
        match tiff.settings_xml() {
            Some(xml) => Self::parse_xml(xml.as_str()),
            None => Self::parse(tiff.raw_data()),
        }
    }
}

/// The `ImageCorrection` value of an `ImageSetting` dictionary, from pair `p`
/// on.
pub open spec fn correction_from(kids: Seq<XNode>, p: nat) -> Option<ImageCorrectionV>
    decreases pair_count(kids) - p,
{
    if p >= pair_count(kids) {
        None
    } else if pair_key(kids, p as int) == "ImageCorrection"@ {
        Some(spec_image_correction(pair_val(kids, p as int)))
    } else {
        correction_from(kids, p + 1)
    }
}

/// The first `ImageCorrection` of an `ImageSetting` entry of the root
/// dictionary, from pair `p` on.
pub open spec fn preset_from(kids: Seq<XNode>, p: nat) -> Option<ImageCorrectionV>
    decreases pair_count(kids) - p,
{
    if p >= pair_count(kids) {
        None
    } else if pair_key(kids, p as int) == "ImageSetting"@ {
        match correction_from(elem_children(pair_val(kids, p as int)), 0) {
            Some(c) => Some(c),
            None => preset_from(kids, p + 1),
        }
    } else {
        preset_from(kids, p + 1)
    }
}

/// The image correction of a settings preset document.
pub open spec fn spec_settings_preset(x: Seq<char>) -> Option<ImageCorrectionV> {
    match find_elem(plist_nodes(x), "dict"@) {
        None => None,
        Some(d) => preset_from(elem_children(d), 0),
    }
}

fn correction_in(node: &XmlNode) -> (r: Option<ImageCorrection>)
    ensures
        (match r { Some(c) => Some(c@), None => None }) == correction_from(elem_children(nview(*node)), 0),
{
    let kids = children_of(node);
    let ghost kv = nodes_view(kids@);
    let mut p: usize = 0;
    while p < kids.len() / 2
        invariant
            p <= kids@.len() / 2,
            kv == nodes_view(kids@),
            correction_from(elem_children(nview(*node)), 0) == correction_from(kv, p as nat),
        decreases kids@.len() / 2 - p,
    {
        let k = element_text(&kids[2 * p]);
        if str_equals(k.as_str(), "ImageCorrection") {
            return Some(image_correction_of(&kids[2 * p + 1]));
        }
        p = p + 1;
    }
    None
}

/// Reads the image correction of a FlexColor settings preset (a plist whose
/// root dictionary holds `ImageSetting` → `ImageCorrection`).
pub fn parse_settings_xml(xml: &str) -> (r: Option<ImageCorrection>)
    ensures
        (match r { Some(c) => Some(c@), None => None }) == spec_settings_preset(xml@),
{
    let nodes = parse_plist_nodes(xml);
    let root = match find_element(&nodes, "dict") {
        Some(d) => d,
        None => {
            return None;
        },
    };
    let kids = children_of(root);
    let ghost kv = nodes_view(kids@);
    let mut p: usize = 0;
    while p < kids.len() / 2
        invariant
            p <= kids@.len() / 2,
            kv == nodes_view(kids@),
            spec_settings_preset(xml@) == preset_from(kv, p as nat),
        decreases kids@.len() / 2 - p,
    {
        let k = element_text(&kids[2 * p]);
        if str_equals(k.as_str(), "ImageSetting") {
            match correction_in(&kids[2 * p + 1]) {
                Some(c) => {
                    return Some(c);
                },
                None => {},
            }
        }
        p = p + 1;
    }
    None
}

/// An entry of one of the level keys `Shadow`, `Gray` or `Highlight` whose
/// value is an array of four integers `[a, b, c, d]` sets those levels to
/// `[a, b, c, d]` and changes no other parameter (its text is only added to
/// the raw parameter list).
pub proof fn lemma_level_entry(c: ImageCorrectionV, key: Seq<char>, name: Seq<char>, kids: Seq<XNode>, vals: Seq<i64>)
    requires
        key == "Shadow"@ || key == "Gray"@ || key == "Highlight"@,
        kids.len() == 4,
        vals.len() == 4,
        forall|i: int|
            0 <= i < 4 ==> parse_int_spec(elem_text(#[trigger] kids[i]), i64::MIN as int, i64::MAX as int) == Some(
                vals[i] as int,
            ),
    ensures
        ({
            let r = corr_apply(c, key, XNode::Element(name, kids));
            &&& key == "Shadow"@ ==> r == ImageCorrectionV { shadow: vals, raw_params: r.raw_params, ..c }
            &&& key == "Gray"@ ==> r == ImageCorrectionV { gray: vals, raw_params: r.raw_params, ..c }
            &&& key == "Highlight"@ ==> r == ImageCorrectionV { highlight: vals, raw_params: r.raw_params, ..c }
            &&& key == "Highlight"@ ==> r.highlight == vals && r.gray == c.gray && r.shadow == c.shadow
        }),
{
    lemma_highlight_key();
    lemma_gray_key();
    lemma_shadow_key();
    let val = XNode::Element(name, kids);
    assert(elem_children(val) == kids);
    lemma_int_list_all(kids, vals);
    assert(first4(vals) =~= vals);
}

/// `Highlight` is none of the other keys of an `ImageCorrection` dictionary.
proof fn lemma_highlight_key()
    ensures
        "Highlight"@ != "ApplyCC"@,
        "Highlight"@ != "ApplyCNFilter"@,
        "Highlight"@ != "ApplyCurves"@,
        "Highlight"@ != "ApplyDust"@,
        "Highlight"@ != "ApplyHistogram"@,
        "Highlight"@ != "ApplySliders"@,
        "Highlight"@ != "ApplyUSM"@,
        "Highlight"@ != "AutoHighlight"@,
        "Highlight"@ != "AutoShadow"@,
        "Highlight"@ != "Brightness"@,
        "Highlight"@ != "ColorCorr"@,
        "Highlight"@ != "ColorModel"@,
        "Highlight"@ != "ColorNoiseRadius"@,
        "Highlight"@ != "ColorTemperature"@,
        "Highlight"@ != "Contrast"@,
        "Highlight"@ != "Convert"@,
        "Highlight"@ != "DustLevel"@,
        "Highlight"@ != "EV"@,
        "Highlight"@ != "EmbedProfile"@,
        "Highlight"@ != "EnhancedShadow"@,
        "Highlight"@ != "FilmCurve"@,
        "Highlight"@ != "FilmType"@,
        "Highlight"@ != "Gamma"@,
        "Highlight"@ != "GradationSliders"@,
        "Highlight"@ != "Gradations"@,
        "Highlight"@ != "Gray"@,
        "Highlight"@ != "InputProfile"@,
        "Highlight"@ != "LensCorrection"@,
        "Highlight"@ != "Lightness"@,
        "Highlight"@ != "Mode"@,
        "Highlight"@ != "NoiseFilterBias"@,
        "Highlight"@ != "RGBProfile"@,
        "Highlight"@ != "RemoveCastHighlight"@,
        "Highlight"@ != "RemoveCastShadow"@,
        "Highlight"@ != "Saturation"@,
        "Highlight"@ != "Shadow"@,
        "Highlight"@ != "SoftProof"@,
        "Highlight"@ != "Threshold"@,
        "Highlight"@ != "Tint"@,
        "Highlight"@ != "USMAmount"@,
        "Highlight"@ != "USMColFactor"@,
        "Highlight"@ != "USMDarkLimit"@,
        "Highlight"@ != "USMNoiseLimit"@,
        "Highlight"@ != "USMRadius"@,
        "Highlight"@ != "VignetteAmount"@,
        "Highlight"@ != "streamableVersion"@,
{
    assert("Highlight"@ != "ApplyCC"@) by {
        reveal_strlit("Highlight");
        reveal_strlit("ApplyCC");
        assert("Highlight"@.len() != "ApplyCC"@.len());
    }
    assert("Highlight"@ != "ApplyCNFilter"@) by {
        reveal_strlit("Highlight");
        reveal_strlit("ApplyCNFilter");
        assert("Highlight"@.len() != "ApplyCNFilter"@.len());
    }
    assert("Highlight"@ != "ApplyCurves"@) by {
        reveal_strlit("Highlight");
        reveal_strlit("ApplyCurves");
        assert("Highlight"@.len() != "ApplyCurves"@.len());
    }
    assert("Highlight"@ != "ApplyDust"@) by {
        reveal_strlit("Highlight");
        reveal_strlit("ApplyDust");
        assert("Highlight"@[0] != "ApplyDust"@[0]);
    }
    assert("Highlight"@ != "ApplyHistogram"@) by {
        reveal_strlit("Highlight");
        reveal_strlit("ApplyHistogram");
        assert("Highlight"@.len() != "ApplyHistogram"@.len());
    }
    assert("Highlight"@ != "ApplySliders"@) by {
        reveal_strlit("Highlight");
        reveal_strlit("ApplySliders");
        assert("Highlight"@.len() != "ApplySliders"@.len());
    }
    assert("Highlight"@ != "ApplyUSM"@) by {
        reveal_strlit("Highlight");
        reveal_strlit("ApplyUSM");
        assert("Highlight"@.len() != "ApplyUSM"@.len());
    }
    assert("Highlight"@ != "AutoHighlight"@) by {
        reveal_strlit("Highlight");
        reveal_strlit("AutoHighlight");
        assert("Highlight"@.len() != "AutoHighlight"@.len());
    }
    assert("Highlight"@ != "AutoShadow"@) by {
        reveal_strlit("Highlight");
        reveal_strlit("AutoShadow");
        assert("Highlight"@.len() != "AutoShadow"@.len());
    }
    assert("Highlight"@ != "Brightness"@) by {
        reveal_strlit("Highlight");
        reveal_strlit("Brightness");
        assert("Highlight"@.len() != "Brightness"@.len());
    }
    assert("Highlight"@ != "ColorCorr"@) by {
        reveal_strlit("Highlight");
        reveal_strlit("ColorCorr");
        assert("Highlight"@[0] != "ColorCorr"@[0]);
    }
    assert("Highlight"@ != "ColorModel"@) by {
        reveal_strlit("Highlight");
        reveal_strlit("ColorModel");
        assert("Highlight"@.len() != "ColorModel"@.len());
    }
    assert("Highlight"@ != "ColorNoiseRadius"@) by {
        reveal_strlit("Highlight");
        reveal_strlit("ColorNoiseRadius");
        assert("Highlight"@.len() != "ColorNoiseRadius"@.len());
    }
    assert("Highlight"@ != "ColorTemperature"@) by {
        reveal_strlit("Highlight");
        reveal_strlit("ColorTemperature");
        assert("Highlight"@.len() != "ColorTemperature"@.len());
    }
    assert("Highlight"@ != "Contrast"@) by {
        reveal_strlit("Highlight");
        reveal_strlit("Contrast");
        assert("Highlight"@.len() != "Contrast"@.len());
    }
    assert("Highlight"@ != "Convert"@) by {
        reveal_strlit("Highlight");
        reveal_strlit("Convert");
        assert("Highlight"@.len() != "Convert"@.len());
    }
    assert("Highlight"@ != "DustLevel"@) by {
        reveal_strlit("Highlight");
        reveal_strlit("DustLevel");
        assert("Highlight"@[0] != "DustLevel"@[0]);
    }
    assert("Highlight"@ != "EV"@) by {
        reveal_strlit("Highlight");
        reveal_strlit("EV");
        assert("Highlight"@.len() != "EV"@.len());
    }
    assert("Highlight"@ != "EmbedProfile"@) by {
        reveal_strlit("Highlight");
        reveal_strlit("EmbedProfile");
        assert("Highlight"@.len() != "EmbedProfile"@.len());
    }
    assert("Highlight"@ != "EnhancedShadow"@) by {
        reveal_strlit("Highlight");
        reveal_strlit("EnhancedShadow");
        assert("Highlight"@.len() != "EnhancedShadow"@.len());
    }
    assert("Highlight"@ != "FilmCurve"@) by {
        reveal_strlit("Highlight");
        reveal_strlit("FilmCurve");
        assert("Highlight"@[0] != "FilmCurve"@[0]);
    }
    assert("Highlight"@ != "FilmType"@) by {
        reveal_strlit("Highlight");
        reveal_strlit("FilmType");
        assert("Highlight"@.len() != "FilmType"@.len());
    }
    assert("Highlight"@ != "Gamma"@) by {
        reveal_strlit("Highlight");
        reveal_strlit("Gamma");
        assert("Highlight"@.len() != "Gamma"@.len());
    }
    assert("Highlight"@ != "GradationSliders"@) by {
        reveal_strlit("Highlight");
        reveal_strlit("GradationSliders");
        assert("Highlight"@.len() != "GradationSliders"@.len());
    }
    assert("Highlight"@ != "Gradations"@) by {
        reveal_strlit("Highlight");
        reveal_strlit("Gradations");
        assert("Highlight"@.len() != "Gradations"@.len());
    }
    assert("Highlight"@ != "Gray"@) by {
        reveal_strlit("Highlight");
        reveal_strlit("Gray");
        assert("Highlight"@.len() != "Gray"@.len());
    }
    assert("Highlight"@ != "InputProfile"@) by {
        reveal_strlit("Highlight");
        reveal_strlit("InputProfile");
        assert("Highlight"@.len() != "InputProfile"@.len());
    }
    assert("Highlight"@ != "LensCorrection"@) by {
        reveal_strlit("Highlight");
        reveal_strlit("LensCorrection");
        assert("Highlight"@.len() != "LensCorrection"@.len());
    }
    assert("Highlight"@ != "Lightness"@) by {
        reveal_strlit("Highlight");
        reveal_strlit("Lightness");
        assert("Highlight"@[0] != "Lightness"@[0]);
    }
    assert("Highlight"@ != "Mode"@) by {
        reveal_strlit("Highlight");
        reveal_strlit("Mode");
        assert("Highlight"@.len() != "Mode"@.len());
    }
    assert("Highlight"@ != "NoiseFilterBias"@) by {
        reveal_strlit("Highlight");
        reveal_strlit("NoiseFilterBias");
        assert("Highlight"@.len() != "NoiseFilterBias"@.len());
    }
    assert("Highlight"@ != "RGBProfile"@) by {
        reveal_strlit("Highlight");
        reveal_strlit("RGBProfile");
        assert("Highlight"@.len() != "RGBProfile"@.len());
    }
    assert("Highlight"@ != "RemoveCastHighlight"@) by {
        reveal_strlit("Highlight");
        reveal_strlit("RemoveCastHighlight");
        assert("Highlight"@.len() != "RemoveCastHighlight"@.len());
    }
    assert("Highlight"@ != "RemoveCastShadow"@) by {
        reveal_strlit("Highlight");
        reveal_strlit("RemoveCastShadow");
        assert("Highlight"@.len() != "RemoveCastShadow"@.len());
    }
    assert("Highlight"@ != "Saturation"@) by {
        reveal_strlit("Highlight");
        reveal_strlit("Saturation");
        assert("Highlight"@.len() != "Saturation"@.len());
    }
    assert("Highlight"@ != "Shadow"@) by {
        reveal_strlit("Highlight");
        reveal_strlit("Shadow");
        assert("Highlight"@.len() != "Shadow"@.len());
    }
    assert("Highlight"@ != "SoftProof"@) by {
        reveal_strlit("Highlight");
        reveal_strlit("SoftProof");
        assert("Highlight"@[0] != "SoftProof"@[0]);
    }
    assert("Highlight"@ != "Threshold"@) by {
        reveal_strlit("Highlight");
        reveal_strlit("Threshold");
        assert("Highlight"@[0] != "Threshold"@[0]);
    }
    assert("Highlight"@ != "Tint"@) by {
        reveal_strlit("Highlight");
        reveal_strlit("Tint");
        assert("Highlight"@.len() != "Tint"@.len());
    }
    assert("Highlight"@ != "USMAmount"@) by {
        reveal_strlit("Highlight");
        reveal_strlit("USMAmount");
        assert("Highlight"@[0] != "USMAmount"@[0]);
    }
    assert("Highlight"@ != "USMColFactor"@) by {
        reveal_strlit("Highlight");
        reveal_strlit("USMColFactor");
        assert("Highlight"@.len() != "USMColFactor"@.len());
    }
    assert("Highlight"@ != "USMDarkLimit"@) by {
        reveal_strlit("Highlight");
        reveal_strlit("USMDarkLimit");
        assert("Highlight"@.len() != "USMDarkLimit"@.len());
    }
    assert("Highlight"@ != "USMNoiseLimit"@) by {
        reveal_strlit("Highlight");
        reveal_strlit("USMNoiseLimit");
        assert("Highlight"@.len() != "USMNoiseLimit"@.len());
    }
    assert("Highlight"@ != "USMRadius"@) by {
        reveal_strlit("Highlight");
        reveal_strlit("USMRadius");
        assert("Highlight"@[0] != "USMRadius"@[0]);
    }
    assert("Highlight"@ != "VignetteAmount"@) by {
        reveal_strlit("Highlight");
        reveal_strlit("VignetteAmount");
        assert("Highlight"@.len() != "VignetteAmount"@.len());
    }
    assert("Highlight"@ != "streamableVersion"@) by {
        reveal_strlit("Highlight");
        reveal_strlit("streamableVersion");
        assert("Highlight"@.len() != "streamableVersion"@.len());
    }
}

/// `Gray` is none of the other keys of an `ImageCorrection` dictionary.
proof fn lemma_gray_key()
    ensures
        "Gray"@ != "ApplyCC"@,
        "Gray"@ != "ApplyCNFilter"@,
        "Gray"@ != "ApplyCurves"@,
        "Gray"@ != "ApplyDust"@,
        "Gray"@ != "ApplyHistogram"@,
        "Gray"@ != "ApplySliders"@,
        "Gray"@ != "ApplyUSM"@,
        "Gray"@ != "AutoHighlight"@,
        "Gray"@ != "AutoShadow"@,
        "Gray"@ != "Brightness"@,
        "Gray"@ != "ColorCorr"@,
        "Gray"@ != "ColorModel"@,
        "Gray"@ != "ColorNoiseRadius"@,
        "Gray"@ != "ColorTemperature"@,
        "Gray"@ != "Contrast"@,
        "Gray"@ != "Convert"@,
        "Gray"@ != "DustLevel"@,
        "Gray"@ != "EV"@,
        "Gray"@ != "EmbedProfile"@,
        "Gray"@ != "EnhancedShadow"@,
        "Gray"@ != "FilmCurve"@,
        "Gray"@ != "FilmType"@,
        "Gray"@ != "Gamma"@,
        "Gray"@ != "GradationSliders"@,
        "Gray"@ != "Gradations"@,
        "Gray"@ != "Highlight"@,
        "Gray"@ != "InputProfile"@,
        "Gray"@ != "LensCorrection"@,
        "Gray"@ != "Lightness"@,
        "Gray"@ != "Mode"@,
        "Gray"@ != "NoiseFilterBias"@,
        "Gray"@ != "RGBProfile"@,
        "Gray"@ != "RemoveCastHighlight"@,
        "Gray"@ != "RemoveCastShadow"@,
        "Gray"@ != "Saturation"@,
        "Gray"@ != "Shadow"@,
        "Gray"@ != "SoftProof"@,
        "Gray"@ != "Threshold"@,
        "Gray"@ != "Tint"@,
        "Gray"@ != "USMAmount"@,
        "Gray"@ != "USMColFactor"@,
        "Gray"@ != "USMDarkLimit"@,
        "Gray"@ != "USMNoiseLimit"@,
        "Gray"@ != "USMRadius"@,
        "Gray"@ != "VignetteAmount"@,
        "Gray"@ != "streamableVersion"@,
{
    assert("Gray"@ != "ApplyCC"@) by {
        reveal_strlit("Gray");
        reveal_strlit("ApplyCC");
        assert("Gray"@.len() != "ApplyCC"@.len());
    }
    assert("Gray"@ != "ApplyCNFilter"@) by {
        reveal_strlit("Gray");
        reveal_strlit("ApplyCNFilter");
        assert("Gray"@.len() != "ApplyCNFilter"@.len());
    }
    assert("Gray"@ != "ApplyCurves"@) by {
        reveal_strlit("Gray");
        reveal_strlit("ApplyCurves");
        assert("Gray"@.len() != "ApplyCurves"@.len());
    }
    assert("Gray"@ != "ApplyDust"@) by {
        reveal_strlit("Gray");
        reveal_strlit("ApplyDust");
        assert("Gray"@.len() != "ApplyDust"@.len());
    }
    assert("Gray"@ != "ApplyHistogram"@) by {
        reveal_strlit("Gray");
        reveal_strlit("ApplyHistogram");
        assert("Gray"@.len() != "ApplyHistogram"@.len());
    }
    assert("Gray"@ != "ApplySliders"@) by {
        reveal_strlit("Gray");
        reveal_strlit("ApplySliders");
        assert("Gray"@.len() != "ApplySliders"@.len());
    }
    assert("Gray"@ != "ApplyUSM"@) by {
        reveal_strlit("Gray");
        reveal_strlit("ApplyUSM");
        assert("Gray"@.len() != "ApplyUSM"@.len());
    }
    assert("Gray"@ != "AutoHighlight"@) by {
        reveal_strlit("Gray");
        reveal_strlit("AutoHighlight");
        assert("Gray"@.len() != "AutoHighlight"@.len());
    }
    assert("Gray"@ != "AutoShadow"@) by {
        reveal_strlit("Gray");
        reveal_strlit("AutoShadow");
        assert("Gray"@.len() != "AutoShadow"@.len());
    }
    assert("Gray"@ != "Brightness"@) by {
        reveal_strlit("Gray");
        reveal_strlit("Brightness");
        assert("Gray"@.len() != "Brightness"@.len());
    }
    assert("Gray"@ != "ColorCorr"@) by {
        reveal_strlit("Gray");
        reveal_strlit("ColorCorr");
        assert("Gray"@.len() != "ColorCorr"@.len());
    }
    assert("Gray"@ != "ColorModel"@) by {
        reveal_strlit("Gray");
        reveal_strlit("ColorModel");
        assert("Gray"@.len() != "ColorModel"@.len());
    }
    assert("Gray"@ != "ColorNoiseRadius"@) by {
        reveal_strlit("Gray");
        reveal_strlit("ColorNoiseRadius");
        assert("Gray"@.len() != "ColorNoiseRadius"@.len());
    }
    assert("Gray"@ != "ColorTemperature"@) by {
        reveal_strlit("Gray");
        reveal_strlit("ColorTemperature");
        assert("Gray"@.len() != "ColorTemperature"@.len());
    }
    assert("Gray"@ != "Contrast"@) by {
        reveal_strlit("Gray");
        reveal_strlit("Contrast");
        assert("Gray"@.len() != "Contrast"@.len());
    }
    assert("Gray"@ != "Convert"@) by {
        reveal_strlit("Gray");
        reveal_strlit("Convert");
        assert("Gray"@.len() != "Convert"@.len());
    }
    assert("Gray"@ != "DustLevel"@) by {
        reveal_strlit("Gray");
        reveal_strlit("DustLevel");
        assert("Gray"@.len() != "DustLevel"@.len());
    }
    assert("Gray"@ != "EV"@) by {
        reveal_strlit("Gray");
        reveal_strlit("EV");
        assert("Gray"@.len() != "EV"@.len());
    }
    assert("Gray"@ != "EmbedProfile"@) by {
        reveal_strlit("Gray");
        reveal_strlit("EmbedProfile");
        assert("Gray"@.len() != "EmbedProfile"@.len());
    }
    assert("Gray"@ != "EnhancedShadow"@) by {
        reveal_strlit("Gray");
        reveal_strlit("EnhancedShadow");
        assert("Gray"@.len() != "EnhancedShadow"@.len());
    }
    assert("Gray"@ != "FilmCurve"@) by {
        reveal_strlit("Gray");
        reveal_strlit("FilmCurve");
        assert("Gray"@.len() != "FilmCurve"@.len());
    }
    assert("Gray"@ != "FilmType"@) by {
        reveal_strlit("Gray");
        reveal_strlit("FilmType");
        assert("Gray"@.len() != "FilmType"@.len());
    }
    assert("Gray"@ != "Gamma"@) by {
        reveal_strlit("Gray");
        reveal_strlit("Gamma");
        assert("Gray"@.len() != "Gamma"@.len());
    }
    assert("Gray"@ != "GradationSliders"@) by {
        reveal_strlit("Gray");
        reveal_strlit("GradationSliders");
        assert("Gray"@.len() != "GradationSliders"@.len());
    }
    assert("Gray"@ != "Gradations"@) by {
        reveal_strlit("Gray");
        reveal_strlit("Gradations");
        assert("Gray"@.len() != "Gradations"@.len());
    }
    assert("Gray"@ != "Highlight"@) by {
        reveal_strlit("Gray");
        reveal_strlit("Highlight");
        assert("Gray"@.len() != "Highlight"@.len());
    }
    assert("Gray"@ != "InputProfile"@) by {
        reveal_strlit("Gray");
        reveal_strlit("InputProfile");
        assert("Gray"@.len() != "InputProfile"@.len());
    }
    assert("Gray"@ != "LensCorrection"@) by {
        reveal_strlit("Gray");
        reveal_strlit("LensCorrection");
        assert("Gray"@.len() != "LensCorrection"@.len());
    }
    assert("Gray"@ != "Lightness"@) by {
        reveal_strlit("Gray");
        reveal_strlit("Lightness");
        assert("Gray"@.len() != "Lightness"@.len());
    }
    assert("Gray"@ != "Mode"@) by {
        reveal_strlit("Gray");
        reveal_strlit("Mode");
        assert("Gray"@[0] != "Mode"@[0]);
    }
    assert("Gray"@ != "NoiseFilterBias"@) by {
        reveal_strlit("Gray");
        reveal_strlit("NoiseFilterBias");
        assert("Gray"@.len() != "NoiseFilterBias"@.len());
    }
    assert("Gray"@ != "RGBProfile"@) by {
        reveal_strlit("Gray");
        reveal_strlit("RGBProfile");
        assert("Gray"@.len() != "RGBProfile"@.len());
    }
    assert("Gray"@ != "RemoveCastHighlight"@) by {
        reveal_strlit("Gray");
        reveal_strlit("RemoveCastHighlight");
        assert("Gray"@.len() != "RemoveCastHighlight"@.len());
    }
    assert("Gray"@ != "RemoveCastShadow"@) by {
        reveal_strlit("Gray");
        reveal_strlit("RemoveCastShadow");
        assert("Gray"@.len() != "RemoveCastShadow"@.len());
    }
    assert("Gray"@ != "Saturation"@) by {
        reveal_strlit("Gray");
        reveal_strlit("Saturation");
        assert("Gray"@.len() != "Saturation"@.len());
    }
    assert("Gray"@ != "Shadow"@) by {
        reveal_strlit("Gray");
        reveal_strlit("Shadow");
        assert("Gray"@.len() != "Shadow"@.len());
    }
    assert("Gray"@ != "SoftProof"@) by {
        reveal_strlit("Gray");
        reveal_strlit("SoftProof");
        assert("Gray"@.len() != "SoftProof"@.len());
    }
    assert("Gray"@ != "Threshold"@) by {
        reveal_strlit("Gray");
        reveal_strlit("Threshold");
        assert("Gray"@.len() != "Threshold"@.len());
    }
    assert("Gray"@ != "Tint"@) by {
        reveal_strlit("Gray");
        reveal_strlit("Tint");
        assert("Gray"@[0] != "Tint"@[0]);
    }
    assert("Gray"@ != "USMAmount"@) by {
        reveal_strlit("Gray");
        reveal_strlit("USMAmount");
        assert("Gray"@.len() != "USMAmount"@.len());
    }
    assert("Gray"@ != "USMColFactor"@) by {
        reveal_strlit("Gray");
        reveal_strlit("USMColFactor");
        assert("Gray"@.len() != "USMColFactor"@.len());
    }
    assert("Gray"@ != "USMDarkLimit"@) by {
        reveal_strlit("Gray");
        reveal_strlit("USMDarkLimit");
        assert("Gray"@.len() != "USMDarkLimit"@.len());
    }
    assert("Gray"@ != "USMNoiseLimit"@) by {
        reveal_strlit("Gray");
        reveal_strlit("USMNoiseLimit");
        assert("Gray"@.len() != "USMNoiseLimit"@.len());
    }
    assert("Gray"@ != "USMRadius"@) by {
        reveal_strlit("Gray");
        reveal_strlit("USMRadius");
        assert("Gray"@.len() != "USMRadius"@.len());
    }
    assert("Gray"@ != "VignetteAmount"@) by {
        reveal_strlit("Gray");
        reveal_strlit("VignetteAmount");
        assert("Gray"@.len() != "VignetteAmount"@.len());
    }
    assert("Gray"@ != "streamableVersion"@) by {
        reveal_strlit("Gray");
        reveal_strlit("streamableVersion");
        assert("Gray"@.len() != "streamableVersion"@.len());
    }
}

/// `Shadow` is none of the other keys of an `ImageCorrection` dictionary.
proof fn lemma_shadow_key()
    ensures
        "Shadow"@ != "ApplyCC"@,
        "Shadow"@ != "ApplyCNFilter"@,
        "Shadow"@ != "ApplyCurves"@,
        "Shadow"@ != "ApplyDust"@,
        "Shadow"@ != "ApplyHistogram"@,
        "Shadow"@ != "ApplySliders"@,
        "Shadow"@ != "ApplyUSM"@,
        "Shadow"@ != "AutoHighlight"@,
        "Shadow"@ != "AutoShadow"@,
        "Shadow"@ != "Brightness"@,
        "Shadow"@ != "ColorCorr"@,
        "Shadow"@ != "ColorModel"@,
        "Shadow"@ != "ColorNoiseRadius"@,
        "Shadow"@ != "ColorTemperature"@,
        "Shadow"@ != "Contrast"@,
        "Shadow"@ != "Convert"@,
        "Shadow"@ != "DustLevel"@,
        "Shadow"@ != "EV"@,
        "Shadow"@ != "EmbedProfile"@,
        "Shadow"@ != "EnhancedShadow"@,
        "Shadow"@ != "FilmCurve"@,
        "Shadow"@ != "FilmType"@,
        "Shadow"@ != "Gamma"@,
        "Shadow"@ != "GradationSliders"@,
        "Shadow"@ != "Gradations"@,
        "Shadow"@ != "Gray"@,
        "Shadow"@ != "Highlight"@,
        "Shadow"@ != "InputProfile"@,
        "Shadow"@ != "LensCorrection"@,
        "Shadow"@ != "Lightness"@,
        "Shadow"@ != "Mode"@,
        "Shadow"@ != "NoiseFilterBias"@,
        "Shadow"@ != "RGBProfile"@,
        "Shadow"@ != "RemoveCastHighlight"@,
        "Shadow"@ != "RemoveCastShadow"@,
        "Shadow"@ != "Saturation"@,
        "Shadow"@ != "SoftProof"@,
        "Shadow"@ != "Threshold"@,
        "Shadow"@ != "Tint"@,
        "Shadow"@ != "USMAmount"@,
        "Shadow"@ != "USMColFactor"@,
        "Shadow"@ != "USMDarkLimit"@,
        "Shadow"@ != "USMNoiseLimit"@,
        "Shadow"@ != "USMRadius"@,
        "Shadow"@ != "VignetteAmount"@,
        "Shadow"@ != "streamableVersion"@,
{
    assert("Shadow"@ != "ApplyCC"@) by {
        reveal_strlit("Shadow");
        reveal_strlit("ApplyCC");
        assert("Shadow"@.len() != "ApplyCC"@.len());
    }
    assert("Shadow"@ != "ApplyCNFilter"@) by {
        reveal_strlit("Shadow");
        reveal_strlit("ApplyCNFilter");
        assert("Shadow"@.len() != "ApplyCNFilter"@.len());
    }
    assert("Shadow"@ != "ApplyCurves"@) by {
        reveal_strlit("Shadow");
        reveal_strlit("ApplyCurves");
        assert("Shadow"@.len() != "ApplyCurves"@.len());
    }
    assert("Shadow"@ != "ApplyDust"@) by {
        reveal_strlit("Shadow");
        reveal_strlit("ApplyDust");
        assert("Shadow"@.len() != "ApplyDust"@.len());
    }
    assert("Shadow"@ != "ApplyHistogram"@) by {
        reveal_strlit("Shadow");
        reveal_strlit("ApplyHistogram");
        assert("Shadow"@.len() != "ApplyHistogram"@.len());
    }
    assert("Shadow"@ != "ApplySliders"@) by {
        reveal_strlit("Shadow");
        reveal_strlit("ApplySliders");
        assert("Shadow"@.len() != "ApplySliders"@.len());
    }
    assert("Shadow"@ != "ApplyUSM"@) by {
        reveal_strlit("Shadow");
        reveal_strlit("ApplyUSM");
        assert("Shadow"@.len() != "ApplyUSM"@.len());
    }
    assert("Shadow"@ != "AutoHighlight"@) by {
        reveal_strlit("Shadow");
        reveal_strlit("AutoHighlight");
        assert("Shadow"@.len() != "AutoHighlight"@.len());
    }
    assert("Shadow"@ != "AutoShadow"@) by {
        reveal_strlit("Shadow");
        reveal_strlit("AutoShadow");
        assert("Shadow"@.len() != "AutoShadow"@.len());
    }
    assert("Shadow"@ != "Brightness"@) by {
        reveal_strlit("Shadow");
        reveal_strlit("Brightness");
        assert("Shadow"@.len() != "Brightness"@.len());
    }
    assert("Shadow"@ != "ColorCorr"@) by {
        reveal_strlit("Shadow");
        reveal_strlit("ColorCorr");
        assert("Shadow"@.len() != "ColorCorr"@.len());
    }
    assert("Shadow"@ != "ColorModel"@) by {
        reveal_strlit("Shadow");
        reveal_strlit("ColorModel");
        assert("Shadow"@.len() != "ColorModel"@.len());
    }
    assert("Shadow"@ != "ColorNoiseRadius"@) by {
        reveal_strlit("Shadow");
        reveal_strlit("ColorNoiseRadius");
        assert("Shadow"@.len() != "ColorNoiseRadius"@.len());
    }
    assert("Shadow"@ != "ColorTemperature"@) by {
        reveal_strlit("Shadow");
        reveal_strlit("ColorTemperature");
        assert("Shadow"@.len() != "ColorTemperature"@.len());
    }
    assert("Shadow"@ != "Contrast"@) by {
        reveal_strlit("Shadow");
        reveal_strlit("Contrast");
        assert("Shadow"@.len() != "Contrast"@.len());
    }
    assert("Shadow"@ != "Convert"@) by {
        reveal_strlit("Shadow");
        reveal_strlit("Convert");
        assert("Shadow"@.len() != "Convert"@.len());
    }
    assert("Shadow"@ != "DustLevel"@) by {
        reveal_strlit("Shadow");
        reveal_strlit("DustLevel");
        assert("Shadow"@.len() != "DustLevel"@.len());
    }
    assert("Shadow"@ != "EV"@) by {
        reveal_strlit("Shadow");
        reveal_strlit("EV");
        assert("Shadow"@.len() != "EV"@.len());
    }
    assert("Shadow"@ != "EmbedProfile"@) by {
        reveal_strlit("Shadow");
        reveal_strlit("EmbedProfile");
        assert("Shadow"@.len() != "EmbedProfile"@.len());
    }
    assert("Shadow"@ != "EnhancedShadow"@) by {
        reveal_strlit("Shadow");
        reveal_strlit("EnhancedShadow");
        assert("Shadow"@.len() != "EnhancedShadow"@.len());
    }
    assert("Shadow"@ != "FilmCurve"@) by {
        reveal_strlit("Shadow");
        reveal_strlit("FilmCurve");
        assert("Shadow"@.len() != "FilmCurve"@.len());
    }
    assert("Shadow"@ != "FilmType"@) by {
        reveal_strlit("Shadow");
        reveal_strlit("FilmType");
        assert("Shadow"@.len() != "FilmType"@.len());
    }
    assert("Shadow"@ != "Gamma"@) by {
        reveal_strlit("Shadow");
        reveal_strlit("Gamma");
        assert("Shadow"@.len() != "Gamma"@.len());
    }
    assert("Shadow"@ != "GradationSliders"@) by {
        reveal_strlit("Shadow");
        reveal_strlit("GradationSliders");
        assert("Shadow"@.len() != "GradationSliders"@.len());
    }
    assert("Shadow"@ != "Gradations"@) by {
        reveal_strlit("Shadow");
        reveal_strlit("Gradations");
        assert("Shadow"@.len() != "Gradations"@.len());
    }
    assert("Shadow"@ != "Gray"@) by {
        reveal_strlit("Shadow");
        reveal_strlit("Gray");
        assert("Shadow"@.len() != "Gray"@.len());
    }
    assert("Shadow"@ != "Highlight"@) by {
        reveal_strlit("Shadow");
        reveal_strlit("Highlight");
        assert("Shadow"@.len() != "Highlight"@.len());
    }
    assert("Shadow"@ != "InputProfile"@) by {
        reveal_strlit("Shadow");
        reveal_strlit("InputProfile");
        assert("Shadow"@.len() != "InputProfile"@.len());
    }
    assert("Shadow"@ != "LensCorrection"@) by {
        reveal_strlit("Shadow");
        reveal_strlit("LensCorrection");
        assert("Shadow"@.len() != "LensCorrection"@.len());
    }
    assert("Shadow"@ != "Lightness"@) by {
        reveal_strlit("Shadow");
        reveal_strlit("Lightness");
        assert("Shadow"@.len() != "Lightness"@.len());
    }
    assert("Shadow"@ != "Mode"@) by {
        reveal_strlit("Shadow");
        reveal_strlit("Mode");
        assert("Shadow"@.len() != "Mode"@.len());
    }
    assert("Shadow"@ != "NoiseFilterBias"@) by {
        reveal_strlit("Shadow");
        reveal_strlit("NoiseFilterBias");
        assert("Shadow"@.len() != "NoiseFilterBias"@.len());
    }
    assert("Shadow"@ != "RGBProfile"@) by {
        reveal_strlit("Shadow");
        reveal_strlit("RGBProfile");
        assert("Shadow"@.len() != "RGBProfile"@.len());
    }
    assert("Shadow"@ != "RemoveCastHighlight"@) by {
        reveal_strlit("Shadow");
        reveal_strlit("RemoveCastHighlight");
        assert("Shadow"@.len() != "RemoveCastHighlight"@.len());
    }
    assert("Shadow"@ != "RemoveCastShadow"@) by {
        reveal_strlit("Shadow");
        reveal_strlit("RemoveCastShadow");
        assert("Shadow"@.len() != "RemoveCastShadow"@.len());
    }
    assert("Shadow"@ != "Saturation"@) by {
        reveal_strlit("Shadow");
        reveal_strlit("Saturation");
        assert("Shadow"@.len() != "Saturation"@.len());
    }
    assert("Shadow"@ != "SoftProof"@) by {
        reveal_strlit("Shadow");
        reveal_strlit("SoftProof");
        assert("Shadow"@.len() != "SoftProof"@.len());
    }
    assert("Shadow"@ != "Threshold"@) by {
        reveal_strlit("Shadow");
        reveal_strlit("Threshold");
        assert("Shadow"@.len() != "Threshold"@.len());
    }
    assert("Shadow"@ != "Tint"@) by {
        reveal_strlit("Shadow");
        reveal_strlit("Tint");
        assert("Shadow"@.len() != "Tint"@.len());
    }
    assert("Shadow"@ != "USMAmount"@) by {
        reveal_strlit("Shadow");
        reveal_strlit("USMAmount");
        assert("Shadow"@.len() != "USMAmount"@.len());
    }
    assert("Shadow"@ != "USMColFactor"@) by {
        reveal_strlit("Shadow");
        reveal_strlit("USMColFactor");
        assert("Shadow"@.len() != "USMColFactor"@.len());
    }
    assert("Shadow"@ != "USMDarkLimit"@) by {
        reveal_strlit("Shadow");
        reveal_strlit("USMDarkLimit");
        assert("Shadow"@.len() != "USMDarkLimit"@.len());
    }
    assert("Shadow"@ != "USMNoiseLimit"@) by {
        reveal_strlit("Shadow");
        reveal_strlit("USMNoiseLimit");
        assert("Shadow"@.len() != "USMNoiseLimit"@.len());
    }
    assert("Shadow"@ != "USMRadius"@) by {
        reveal_strlit("Shadow");
        reveal_strlit("USMRadius");
        assert("Shadow"@.len() != "USMRadius"@.len());
    }
    assert("Shadow"@ != "VignetteAmount"@) by {
        reveal_strlit("Shadow");
        reveal_strlit("VignetteAmount");
        assert("Shadow"@.len() != "VignetteAmount"@.len());
    }
    assert("Shadow"@ != "streamableVersion"@) by {
        reveal_strlit("Shadow");
        reveal_strlit("streamableVersion");
        assert("Shadow"@.len() != "streamableVersion"@.len());
    }
}

proof fn lemma_int_list_all(kids: Seq<XNode>, vals: Seq<i64>)
    requires
        kids.len() == vals.len(),
        forall|i: int|
            0 <= i < kids.len() ==> parse_int_spec(elem_text(#[trigger] kids[i]), i64::MIN as int, i64::MAX as int)
                == Some(vals[i] as int),
    ensures
        int_list(kids) == vals,
    decreases kids.len(),
{
    if kids.len() > 0 {
        let k2 = kids.drop_last();
        let v2 = vals.drop_last();
        assert forall|i: int| 0 <= i < k2.len() implies parse_int_spec(elem_text(#[trigger] k2[i]), i64::MIN as int, i64::MAX as int)
            == Some(v2[i] as int) by {
            assert(k2[i] == kids[i]);
        }
        lemma_int_list_all(k2, v2);
        assert(parse_int_spec(elem_text(kids[kids.len() - 1]), i64::MIN as int, i64::MAX as int) == Some(vals[vals.len() - 1] as int));
        assert(v2.push(vals.last()) =~= vals);
    } else {
        assert(vals =~= seq![]);
    }
}

} // verus!
