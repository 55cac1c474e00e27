//! The FlexColor edit-history model: dates and the readable names of the
//! film curve, film type and colour model settings.
use vstd::prelude::*;

use crate::text::{append_str, push_char, zero_padded, zero_padded_string};

verus! {

/// A date and time as stored in the settings plist.
#[derive(Debug, Clone, Default)]
pub struct DateTime {
    pub year: i32,
    pub month: i32,
    pub day: i32,
    pub hour: i32,
    pub minute: i32,
    pub second: i32,
}

/// The text of a date: `YYYY-MM-DD hh:mm:ss` (zero-padded) when the year is
/// positive, an em dash otherwise.
pub open spec fn date_time_text(d: DateTime) -> Seq<char> {
    if d.year > 0 {
        zero_padded(d.year as int, 4) + seq!['-'] + zero_padded(d.month as int, 2) + seq!['-']
            + zero_padded(d.day as int, 2) + seq![' '] + zero_padded(d.hour as int, 2) + seq![':']
            + zero_padded(d.minute as int, 2) + seq![':'] + zero_padded(d.second as int, 2)
    } else {
        seq!['\u{2014}']
    }
}

impl DateTime {
    /// Whether the date is set (a positive year).
    pub fn is_valid(&self) -> (r: bool)
        ensures
            r == (self.year > 0),
    {
        self.year > 0
    }

    /// The date as text: `YYYY-MM-DD hh:mm:ss`, or an em dash when unset.
    pub fn to_string(&self) -> (s: String)
        ensures
            s@ == date_time_text(*self),
    {
        if !self.is_valid() {
            let mut s = String::new();
            push_char(&mut s, '\u{2014}');
            return s;
        }
        let mut s = zero_padded_string(self.year as i64, 4);
        push_char(&mut s, '-');
        let m = zero_padded_string(self.month as i64, 2);
        append_str(&mut s, m.as_str());
        push_char(&mut s, '-');
        let d = zero_padded_string(self.day as i64, 2);
        append_str(&mut s, d.as_str());
        push_char(&mut s, ' ');
        let h = zero_padded_string(self.hour as i64, 2);
        append_str(&mut s, h.as_str());
        push_char(&mut s, ':');
        let mi = zero_padded_string(self.minute as i64, 2);
        append_str(&mut s, mi.as_str());
        push_char(&mut s, ':');
        let se = zero_padded_string(self.second as i64, 2);
        append_str(&mut s, se.as_str());
        assert(s@ =~= date_time_text(*self));
        s
    }
}

/// The readable name of a film curve setting.
pub open spec fn film_curve_label(v: i64) -> Seq<char> {
    if v == 0 {
        "Linear"@
    } else if v == 1 {
        "Film Std"@
    } else if v == 2 {
        "Film High"@
    } else if v == 3 {
        "Film Low"@
    } else if v == 4 {
        "Film Auto"@
    } else {
        "Unknown"@
    }
}

/// The readable name of a film type setting.
pub open spec fn film_type_label(v: i64) -> Seq<char> {
    if v == 0 {
        "Positive E-6"@
    } else if v == 1 {
        "Negative C-41"@
    } else if v == 2 {
        "B&W"@
    } else {
        "Unknown"@
    }
}

/// The readable name of a colour model setting.
pub open spec fn color_model_label(v: i64) -> Seq<char> {
    if v == 0 {
        "RGB"@
    } else if v == 1 {
        "CMYK"@
    } else if v == 2 {
        "Grayscale"@
    } else {
        "Unknown"@
    }
}

/// The readable name of a film curve setting.
pub fn film_curve_name(v: i64) -> (r: &'static str)
    ensures
        r@ == film_curve_label(v),
{
    match v {
        0 => "Linear",
        1 => "Film Std",
        2 => "Film High",
        3 => "Film Low",
        4 => "Film Auto",
        _ => "Unknown",
    }
}

/// The readable name of a film type setting.
pub fn film_type_name(v: i64) -> (r: &'static str)
    ensures
        r@ == film_type_label(v),
{
    match v {
        0 => "Positive E-6",
        1 => "Negative C-41",
        2 => "B&W",
        _ => "Unknown",
    }
}

/// The readable name of a colour model setting.
pub fn color_model_name(v: i64) -> (r: &'static str)
    ensures
        r@ == color_model_label(v),
{
    match v {
        0 => "RGB",
        1 => "CMYK",
        2 => "Grayscale",
        _ => "Unknown",
    }
}

} // verus!
