//! The display text of tag values. FLOAT and DOUBLE values are shown with
//! four decimals by the caller, which owns the floating-point formatting;
//! every other type is rendered here.

use vstd::prelude::*;
use crate::text::{append_str, decimal, i64_decimal, push_char, signed_decimal, u64_decimal};
use crate::tags::{makernote_tag_label, makernote_tag_name, standard_tag_label, standard_tag_name};
use crate::tiff::{TagValue, TagValueV};

verus! {

/// Items separated by `, `.
pub open spec fn join_items(items: Seq<Seq<char>>) -> Seq<char>
    decreases items.len(),
{
    if items.len() == 0 {
        seq![]
    } else if items.len() == 1 {
        items[0]
    } else {
        join_items(items.drop_last()) + seq![',', ' '] + items.last()
    }
}

/// A bracketed list of items; with `with_total`, a list of more than eight
/// values says how many there are in all.
pub open spec fn list_text(items: Seq<Seq<char>>, total: nat, with_total: bool) -> Seq<char> {
    if with_total && total > 8 {
        seq!['['] + join_items(items) + ", ... ("@ + decimal(total) + " total)]"@
    } else {
        seq!['['] + join_items(items) + seq![']']
    }
}

/// At most the first eight values.
pub open spec fn shown(n: nat) -> nat {
    if n < 8 { n } else { 8 }
}

pub open spec fn fraction(n: Seq<char>, d: Seq<char>) -> Seq<char> {
    n + seq!['/'] + d
}

/// The display text of a value; `None` for FLOAT and DOUBLE values.
pub open spec fn value_text(v: TagValueV) -> Option<Seq<char>> {
    match v {
        TagValueV::Ascii(s) => Some(s),
        TagValueV::Byte(s) => Some(
            if s.len() == 1 { decimal(s[0] as nat) } else { seq!['['] + decimal(s.len()) + " bytes]"@ },
        ),
        TagValueV::Short(s) => Some(
            if s.len() == 1 {
                decimal(s[0] as nat)
            } else {
                list_text(Seq::new(shown(s.len()), |i: int| decimal(s[i] as nat)), s.len(), true)
            },
        ),
        TagValueV::Long(s) => Some(
            if s.len() == 1 {
                decimal(s[0] as nat)
            } else {
                list_text(Seq::new(shown(s.len()), |i: int| decimal(s[i] as nat)), s.len(), true)
            },
        ),
        TagValueV::Rational(s) => Some(
            if s.len() == 1 {
                let (n, d) = s[0];
                if d == 0 {
                    seq!['0']
                } else if n % d == 0 {
                    decimal((n / d) as nat)
                } else {
                    fraction(decimal(n as nat), decimal(d as nat))
                }
            } else {
                list_text(
                    Seq::new(shown(s.len()), |i: int| fraction(decimal(s[i].0 as nat), decimal(s[i].1 as nat))),
                    s.len(),
                    true,
                )
            },
        ),
        TagValueV::SRational(s) => Some(
            if s.len() == 1 {
                let (n, d) = s[0];
                if d == 0 { seq!['0'] } else { fraction(signed_decimal(n as int), signed_decimal(d as int)) }
            } else {
                list_text(
                    Seq::new(shown(s.len()), |i: int| fraction(signed_decimal(s[i].0 as int), signed_decimal(s[i].1 as int))),
                    s.len(),
                    true,
                )
            },
        ),
        TagValueV::SByte(s) => Some(seq!['['] + decimal(s.len()) + " sbytes]"@),
        TagValueV::Undefined(s) => Some(seq!['['] + decimal(s.len()) + " bytes]"@),
        TagValueV::SShort(s) => Some(
            list_text(Seq::new(shown(s.len()), |i: int| signed_decimal(s[i] as int)), s.len(), false),
        ),
        TagValueV::SLong(s) => Some(
            list_text(Seq::new(shown(s.len()), |i: int| signed_decimal(s[i] as int)), s.len(), false),
        ),
        TagValueV::Float(_) => None,
        TagValueV::Double(_) => None,
    }
}

pub open spec fn strings_view(v: Seq<String>) -> Seq<Seq<char>> {
    v.map_values(|s: String| s@)
}

fn text_of(s: &str) -> (r: String)
    ensures
        r@ == s@,
{
    let mut r = String::new();
    append_str(&mut r, s);
    assert(r@ =~= s@);
    r
}

/// Renders a bracketed list, as `list_text`.
fn bracket_list(items: &Vec<String>, total: usize, with_total: bool) -> (r: String)
    ensures
        r@ == list_text(strings_view(items@), total as nat, with_total),
{
    let ghost iv = strings_view(items@);
    let mut s = String::new();
    push_char(&mut s, '[');
    let mut i: usize = 0;
    assert(iv.take(0) =~= seq![]);
    while i < items.len()
        invariant
            i <= items@.len(),
            iv == strings_view(items@),
            s@ == seq!['['] + join_items(iv.take(i as int)),
        decreases items@.len() - i,
    {
        let ghost before = s@;
        if i > 0 {
            push_char(&mut s, ',');
            push_char(&mut s, ' ');
        }
        append_str(&mut s, items[i].as_str());
        proof {
            let t = iv.take(i + 1);
            assert(t.drop_last() =~= iv.take(i as int));
            assert(t.last() == items@[i as int]@);
            if i == 0 {
                assert(t.len() == 1);
                assert(s@ =~= seq!['['] + join_items(t));
            } else {
                assert(s@ =~= seq!['['] + join_items(t));
            }
        }
        i = i + 1;
    }
    assert(iv.take(items@.len() as int) =~= iv);
    if with_total && total > 8 {
        append_str(&mut s, ", ... (");
        let n = u64_decimal(total as u64);
        append_str(&mut s, n.as_str());
        append_str(&mut s, " total)]");
    } else {
        push_char(&mut s, ']');
    }
    assert(s@ =~= list_text(iv, total as nat, with_total));
    s
}

fn count_text(n: usize, suffix: &str) -> (r: String)
    ensures
        r@ == seq!['['] + decimal(n as nat) + suffix@,
{
    let mut s = String::new();
    push_char(&mut s, '[');
    let d = u64_decimal(n as u64);
    append_str(&mut s, d.as_str());
    append_str(&mut s, suffix);
    assert(s@ =~= seq!['['] + decimal(n as nat) + suffix@);
    s
}

fn fraction_text(n: String, d: String) -> (r: String)
    ensures
        r@ == fraction(n@, d@),
{
    let mut s = n;
    push_char(&mut s, '/');
    append_str(&mut s, d.as_str());
    s
}

impl TagValue {
    /// The display text of the value (see `value_text`); `None` for FLOAT
    /// and DOUBLE values.
    pub fn display_text(&self) -> (r: Option<String>)
        ensures
            (match r { Some(s) => Some(s@), None => None }) == value_text(self@),
    {
        match self {
            TagValue::Ascii(s) => Some(s.clone()),
            TagValue::Byte(v) => {
                if v.len() == 1 {
                    Some(u64_decimal(v[0] as u64))
                } else {
                    Some(count_text(v.len(), " bytes]"))
                }
            },
            TagValue::Short(v) => {
                if v.len() == 1 {
                    return Some(u64_decimal(v[0] as u64));
                }
                let k: usize = if v.len() < 8 { v.len() } else { 8 };
                let mut items: Vec<String> = Vec::new();
                let mut i: usize = 0;
                while i < k
                    invariant
                        i <= k,
                        k == shown(v@.len() as nat),
                        strings_view(items@) == Seq::new(i as nat, |j: int| decimal(v@[j] as nat)),
                    decreases k - i,
                {
                    let x = u64_decimal(v[i] as u64);
                    let ghost before = items@;
                    items.push(x);
                    proof {
                        assert(x@ == decimal(v@[i as int] as nat));
                        assert(strings_view(items@) =~= strings_view(before).push(x@));
                        assert(strings_view(items@) =~= Seq::new((i + 1) as nat, |j: int| decimal(v@[j] as nat)));
                    }
                    i = i + 1;
                }
                Some(bracket_list(&items, v.len(), true))
            },
            TagValue::Long(v) => {
                if v.len() == 1 {
                    return Some(u64_decimal(v[0] as u64));
                }
                let k: usize = if v.len() < 8 { v.len() } else { 8 };
                let mut items: Vec<String> = Vec::new();
                let mut i: usize = 0;
                while i < k
                    invariant
                        i <= k,
                        k == shown(v@.len() as nat),
                        strings_view(items@) == Seq::new(i as nat, |j: int| decimal(v@[j] as nat)),
                    decreases k - i,
                {
                    let x = u64_decimal(v[i] as u64);
                    let ghost before = items@;
                    items.push(x);
                    proof {
                        assert(x@ == decimal(v@[i as int] as nat));
                        assert(strings_view(items@) =~= strings_view(before).push(x@));
                        assert(strings_view(items@) =~= Seq::new((i + 1) as nat, |j: int| decimal(v@[j] as nat)));
                    }
                    i = i + 1;
                }
                Some(bracket_list(&items, v.len(), true))
            },
            TagValue::Rational(v) => {
                if v.len() == 1 {
                    let (n, d) = v[0];
                    if d == 0 {
                        let z = text_of("0");
                        proof {
                            reveal_strlit("0");
                            assert(z@ =~= seq!['0']);
                        }
                        return Some(z);
                    } else if n % d == 0 {
                        return Some(u64_decimal((n / d) as u64));
                    } else {
                        return Some(fraction_text(u64_decimal(n as u64), u64_decimal(d as u64)));
                    }
                }
                let k: usize = if v.len() < 8 { v.len() } else { 8 };
                let mut items: Vec<String> = Vec::new();
                let mut i: usize = 0;
                while i < k
                    invariant
                        i <= k,
                        k == shown(v@.len() as nat),
                        strings_view(items@) == Seq::new(i as nat, |j: int| fraction(decimal(v@[j].0 as nat), decimal(v@[j].1 as nat))),
                    decreases k - i,
                {
                    let (n, d) = v[i];
                    let x = fraction_text(u64_decimal(n as u64), u64_decimal(d as u64));
                    let ghost before = items@;
                    items.push(x);
                    proof {
                        assert(x@ == fraction(decimal(v@[i as int].0 as nat), decimal(v@[i as int].1 as nat)));
                        assert(strings_view(items@) =~= strings_view(before).push(x@));
                        assert(strings_view(items@) =~= Seq::new((i + 1) as nat, |j: int| fraction(decimal(v@[j].0 as nat), decimal(v@[j].1 as nat))));
                    }
                    i = i + 1;
                }
                Some(bracket_list(&items, v.len(), true))
            },
            TagValue::SRational(v) => {
                if v.len() == 1 {
                    let (n, d) = v[0];
                    if d == 0 {
                        let z = text_of("0");
                        proof {
                            reveal_strlit("0");
                            assert(z@ =~= seq!['0']);
                        }
                        return Some(z);
                    } else {
                        return Some(fraction_text(i64_decimal(n as i64), i64_decimal(d as i64)));
                    }
                }
                let k: usize = if v.len() < 8 { v.len() } else { 8 };
                let mut items: Vec<String> = Vec::new();
                let mut i: usize = 0;
                while i < k
                    invariant
                        i <= k,
                        k == shown(v@.len() as nat),
                        strings_view(items@) == Seq::new(i as nat, |j: int| fraction(signed_decimal(v@[j].0 as int), signed_decimal(v@[j].1 as int))),
                    decreases k - i,
                {
                    let (n, d) = v[i];
                    let x = fraction_text(i64_decimal(n as i64), i64_decimal(d as i64));
                    let ghost before = items@;
                    items.push(x);
                    proof {
                        assert(x@ == fraction(signed_decimal(v@[i as int].0 as int), signed_decimal(v@[i as int].1 as int)));
                        assert(strings_view(items@) =~= strings_view(before).push(x@));
                        assert(strings_view(items@) =~= Seq::new((i + 1) as nat, |j: int| fraction(signed_decimal(v@[j].0 as int), signed_decimal(v@[j].1 as int))));
                    }
                    i = i + 1;
                }
                Some(bracket_list(&items, v.len(), true))
            },
            TagValue::SByte(v) => Some(count_text(v.len(), " sbytes]")),
            TagValue::Undefined(v) => Some(count_text(v.len(), " bytes]")),
            TagValue::SShort(v) => {
                let k: usize = if v.len() < 8 { v.len() } else { 8 };
                let mut items: Vec<String> = Vec::new();
                let mut i: usize = 0;
                while i < k
                    invariant
                        i <= k,
                        k == shown(v@.len() as nat),
                        strings_view(items@) == Seq::new(i as nat, |j: int| signed_decimal(v@[j] as int)),
                    decreases k - i,
                {
                    let x = i64_decimal(v[i] as i64);
                    let ghost before = items@;
                    items.push(x);
                    proof {
                        assert(x@ == signed_decimal(v@[i as int] as int));
                        assert(strings_view(items@) =~= strings_view(before).push(x@));
                        assert(strings_view(items@) =~= Seq::new((i + 1) as nat, |j: int| signed_decimal(v@[j] as int)));
                    }
                    i = i + 1;
                }
                Some(bracket_list(&items, v.len(), false))
            },
            TagValue::SLong(v) => {
                let k: usize = if v.len() < 8 { v.len() } else { 8 };
                let mut items: Vec<String> = Vec::new();
                let mut i: usize = 0;
                while i < k
                    invariant
                        i <= k,
                        k == shown(v@.len() as nat),
                        strings_view(items@) == Seq::new(i as nat, |j: int| signed_decimal(v@[j] as int)),
                    decreases k - i,
                {
                    let x = i64_decimal(v[i] as i64);
                    let ghost before = items@;
                    items.push(x);
                    proof {
                        assert(x@ == signed_decimal(v@[i as int] as int));
                        assert(strings_view(items@) =~= strings_view(before).push(x@));
                        assert(strings_view(items@) =~= Seq::new((i + 1) as nat, |j: int| signed_decimal(v@[j] as int)));
                    }
                    i = i + 1;
                }
                Some(bracket_list(&items, v.len(), false))
            },
            TagValue::Float(_) => None,
            TagValue::Double(_) => None,
        }
    }
}

/// The upper-case hexadecimal digit of `d` (0..15).
pub open spec fn hex_digit(d: int) -> char {
    if d < 10 { (('0' as int) + d) as char } else { (('A' as int) + d - 10) as char }
}

/// A tag number as `0x` and four upper-case hexadecimal digits.
pub open spec fn hex_text(tag: u16) -> Seq<char> {
    seq!['0', 'x', hex_digit(tag as int / 4096), hex_digit((tag as int / 256) % 16), hex_digit((tag as int / 16) % 16),
        hex_digit(tag as int % 16)]
}

fn hex_digit_exec(d: u16) -> (c: char)
    requires
        d < 16,
    ensures
        c == hex_digit(d as int),
{
    if d < 10 { (48 + d) as u8 as char } else { (55 + d) as u8 as char }
}

/// A tag number as `0x` and four upper-case hexadecimal digits.
pub fn tag_hex(tag: u16) -> (s: String)
    ensures
        s@ == hex_text(tag),
{
    let mut s = String::new();
    push_char(&mut s, '0');
    push_char(&mut s, 'x');
    push_char(&mut s, hex_digit_exec(tag / 4096));
    push_char(&mut s, hex_digit_exec((tag / 256) % 16));
    push_char(&mut s, hex_digit_exec((tag / 16) % 16));
    push_char(&mut s, hex_digit_exec(tag % 16));
    assert(s@ =~= hex_text(tag));
    s
}

/// The name of a tag: in a MakerNote IFD its MakerNote name first, then its
/// standard name; `Unknown` when it has none.
pub open spec fn entry_tag_label(in_makernote: bool, tag: u16) -> Seq<char> {
    if in_makernote && makernote_tag_label(tag) is Some {
        makernote_tag_label(tag).unwrap()
    } else {
        match standard_tag_label(tag) {
            Some(s) => s,
            None => "Unknown"@,
        }
    }
}

/// The name of a tag of an IFD (see `entry_tag_label`).
pub fn entry_tag_name(in_makernote: bool, tag: u16) -> (r: &'static str)
    ensures
        r@ == entry_tag_label(in_makernote, tag),
{
    if in_makernote {
        if let Some(s) = makernote_tag_name(tag) {
            return s;
        }
    }
    match standard_tag_name(tag) {
        Some(s) => s,
        None => "Unknown",
    }
}

} // verus!
